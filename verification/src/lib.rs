pub mod pagination;
pub mod pipeline;
pub mod driver;
pub mod text;
pub mod numbers;
pub mod models;
pub mod codec;
pub mod sink;
pub mod extract;
pub mod opts;
