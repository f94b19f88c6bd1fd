use vstd::prelude::*;

verus! {

/// The crawl's external parameters, taken as opaque inputs at start of run:
/// which site is crawled, how many detail fetches may be in flight at once,
/// the sink's base URL and the authentication header value.
#[derive(Debug)]
pub struct Opts {
    /// Which source site this crawl reads; becomes each record's site tag.
    pub site_id: usize,
    /// Requested bound on in-flight detail-page tasks.
    pub threads: usize,
    /// Base URL of the downstream sink.
    pub url: String,
    /// Authentication header value for the sink.
    pub key: String,
}

impl Opts {
    /// The effective concurrency bound: the requested number of threads,
    /// but never less than one.
    pub fn concurrency(&self) -> (r: usize)
        ensures
            r == if self.threads >= 1 {
                self.threads as int
            } else {
                1
            },
            r >= 1,
    {
        if self.threads >= 1 {
            self.threads
        } else {
            1
        }
    }
}

} // verus!
