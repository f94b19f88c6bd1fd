use vstd::prelude::*;
use crate::codec::{encode_jsonl, encode_jsonl_s};
use crate::models::Vacancy;

verus! {

/// The batched delivery mode: every record of the crawl accumulates in
/// memory, and the whole batch is written once, as a line-delimited file,
/// after the crawl completes.  In this mode no per-record rejection can
/// occur mid-crawl: failure is observable only once, at the final upload,
/// and the hot/ignore suppression rule has nothing to act on — a known
/// asymmetry of the mode, not a defect.
#[derive(Debug)]
pub struct BatchedSink {
    /// The records accumulated so far, in completion order.
    pub records: Vec<Vacancy>,
}

impl BatchedSink {
    /// An empty sink.
    pub fn new() -> (s: BatchedSink)
        ensures
            s.records@.len() == 0,
    {
        BatchedSink { records: Vec::new() }
    }

    /// Takes one record.  Delivery is at-most-once: nothing here retries
    /// or rolls back, the record is simply appended.
    pub fn submit(&mut self, v: Vacancy)
        ensures
            final(self).records@ == old(self).records@.push(v),
    {
        self.records.push(v);
    }

    /// How many records the sink holds.
    pub fn len(&self) -> (n: usize)
        ensures
            n == self.records@.len(),
    {
        self.records.len()
    }

    /// The full file body for the final upload: one JSON object line per
    /// accumulated record, in order.
    pub fn file_body(&self) -> (r: Vec<u8>)
        ensures
            r@ == encode_jsonl_s(self.records@),
    {
        encode_jsonl(&self.records)
    }
}

} // verus!
