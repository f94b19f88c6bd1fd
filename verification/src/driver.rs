use vstd::prelude::*;
use crate::extract::{
    selected_hrefs, parse_listing, ExtractorConfig, ListingParse,
};
use crate::pagination::{pages_total, spec_pages_total};
use crate::text::contains_bytes;

verus! {

/// Where a crawl stands.
#[derive(Clone, Copy, Debug, PartialEq, Eq, Structural)]
pub enum CrawlPhase {
    /// Page 1 is parsed; its batch has not resolved yet.
    FirstBatch,
    /// A further listing page is due to be fetched and run as a batch.
    Paginating,
    /// All pages resolved without a halting failure.
    Done,
    /// A batch failed; no further page is fetched.  Pages already processed
    /// are not rolled back.
    Halted,
}

/// The state of one crawl: built from page 1, read-only thereafter but for
/// the phase and the page cursor.  The ignore set is the set of URLs that
/// page 1 flagged "hot"; membership suppresses failure escalation later.
#[derive(Debug)]
pub struct Crawl {
    /// Which source site this crawl reads.
    pub site_id: i64,
    /// The total result count page 1 reported (0 when unreadable).
    pub total_count: usize,
    /// How many URLs page 1 carried; the divisor of the pagination math.
    pub page_size: usize,
    /// How many pages the crawl visits in total.
    pub pages: usize,
    /// The URLs page 1 flagged hot; never mutated after construction.
    pub ignore_urls: Vec<Vec<u8>>,
    /// The page whose batch is running (FirstBatch, Paginating), or the
    /// last page considered (Done, Halted).
    pub current_page: usize,
    /// Where the crawl stands.
    pub phase: CrawlPhase,
}

/// URLs with the members of the ignore set removed, order kept.
pub open spec fn spec_filter_ignored(urls: Seq<Seq<u8>>, ignore: Seq<Seq<u8>>) -> Seq<Seq<u8>>
    decreases urls.len(),
{
    if urls.len() == 0 {
        Seq::empty()
    } else {
        let rest = spec_filter_ignored(urls.drop_last(), ignore);
        if !ignore.contains(urls.last()) {
            rest.push(urls.last())
        } else {
            rest
        }
    }
}

/// A copy of `urls` without the members of `ignore`, order kept.
pub fn filter_ignored(urls: &Vec<Vec<u8>>, ignore: &Vec<Vec<u8>>) -> (r: Vec<Vec<u8>>)
    ensures
        r.deep_view() == spec_filter_ignored(urls.deep_view(), ignore.deep_view()),
{
    let mut r: Vec<Vec<u8>> = Vec::new();
    let mut i: usize = 0;
    while i < urls.len()
        invariant
            i <= urls@.len(),
            r.deep_view() == spec_filter_ignored(
                urls.deep_view().take(i as int),
                ignore.deep_view(),
            ),
        decreases urls@.len() - i,
    {
        proof {
            assert(urls.deep_view()[i as int] == urls@[i as int]@);
            assert(urls.deep_view().take(i + 1).drop_last() =~= urls.deep_view().take(i as int));
            assert(urls.deep_view().take(i + 1).last() == urls.deep_view()[i as int]);
        }
        if !contains_bytes(ignore, &urls[i]) {
            let ghost prev = r.deep_view();
            let u = crate::text::copy_bytes(&urls[i]);
            r.push(u);
            proof {
                assert(r.deep_view() =~~= prev.push(urls.deep_view()[i as int]));
            }
        }
        i = i + 1;
    }
    proof {
        assert(urls.deep_view().take(urls@.len() as int) =~= urls.deep_view());
    }
    r
}

impl Crawl {
    /// The crawl's internal consistency.
    pub open spec fn wf(self) -> bool {
        &&& self.pages == spec_pages_total(self.total_count as int, self.page_size as int)
        &&& self.current_page >= 1
        &&& self.phase == CrawlPhase::FirstBatch ==> self.current_page == 1
        &&& self.phase == CrawlPhase::Paginating ==> 2 <= self.current_page <= self.pages
    }

    /// Begins a crawl from the parse of page 1: the total count and the
    /// page size are captured, the hot-flagged URLs become the ignore set,
    /// and page 1's URLs are handed back as the first batch, unfiltered.
    pub fn start(listing: ListingParse, site_id: i64) -> (r: (Crawl, Vec<Vec<u8>>))
        ensures
            r.0.wf(),
            r.0.site_id == site_id,
            r.0.phase == CrawlPhase::FirstBatch,
            r.0.total_count == listing.total_count,
            r.0.page_size == listing.urls@.len(),
            r.0.pages == spec_pages_total(
                listing.total_count as int,
                listing.urls@.len() as int,
            ),
            r.0.ignore_urls.deep_view() == listing.hot_urls.deep_view(),
            r.0.current_page == 1,
            r.1.deep_view() == listing.urls.deep_view(),
    {
        let page_size = listing.urls.len();
        let pages = pages_total(listing.total_count, page_size);
        let c = Crawl {
            site_id,
            total_count: listing.total_count,
            page_size,
            pages,
            ignore_urls: listing.hot_urls,
            current_page: 1,
            phase: CrawlPhase::FirstBatch,
        };
        (c, listing.urls)
    }

    /// Resolves the running batch: a failure halts the crawl at once; a
    /// clean batch moves the cursor to the next page, or ends the crawl
    /// when no page remains.
    pub fn on_batch_result(&mut self, batch_failed: bool)
        requires
            old(self).wf(),
            old(self).phase == CrawlPhase::FirstBatch || old(self).phase
                == CrawlPhase::Paginating,
        ensures
            final(self).wf(),
            final(self).phase == if batch_failed {
                CrawlPhase::Halted
            } else if old(self).current_page < old(self).pages {
                CrawlPhase::Paginating
            } else {
                CrawlPhase::Done
            },
            final(self).current_page == if !batch_failed && old(self).current_page < old(
                self,
            ).pages {
                old(self).current_page + 1
            } else {
                old(self).current_page as int
            },
            final(self).site_id == old(self).site_id,
            final(self).total_count == old(self).total_count,
            final(self).page_size == old(self).page_size,
            final(self).pages == old(self).pages,
            final(self).ignore_urls == old(self).ignore_urls,
    {
        if batch_failed {
            self.phase = CrawlPhase::Halted;
        } else if self.current_page < self.pages {
            self.current_page = self.current_page + 1;
            self.phase = CrawlPhase::Paginating;
        } else {
            self.phase = CrawlPhase::Done;
        }
    }

    /// The listing page to fetch next, while the crawl paginates.
    pub fn next_listing_page(&self) -> (r: Option<usize>)
        ensures
            r == if self.phase == CrawlPhase::Paginating {
                Option::Some(self.current_page)
            } else {
                Option::None::<usize>
            },
    {
        if let CrawlPhase::Paginating = self.phase {
            Option::Some(self.current_page)
        } else {
            Option::None
        }
    }

    /// Whether the crawl has reached a terminal phase.  Halted and Done
    /// are both orderly endings at the process level.
    pub fn is_finished(&self) -> (r: bool)
        ensures
            r == (self.phase == CrawlPhase::Done || self.phase == CrawlPhase::Halted),
    {
        match self.phase {
            CrawlPhase::Done => true,
            CrawlPhase::Halted => true,
            _ => false,
        }
    }

    /// Parses a further listing page for its URLs alone (the count is not
    /// re-derived) and removes the members of the ignore set: the next
    /// batch.
    pub fn on_listing_page(&self, markup: &str, cfg: &ExtractorConfig) -> (r: Vec<Vec<u8>>)
        ensures
            r.deep_view() == spec_filter_ignored(
                selected_hrefs(markup@, cfg.link_selector@).map_values(
                    |u: Seq<u8>| cfg.base@ + u,
                ),
                self.ignore_urls.deep_view(),
            ),
    {
        let parsed = parse_listing(markup, cfg);
        filter_ignored(&parsed.urls, &self.ignore_urls)
    }
}

} // verus!
