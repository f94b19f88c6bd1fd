use jobcrawl::driver::{filter_ignored, Crawl, CrawlPhase};
use jobcrawl::extract::ListingParse;
use jobcrawl::opts::Opts;
use jobcrawl::pagination::pages_total;
use jobcrawl::pipeline::{task_escalates, BatchState, DeliveryOutcome, TaskOutcome};

#[test]
fn pages_total_ceil_math() {
    assert_eq!(pages_total(45, 20), 3);
    assert_eq!(pages_total(40, 20), 2);
    assert_eq!(pages_total(41, 20), 3);
    assert_eq!(pages_total(0, 20), 0);
    assert_eq!(pages_total(19, 20), 1);
}

#[test]
fn pages_total_zero_page_size_never_divides() {
    assert_eq!(pages_total(45, 0), 1);
    assert_eq!(pages_total(0, 0), 1);
}

#[test]
fn pagination_visits_pages_one_two_three() {
    let urls: Vec<Vec<u8>> = (0..20).map(|i| format!("/v/{}", i).into_bytes()).collect();
    let listing = ListingParse { total_count: 45, urls, hot_urls: Vec::new() };
    let (mut crawl, first_batch) = Crawl::start(listing, 1);
    assert_eq!(first_batch.len(), 20);
    assert_eq!(crawl.next_listing_page(), None);
    crawl.on_batch_result(false);
    assert_eq!(crawl.next_listing_page(), Some(2));
    crawl.on_batch_result(false);
    assert_eq!(crawl.next_listing_page(), Some(3));
    crawl.on_batch_result(false);
    assert_eq!(crawl.next_listing_page(), None);
    assert!(crawl.is_finished());
    assert_eq!(crawl.phase, CrawlPhase::Done);
}

#[test]
fn batch_failure_halts_pagination() {
    let urls: Vec<Vec<u8>> = (0..20).map(|i| format!("/v/{}", i).into_bytes()).collect();
    let listing = ListingParse { total_count: 45, urls, hot_urls: Vec::new() };
    let (mut crawl, _batch) = Crawl::start(listing, 1);
    crawl.on_batch_result(false);
    assert_eq!(crawl.next_listing_page(), Some(2));
    crawl.on_batch_result(true);
    assert_eq!(crawl.phase, CrawlPhase::Halted);
    assert_eq!(crawl.next_listing_page(), None);
    assert!(crawl.is_finished());
}

#[test]
fn escalation_rule_on_rejection() {
    let rejected = TaskOutcome::Submitted(DeliveryOutcome::Rejected);
    assert!(task_escalates(&rejected, false, false));
    assert!(!task_escalates(&rejected, true, false));
    assert!(!task_escalates(&rejected, false, true));
    assert!(!task_escalates(&rejected, true, true));
}

#[test]
fn transport_and_fetch_failures_always_escalate() {
    let transport = TaskOutcome::Submitted(DeliveryOutcome::TransportError);
    assert!(task_escalates(&transport, true, true));
    assert!(task_escalates(&TaskOutcome::FetchError, true, true));
}

#[test]
fn accepted_never_escalates() {
    let accepted = TaskOutcome::Submitted(DeliveryOutcome::Accepted);
    assert!(!task_escalates(&accepted, false, false));
    assert!(!task_escalates(&accepted, true, true));
}

#[test]
fn failure_of_third_task_stops_later_dispatch() {
    let mut batch = BatchState::new(5, 2);
    let first = batch.dispatch();
    assert_eq!(first, 0);
    let second = batch.dispatch();
    assert_eq!(second, 1);
    assert!(!batch.can_dispatch());
    batch.complete(false);
    assert!(batch.can_dispatch());
    let third = batch.dispatch();
    assert_eq!(third, 2);
    batch.complete(true);
    assert!(!batch.can_dispatch());
    batch.complete(false);
    assert!(!batch.can_dispatch());
    assert!(batch.is_settled());
    assert!(batch.failed);
    assert_eq!(batch.dispatched, 3);
}

#[test]
fn clean_batch_attempts_every_url() {
    let mut batch = BatchState::new(3, 2);
    while batch.can_dispatch() {
        batch.dispatch();
        batch.complete(false);
    }
    assert!(batch.is_settled());
    assert!(!batch.failed);
    assert_eq!(batch.completed, 3);
}

#[test]
fn ignore_set_filters_later_batches() {
    let urls = vec![b"/v/1".to_vec(), b"/v/2".to_vec(), b"/v/3".to_vec()];
    let ignore = vec![b"/v/2".to_vec()];
    let kept = filter_ignored(&urls, &ignore);
    assert_eq!(kept, vec![b"/v/1".to_vec(), b"/v/3".to_vec()]);
}

#[test]
fn concurrency_is_at_least_one() {
    let opts = Opts {
        site_id: 1,
        threads: 0,
        url: "http://localhost:8081".to_string(),
        key: "test-key".to_string(),
    };
    assert_eq!(opts.concurrency(), 1);
    let opts2 = Opts { threads: 4, ..opts };
    assert_eq!(opts2.concurrency(), 4);
}
