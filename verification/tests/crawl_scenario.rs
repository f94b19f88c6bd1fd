use jobcrawl::driver::{Crawl, CrawlPhase};
use jobcrawl::extract::{parse_detail, parse_listing, ExtractorConfig};
use jobcrawl::models::build_vacancy;
use jobcrawl::pipeline::{task_escalates, BatchState, DeliveryOutcome, TaskOutcome};
use jobcrawl::sink::BatchedSink;
use jobcrawl::text::contains_bytes;

fn layboard_config() -> ExtractorConfig {
    ExtractorConfig {
        count_pattern: r#"<span class="count-badge">(\d+)<\/span>"#.to_string(),
        count_selector: "span.count-badge".to_string(),
        link_selector: "a.vacancy-body".to_string(),
        hot_badge_selector: "div.hot-badge".to_string(),
        title_selector: "div.jarticle__title".to_string(),
        description_selector: "div.jarticle__descrip".to_string(),
        salary_selector: "div.jarticle__stat-value".to_string(),
        visa_selector: r#"a[href="/vakansii/chehiya/filter-rabochaya-viza"]"#.to_string(),
        experience_selector: r#"a[href="/vakansii/chehiya/filter-trebuetsya-oput"]"#.to_string(),
        no_experience_selector: r#"a[href="/vakansii/chehiya/filter-bez-oputa"]"#.to_string(),
        hot_selector: "div.hot-btn".to_string(),
        base: b"https://layboard.com".to_vec(),
        source_name: b"layboard.com".to_vec(),
    }
}

fn detail_markup(title: &str) -> String {
    format!(
        r#"<html><body>
        <div class="jarticle__title">{}</div>
        <div class="jarticle__descrip">Work abroad.</div>
        </body></html>"#,
        title
    )
}

#[test]
fn crawl_of_one_clean_page_completes_done() {
    let cfg = layboard_config();
    let listing_markup = r#"<html><body>
        <span class="count-badge">2</span>
        <a class="vacancy-body" href="/v/1"></a>
        <a class="vacancy-body" href="/v/2"></a>
    </body></html>"#;
    let listing = parse_listing(listing_markup, &cfg);
    assert_eq!(listing.total_count, 2);
    assert_eq!(listing.urls.len(), 2);
    let (mut crawl, batch_urls) = Crawl::start(listing, 1);
    let ignore = crawl.ignore_urls.clone();

    let mut sink = BatchedSink::new();
    let mut batch = BatchState::new(batch_urls.len(), 2);
    let mut failed = false;
    let details = vec![detail_markup("Cook"), detail_markup("Welder")];
    let mut next = 0usize;
    while batch.can_dispatch() {
        let idx = batch.dispatch();
        let fields = parse_detail(&details[idx], &cfg);
        let hot = fields.hot;
        let vacancy = build_vacancy(&fields, &batch_urls[idx], &cfg.source_name, 1);
        sink.submit(vacancy);
        let outcome = TaskOutcome::Submitted(DeliveryOutcome::Accepted);
        let ignored = contains_bytes(&ignore, &batch_urls[idx]);
        let escalated = task_escalates(&outcome, hot, ignored);
        batch.complete(escalated);
        if escalated {
            failed = true;
        }
        next = idx + 1;
    }
    assert_eq!(next, 2);
    assert!(batch.is_settled());
    assert!(!batch.failed);
    assert!(!failed);
    crawl.on_batch_result(failed);
    assert_eq!(crawl.next_listing_page(), None);
    assert_eq!(crawl.phase, CrawlPhase::Done);
    assert_eq!(sink.len(), 2);
}
