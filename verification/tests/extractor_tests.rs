use jobcrawl::extract::{parse_detail, parse_listing, ExtractorConfig};
use jobcrawl::models::Experience;

fn layboard_config() -> ExtractorConfig {
    ExtractorConfig {
        count_pattern: r#"<span class="count-badge">(\d+)<\/span>"#.to_string(),
        count_selector: "span.count-badge".to_string(),
        link_selector: "a.vacancy-body".to_string(),
        hot_badge_selector: "div.hot-badge".to_string(),
        title_selector: "div.jarticle__title".to_string(),
        description_selector: "div.jarticle__descrip".to_string(),
        salary_selector: "div.jarticle__stat-value".to_string(),
        visa_selector: r#"a[href="/vakansii/chehiya/filter-rabochaya-viza"]"#.to_string(),
        experience_selector: r#"a[href="/vakansii/chehiya/filter-trebuetsya-oput"]"#.to_string(),
        no_experience_selector: r#"a[href="/vakansii/chehiya/filter-bez-oputa"]"#.to_string(),
        hot_selector: "div.hot-btn".to_string(),
        base: b"https://layboard.com".to_vec(),
        source_name: b"layboard.com".to_vec(),
    }
}

#[test]
fn listing_without_count_badge_reports_zero() {
    let cfg = layboard_config();
    let markup = r#"<html><body>
        <a class="vacancy-body" href="/vakansii/1"></a>
        <a class="vacancy-body" href="/vakansii/2"></a>
    </body></html>"#;
    let parsed = parse_listing(markup, &cfg);
    assert_eq!(parsed.total_count, 0);
    assert_eq!(parsed.urls.len(), 2);
}

#[test]
fn listing_count_badge_is_read() {
    let cfg = layboard_config();
    let markup = r#"<html><body>
        <span class="count-badge">45</span>
        <a class="vacancy-body" href="/vakansii/1"></a>
    </body></html>"#;
    let parsed = parse_listing(markup, &cfg);
    assert_eq!(parsed.total_count, 45);
}

#[test]
fn listing_unreadable_count_degrades_to_zero() {
    let cfg = layboard_config();
    let markup = r#"<span class="count-badge">999999999999999999999999999999</span>"#;
    let parsed = parse_listing(markup, &cfg);
    assert_eq!(parsed.total_count, 0);
}

#[test]
fn listing_empty_markup_yields_nothing() {
    let cfg = layboard_config();
    let parsed = parse_listing("", &cfg);
    assert_eq!(parsed.total_count, 0);
    assert_eq!(parsed.urls.len(), 0);
    assert_eq!(parsed.hot_urls.len(), 0);
}

#[test]
fn listing_urls_resolve_against_base() {
    let cfg = layboard_config();
    let markup = r#"<a class="vacancy-body" href="/vakansii/chehiya/123-cook"></a>"#;
    let parsed = parse_listing(markup, &cfg);
    assert_eq!(parsed.urls.len(), 1);
    assert_eq!(
        parsed.urls[0],
        b"https://layboard.com/vakansii/chehiya/123-cook".to_vec()
    );
}

#[test]
fn listing_hot_urls_are_the_flagged_subset() {
    let cfg = layboard_config();
    let markup = r#"<html><body>
        <a class="vacancy-body" href="/v/1"></a>
        <a class="vacancy-body" href="/v/2"><div class="hot-badge"></div></a>
        <a class="vacancy-body" href="/v/3"></a>
    </body></html>"#;
    let parsed = parse_listing(markup, &cfg);
    assert_eq!(parsed.urls.len(), 3);
    assert_eq!(parsed.hot_urls.len(), 1);
    assert_eq!(parsed.hot_urls[0], b"https://layboard.com/v/2".to_vec());
}

#[test]
fn detail_missing_title_becomes_empty() {
    let cfg = layboard_config();
    let markup = r#"<div class="jarticle__descrip">text</div>"#;
    let fields = parse_detail(markup, &cfg);
    assert_eq!(fields.title, Vec::<u8>::new());
}

#[test]
fn detail_title_is_first_match() {
    let cfg = layboard_config();
    let markup = r#"<div class="jarticle__title">Cook wanted</div>
        <div class="jarticle__title">Second</div>"#;
    let fields = parse_detail(markup, &cfg);
    assert_eq!(fields.title, b"Cook wanted".to_vec());
}

#[test]
fn detail_description_trims_and_concatenates() {
    let cfg = layboard_config();
    let markup = r#"<div class="jarticle__descrip">  first part </div>
        <div class="jarticle__descrip">
        second part
        </div>"#;
    let fields = parse_detail(markup, &cfg);
    assert_eq!(fields.description, b"first partsecond part".to_vec());
}

#[test]
fn detail_salary_absent_and_present() {
    let cfg = layboard_config();
    let without = parse_detail("<p>nothing</p>", &cfg);
    assert!(without.salary.is_none());
    let with = parse_detail(r#"<div class="jarticle__stat-value">1500 EUR</div>"#, &cfg);
    assert_eq!(with.salary, Some(b"1500 EUR".to_vec()));
}

#[test]
fn experience_required_wins_when_both_markers_present() {
    let cfg = layboard_config();
    let markup = r#"<a href="/vakansii/chehiya/filter-trebuetsya-oput">exp</a>
        <a href="/vakansii/chehiya/filter-bez-oputa">no exp</a>"#;
    let fields = parse_detail(markup, &cfg);
    assert_eq!(fields.experience, Experience::Required);
}

#[test]
fn experience_not_required_from_single_marker() {
    let cfg = layboard_config();
    let markup = r#"<a href="/vakansii/chehiya/filter-bez-oputa">no exp</a>"#;
    let fields = parse_detail(markup, &cfg);
    assert_eq!(fields.experience, Experience::NotRequired);
}

#[test]
fn experience_unspecified_when_both_markers_absent() {
    let cfg = layboard_config();
    let fields = parse_detail("<p>plain page</p>", &cfg);
    assert_eq!(fields.experience, Experience::Unspecified);
}

#[test]
fn detail_visa_and_hot_presence() {
    let cfg = layboard_config();
    let markup = r#"<a href="/vakansii/chehiya/filter-rabochaya-viza">visa</a>
        <div class="hot-btn"></div>"#;
    let fields = parse_detail(markup, &cfg);
    assert_eq!(fields.visa_sponsorship, Some(true));
    assert!(fields.hot);
    let plain = parse_detail("<p></p>", &cfg);
    assert_eq!(plain.visa_sponsorship, None);
    assert!(!plain.hot);
}
