use vstd::prelude::*;
use crate::models::{DetailFields, Experience};
use crate::numbers::{all_digits, dec_val, parse_usize};
use crate::text::{concat_bytes, trim, trim_bytes};

verus! {

/// The immutable selector configuration of one site, built once at startup
/// and passed explicitly into every extraction.  Which elements carry the
/// count, the links and the vacancy fields is per-site configuration, not
/// part of the pipeline's contract.
#[derive(Debug)]
pub struct ExtractorConfig {
    /// Pattern that locates the embedded count-badge fragment in raw text.
    pub count_pattern: String,
    /// Selector of the badge element inside the isolated fragment.
    pub count_selector: String,
    /// Selector of the listing entries' anchor elements.
    pub link_selector: String,
    /// Selector of the badge that marks a listing entry "hot".
    pub hot_badge_selector: String,
    /// Selector of the detail page's title element.
    pub title_selector: String,
    /// Selector of the detail page's description blocks.
    pub description_selector: String,
    /// Selector of the detail page's salary element.
    pub salary_selector: String,
    /// Selector of the visa-sponsorship filter link.
    pub visa_selector: String,
    /// Selector of the "requires experience" filter link.
    pub experience_selector: String,
    /// Selector of the "no experience needed" filter link.
    pub no_experience_selector: String,
    /// Selector of the detail page's "hot" marker.
    pub hot_selector: String,
    /// Origin against which relative detail links resolve.
    pub base: Vec<u8>,
    /// Label stamped on each delivered record as its source.
    pub source_name: Vec<u8>,
}

/// The whole text of the first match of a regular expression in a text,
/// a function of pattern and text alone.
pub uninterp spec fn regex_match_of(pat: Seq<char>, text: Seq<char>) -> Option<Seq<char>>;

/// The collected text of the first element a selector finds in markup that
/// is parsed as a standalone fragment, as bytes.
pub uninterp spec fn fragment_text_of(frag: Seq<char>, sel: Seq<char>) -> Option<Seq<u8>>;

/// The collected texts, in document order, of the elements a selector finds
/// in markup parsed as a full document.
pub uninterp spec fn selected_texts(m: Seq<char>, sel: Seq<char>) -> Seq<Seq<u8>>;

/// The `href` attributes, in document order, of the elements a selector
/// finds in markup parsed as a full document; elements without the
/// attribute contribute nothing.
pub uninterp spec fn selected_hrefs(m: Seq<char>, sel: Seq<char>) -> Seq<Seq<u8>>;

/// The `href` attributes of those selected elements that contain an element
/// matching the badge selector; an order-preserving subset of the hrefs.
pub uninterp spec fn hot_hrefs(m: Seq<char>, sel: Seq<char>, badge: Seq<char>) -> Seq<Seq<u8>>;

/// Relies on regex::Regex::find: the whole text of the pattern's first
/// match, deterministic in pattern and text.  An unparsable pattern finds
/// nothing.
#[verifier::external_body]
fn regex_whole_match(text: &str, pattern: &str) -> (r: Option<String>)
    ensures
        r is Some <==> regex_match_of(pattern@, text@) is Some,
        r matches Some(s) ==> s@ == regex_match_of(pattern@, text@).unwrap(),
{
    let re = match regex::Regex::new(pattern) {
        Ok(re) => re,
        Err(_) => return None,
    };
    re.find(text).map(|m| m.as_str().to_string())
}

/// Relies on scraper::Html::parse_fragment and Selector::parse: the first
/// selected element's text, collected and returned as bytes.  An unparsable
/// selector selects nothing.
#[verifier::external_body]
fn fragment_first_text(fragment: &str, selector: &str) -> (r: Option<Vec<u8>>)
    ensures
        r is Some <==> fragment_text_of(fragment@, selector@) is Some,
        r matches Some(t) ==> t@ == fragment_text_of(fragment@, selector@).unwrap(),
{
    let sel = match scraper::Selector::parse(selector) {
        Ok(sel) => sel,
        Err(_) => return None,
    };
    let doc = scraper::Html::parse_fragment(fragment);
    let first = doc.select(&sel).next()?;
    Some(first.text().collect::<String>().into_bytes())
}

/// Relies on scraper::Html::parse_document and Selector::parse: the
/// collected text of every selected element, in document order.  An
/// unparsable selector selects nothing.
#[verifier::external_body]
fn select_texts(markup: &str, selector: &str) -> (r: Vec<Vec<u8>>)
    ensures
        r.deep_view() == selected_texts(markup@, selector@),
{
    let sel = match scraper::Selector::parse(selector) {
        Ok(sel) => sel,
        Err(_) => return Vec::new(),
    };
    let doc = scraper::Html::parse_document(markup);
    doc.select(&sel).map(|e| e.text().collect::<String>().into_bytes()).collect()
}

/// Relies on scraper::Html::parse_document: the first selected element's
/// collected text, the head of what select_texts returns.
#[verifier::external_body]
fn select_first_text(markup: &str, selector: &str) -> (r: Option<Vec<u8>>)
    ensures
        r is Some <==> selected_texts(markup@, selector@).len() > 0,
        r matches Some(t) ==> t@ == selected_texts(markup@, selector@)[0],
{
    let sel = match scraper::Selector::parse(selector) {
        Ok(sel) => sel,
        Err(_) => return None,
    };
    let doc = scraper::Html::parse_document(markup);
    let first = doc.select(&sel).next()?;
    Some(first.text().collect::<String>().into_bytes())
}

/// Relies on scraper::Html::parse_document: whether the selector finds any
/// element at all, i.e. whether select_texts would return anything.
#[verifier::external_body]
fn select_present(markup: &str, selector: &str) -> (r: bool)
    ensures
        r == (selected_texts(markup@, selector@).len() > 0),
{
    let sel = match scraper::Selector::parse(selector) {
        Ok(sel) => sel,
        Err(_) => return false,
    };
    let doc = scraper::Html::parse_document(markup);
    doc.select(&sel).next().is_some()
}

/// Relies on scraper::Html::parse_document and ElementRef::attr: the `href`
/// attribute of every selected element, in document order.
#[verifier::external_body]
fn select_hrefs(markup: &str, selector: &str) -> (r: Vec<Vec<u8>>)
    ensures
        r.deep_view() == selected_hrefs(markup@, selector@),
{
    let sel = match scraper::Selector::parse(selector) {
        Ok(sel) => sel,
        Err(_) => return Vec::new(),
    };
    let doc = scraper::Html::parse_document(markup);
    doc.select(&sel).filter_map(
        |e| e.value().attr("href").map(|h| h.as_bytes().to_vec()),
    ).collect()
}

/// Relies on scraper::Html::parse_document and ElementRef::select: the
/// `href` attributes of the selected elements that contain a badge element,
/// an order-preserving subset of what select_hrefs returns.
#[verifier::external_body]
fn select_hot_hrefs(markup: &str, selector: &str, badge_selector: &str) -> (r: Vec<Vec<u8>>)
    ensures
        r.deep_view() == hot_hrefs(markup@, selector@, badge_selector@),
        forall|i: int|
            0 <= i < r.deep_view().len() ==> selected_hrefs(markup@, selector@).contains(
                r.deep_view()[i],
            ),
{
    let sel = match scraper::Selector::parse(selector) {
        Ok(sel) => sel,
        Err(_) => return Vec::new(),
    };
    let badge = match scraper::Selector::parse(badge_selector) {
        Ok(badge) => badge,
        Err(_) => return Vec::new(),
    };
    let doc = scraper::Html::parse_document(markup);
    doc.select(&sel).filter(|e| e.select(&badge).next().is_some()).filter_map(
        |e| e.value().attr("href").map(|h| h.as_bytes().to_vec()),
    ).collect()
}

/// The total count a listing's markup reports: the count-badge fragment is
/// located by pattern, re-parsed as markup, and its badge element's text is
/// read as an unsigned number.  Every failure of this two-stage extraction
/// yields 0, never an error.
pub open spec fn listing_count_of(m: Seq<char>, pat: Seq<char>, badge_sel: Seq<char>) -> int {
    match regex_match_of(pat, m) {
        Option::None => 0,
        Option::Some(frag) => match fragment_text_of(frag, badge_sel) {
            Option::None => 0,
            Option::Some(t) => if t.len() > 0 && all_digits(t) && dec_val(t) <= usize::MAX {
                dec_val(t)
            } else {
                0
            },
        },
    }
}

/// The concatenation of a sequence of text fragments, each trimmed of
/// whitespace at both ends, joined without separators.
pub open spec fn concat_trimmed(parts: Seq<Seq<u8>>) -> Seq<u8>
    decreases parts.len(),
{
    if parts.len() == 0 {
        Seq::empty()
    } else {
        concat_trimmed(parts.drop_last()) + trim(parts.last())
    }
}

/// What one listing page yields: the reported total count, the resolved
/// detail links in order, and the order-preserving subset flagged "hot".
#[derive(Debug)]
pub struct ListingParse {
    /// The count the page's badge reports; 0 when absent or unreadable.
    pub total_count: usize,
    /// Detail-page URLs, resolved against the site's base origin.
    pub urls: Vec<Vec<u8>>,
    /// The subset of `urls` whose listing card carries the hot badge.
    pub hot_urls: Vec<Vec<u8>>,
}

/// Each relative link resolved against the base origin.
fn resolve_all(rels: &Vec<Vec<u8>>, base: &Vec<u8>) -> (r: Vec<Vec<u8>>)
    ensures
        r.deep_view() == rels.deep_view().map_values(|u: Seq<u8>| base@ + u),
{
    let mut r: Vec<Vec<u8>> = Vec::new();
    let mut i: usize = 0;
    while i < rels.len()
        invariant
            i <= rels@.len(),
            r.deep_view() == rels.deep_view().take(i as int).map_values(
                |u: Seq<u8>| base@ + u,
            ),
        decreases rels@.len() - i,
    {
        let resolved = concat_bytes(base, &rels[i]);
        let ghost prev = r.deep_view();
        proof {
            assert(rels.deep_view()[i as int] == rels@[i as int]@);
            assert(rels.deep_view().take(i + 1).map_values(|u: Seq<u8>| base@ + u)
                =~= rels.deep_view().take(i as int).map_values(|u: Seq<u8>| base@ + u).push(
                base@ + rels.deep_view()[i as int],
            ));
        }
        r.push(resolved);
        proof {
            assert(r.deep_view() =~~= prev.push(resolved@));
        }
        i = i + 1;
    }
    proof {
        assert(rels.deep_view().take(rels@.len() as int) =~= rels.deep_view());
    }
    r
}

/// Parses one listing page: the reported total count, the detail links
/// resolved against the base origin, and the hot-flagged subset.  A missing
/// or unreadable count badge degrades to a count of 0 and never errors.
pub fn parse_listing(markup: &str, cfg: &ExtractorConfig) -> (r: ListingParse)
    ensures
        r.total_count == listing_count_of(markup@, cfg.count_pattern@, cfg.count_selector@),
        regex_match_of(cfg.count_pattern@, markup@) is None ==> r.total_count == 0,
        r.urls.deep_view() == selected_hrefs(markup@, cfg.link_selector@).map_values(
            |u: Seq<u8>| cfg.base@ + u,
        ),
        r.hot_urls.deep_view() == hot_hrefs(
            markup@,
            cfg.link_selector@,
            cfg.hot_badge_selector@,
        ).map_values(|u: Seq<u8>| cfg.base@ + u),
        forall|i: int|
            0 <= i < r.hot_urls.deep_view().len() ==> r.urls.deep_view().contains(
                r.hot_urls.deep_view()[i],
            ),
{
    let total_count: usize = match regex_whole_match(markup, cfg.count_pattern.as_str()) {
        Option::None => 0,
        Option::Some(frag) => match fragment_first_text(frag.as_str(), cfg.count_selector.as_str()) {
            Option::None => 0,
            Option::Some(t) => match parse_usize(&t) {
                Option::Some(n) => n,
                Option::None => 0,
            },
        },
    };
    let urls = resolve_all(&select_hrefs(markup, cfg.link_selector.as_str()), &cfg.base);
    let hot_rels = select_hot_hrefs(
        markup,
        cfg.link_selector.as_str(),
        cfg.hot_badge_selector.as_str(),
    );
    let hot_urls = resolve_all(&hot_rels, &cfg.base);
    proof {
        let hrefs = selected_hrefs(markup@, cfg.link_selector@);
        let hots = hot_hrefs(markup@, cfg.link_selector@, cfg.hot_badge_selector@);
        assert forall|i: int| 0 <= i < hot_urls.deep_view().len() implies urls.deep_view().contains(
            hot_urls.deep_view()[i],
        ) by {
            assert(hrefs.contains(hots[i]));
            let j = choose|j: int| 0 <= j < hrefs.len() && hrefs[j] == hots[i];
            assert(urls.deep_view()[j] == cfg.base@ + hrefs[j]);
        }
    }
    ListingParse { total_count, urls, hot_urls }
}

/// The trimmed fragments, concatenated: the description of a detail page.
fn build_description(parts: &Vec<Vec<u8>>) -> (r: Vec<u8>)
    ensures
        r@ == concat_trimmed(parts.deep_view()),
{
    let mut acc: Vec<u8> = Vec::new();
    let mut i: usize = 0;
    while i < parts.len()
        invariant
            i <= parts@.len(),
            acc@ == concat_trimmed(parts.deep_view().take(i as int)),
        decreases parts@.len() - i,
    {
        let trimmed = trim_bytes(&parts[i]);
        let next = concat_bytes(&acc, &trimmed);
        proof {
            assert(parts.deep_view()[i as int] == parts@[i as int]@);
            let taken = parts.deep_view().take(i + 1);
            assert(taken.drop_last() =~= parts.deep_view().take(i as int));
            assert(taken.last() == parts.deep_view()[i as int]);
        }
        acc = next;
        i = i + 1;
    }
    proof {
        assert(parts.deep_view().take(parts@.len() as int) =~= parts.deep_view());
    }
    acc
}

/// Parses one detail page into vacancy fields.  A missing optional field is
/// substituted, never an error: the title degrades to the empty string, the
/// salary to absent; the experience answer is Required whenever the
/// "requires experience" marker is present, even if the "no experience"
/// marker is present too.
pub fn parse_detail(markup: &str, cfg: &ExtractorConfig) -> (r: DetailFields)
    ensures
        selected_texts(markup@, cfg.title_selector@).len() == 0 ==> r.title@ == Seq::<u8>::empty(),
        selected_texts(markup@, cfg.title_selector@).len() > 0 ==> r.title@ == selected_texts(
            markup@,
            cfg.title_selector@,
        )[0],
        r.description@ == concat_trimmed(selected_texts(markup@, cfg.description_selector@)),
        r.salary is Some <==> selected_texts(markup@, cfg.salary_selector@).len() > 0,
        r.salary matches Some(s) ==> s@ == selected_texts(markup@, cfg.salary_selector@)[0],
        r.visa_sponsorship == if selected_texts(markup@, cfg.visa_selector@).len() > 0 {
            Option::Some(true)
        } else {
            Option::None::<bool>
        },
        selected_texts(markup@, cfg.experience_selector@).len() > 0 ==> r.experience
            == Experience::Required,
        r.experience == if selected_texts(markup@, cfg.experience_selector@).len() > 0 {
            Experience::Required
        } else if selected_texts(markup@, cfg.no_experience_selector@).len() > 0 {
            Experience::NotRequired
        } else {
            Experience::Unspecified
        },
        r.hot == (selected_texts(markup@, cfg.hot_selector@).len() > 0),
{
    let title = match select_first_text(markup, cfg.title_selector.as_str()) {
        Option::Some(t) => t,
        Option::None => Vec::new(),
    };
    let description = build_description(&select_texts(markup, cfg.description_selector.as_str()));
    let salary = select_first_text(markup, cfg.salary_selector.as_str());
    let visa_sponsorship = if select_present(markup, cfg.visa_selector.as_str()) {
        Option::Some(true)
    } else {
        Option::None
    };
    let experience = if select_present(markup, cfg.experience_selector.as_str()) {
        Experience::Required
    } else if select_present(markup, cfg.no_experience_selector.as_str()) {
        Experience::NotRequired
    } else {
        Experience::Unspecified
    };
    let hot = select_present(markup, cfg.hot_selector.as_str());
    DetailFields { title, description, salary, visa_sponsorship, experience, hot }
}

} // verus!
