use vstd::prelude::*;

verus! {

/// The author block of a delivered record.
#[derive(Debug)]
pub struct Author {
    /// Display name of the publishing source.
    pub name: Vec<u8>,
}

/// One extracted vacancy, in the shape the batched sink delivers: a record
/// keyed by its detail-page URL, carrying the extracted text fields and the
/// source-site tag.  Text is held as raw bytes of the page's encoding.
#[derive(Debug)]
pub struct Vacancy {
    /// Which source site produced the record; a crawl-level parameter.
    pub type_id: i64,
    /// Vacancy title; empty when the title element was absent.
    pub title: Vec<u8>,
    /// All description fragments, trimmed and concatenated.
    pub description: Vec<u8>,
    /// Canonical detail-page URL; the natural key within one crawl.
    pub view_url: Vec<u8>,
    /// Name of the source site.
    pub name: Vec<u8>,
    /// Author block, named after the source site.
    pub author: Author,
}

/// Whether a vacancy demands prior experience: a three-state answer, so that
/// "both markers absent" stays distinct from either definite answer.
#[derive(Clone, Copy, Debug, PartialEq, Eq, Structural)]
pub enum Experience {
    /// The "requires experience" marker is present.
    Required,
    /// Only the "no experience needed" marker is present.
    NotRequired,
    /// Neither marker is present.
    Unspecified,
}

/// The fields read off one detail page.  Absence of an optional field is
/// never an error: the extractor substitutes an empty or absent value.
#[derive(Debug)]
pub struct DetailFields {
    /// Title text; empty when the title element is absent.
    pub title: Vec<u8>,
    /// Description fragments, trimmed per fragment and concatenated.
    pub description: Vec<u8>,
    /// Raw salary text, absent when the salary element is missing.
    pub salary: Option<Vec<u8>>,
    /// Present exactly when the visa filter link occurs on the page.
    pub visa_sponsorship: Option<bool>,
    /// The three-state experience answer.
    pub experience: Experience,
    /// Whether the page carries the promotional "hot" marker.
    pub hot: bool,
}

/// Builds the record a sink delivers from the fields of one detail page.
pub fn build_vacancy(fields: &DetailFields, url: &Vec<u8>, source_name: &Vec<u8>, site_id: i64) -> (v:
    Vacancy)
    ensures
        v.type_id == site_id,
        v.title@ == fields.title@,
        v.description@ == fields.description@,
        v.view_url@ == url@,
        v.name@ == source_name@,
        v.author.name@ == source_name@,
{
    Vacancy {
        type_id: site_id,
        title: crate::text::copy_bytes(&fields.title),
        description: crate::text::copy_bytes(&fields.description),
        view_url: crate::text::copy_bytes(url),
        name: crate::text::copy_bytes(source_name),
        author: Author { name: crate::text::copy_bytes(source_name) },
    }
}

} // verus!
