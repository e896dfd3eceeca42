//! Training records as they are exported: a stored content row with its
//! joined keyword field split back into terms.

use vstd::prelude::*;
use crate::content::ArxivPaperContentEntity;
use crate::text::chars_of;
use crate::text::split_and_clean;
use crate::text::split_clean_spec;
use crate::text::string_from_chars;
use crate::text::string_views;
use crate::text::strings_from_char_vecs;
use crate::text::strip_nl_spec;

verus! {

/// One exported training record.
#[derive(Debug)]
pub struct TrainingRecord {
    pub arxiv_id: String,
    pub content: String,
    pub abstract_content: String,
    pub keywords: Vec<String>,
}

impl TrainingRecord {
    /// Splits a stored keyword field back into terms: comma-separated, each
    /// term trimmed and purged of embedded line breaks.
    pub fn parse_keywords(keywords: String) -> (r: Vec<String>)
        ensures
            string_views(r@) == split_clean_spec(keywords@, seq![',']),
    {
        let v = chars_of(keywords.as_str());
        let sep = vec![','];
        proof {
            assert(sep@ =~= seq![',']);
        }
        let terms = split_and_clean(&v, &sep);
        strings_from_char_vecs(&terms)
    }

    /// The record exported for a stored content row.
    pub fn from_entity(value: ArxivPaperContentEntity) -> (r: Self)
        ensures
            r.arxiv_id@ == value.id@,
            r.content@ == value.paper_content@,
            r.abstract_content@ == value.abstract_text@,
            string_views(r.keywords@) == split_clean_spec(value.keywords@, seq![',']),
    {
        TrainingRecord {
            arxiv_id: value.id,
            content: value.paper_content,
            abstract_content: value.abstract_text,
            keywords: TrainingRecord::parse_keywords(value.keywords),
        }
    }
}

/// Removes every line-break character embedded in a term.
pub fn strip_internal_newlines(term: &str) -> (r: String)
    ensures
        r@ == strip_nl_spec(term@),
{
    let v = chars_of(term);
    let stripped = crate::text::strip_nl_chars(&v);
    string_from_chars(&stripped)
}

} // verus!
