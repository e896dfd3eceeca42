//! Content extracted from one paper, and the section-locating heuristics
//! that produce it.

use vstd::prelude::*;

pub mod body;
pub mod keyword;
pub mod patterns;

verus! {

/// Content pulled out of one paper on full pipeline success.
#[derive(Debug)]
pub struct ArxivPaperContent {
    /// arxiv id to reference later
    pub id: String,
    /// abstract content
    pub abstract_text: String,
    /// keywords
    pub keywords: Vec<String>,
    /// the actual content of the paper, intro through the references
    pub paper_content: String,
}

/// A stored content row, with the keywords still joined into one field.
pub struct ArxivPaperContentEntity {
    /// arxiv id to reference later
    pub id: String,
    /// abstract content
    pub abstract_text: String,
    /// keywords
    pub keywords: String,
    /// the actual content of the paper, intro through the references
    pub paper_content: String,
}

} // verus!
