//! The per-identifier extraction service: document text to keywords and
//! body, all-or-nothing, with every failure tagged by the identifier it
//! belongs to.

use vstd::prelude::*;
use crate::content::ArxivPaperContent;
use crate::content::body::extract_body_spec;
use crate::content::body::PaperBodyExtractor;
use crate::content::keyword::extract_keywords_spec;
use crate::content::keyword::KeywordExtractor;
use crate::err::AppError;
use crate::err::kind_code;
use crate::text::string_views;

verus! {

/// An extraction failure carrying the identifier it belongs to, so the
/// orchestrator can log and persist it without re-deriving context.
#[derive(Debug)]
pub struct ExtractError {
    pub arxiv_id: String,
    pub err: AppError,
}

impl ExtractError {
    pub fn id(&self) -> (r: &str)
        ensures
            r@ == self.arxiv_id@,
    {
        self.arxiv_id.as_str()
    }

    pub fn app_err(&self) -> (r: &AppError)
        ensures
            *r == self.err,
    {
        &self.err
    }

    pub fn into_app_error(self) -> (r: AppError)
        ensures
            r == self.err,
    {
        self.err
    }
}

pub type ExtractResult<T> = Result<T, ExtractError>;

/// One appended row of the durable status trail: the identifier, a status
/// code (`OK` or an error kind), and the failure message if any.
#[derive(Debug)]
pub struct ExtractResultRecord {
    pub arxiv_id: String,
    pub extract_status: String,
    pub extract_msg: Option<String>,
}

impl ExtractResultRecord {
    /// The row recording a successful extraction.
    pub fn success(id: &str) -> (r: Self)
        ensures
            r.arxiv_id@ == id@,
            r.extract_status@ == "OK"@,
            r.extract_msg is None,
    {
        ExtractResultRecord {
            arxiv_id: String::from_str(id),
            extract_status: String::from_str("OK"),
            extract_msg: None,
        }
    }

    /// The row recording a failure: its kind's code and its message.
    pub fn from_error(err: ExtractError) -> (r: Self)
        ensures
            r.arxiv_id@ == err.arxiv_id@,
            r.extract_status@ == kind_code(err.err.kind_spec()),
            r.extract_msg matches Some(m) && m@ == err.err.message_spec(),
    {
        let code = crate::err::kind_code_string(err.err.kind());
        let msg = err.err.message();
        ExtractResultRecord { arxiv_id: err.arxiv_id, extract_status: code, extract_msg: Some(msg) }
    }
}

/// Composes keyword and body extraction into one per-identifier operation
/// over the text that the fetch layer hands in. Converting a document's
/// bytes to that text is the external text-extraction collaborator's work,
/// done at the edge; its outcome arrives here as plain text or as an
/// already-tagged failure.
pub struct ContentExtractor {
    pub keyword_extractor: KeywordExtractor,
    pub paper_body_extractor: PaperBodyExtractor,
}

impl ContentExtractor {
    pub fn new() -> (r: Self) {
        ContentExtractor {
            keyword_extractor: KeywordExtractor::new(),
            paper_body_extractor: PaperBodyExtractor::new(),
        }
    }

    /// Runs keyword extraction, then body extraction, over the given text.
    /// The first stage to fail short-circuits the rest; success is
    /// all-or-nothing, and either way the identifier rides along.
    pub fn extract_content(&self, arxiv_id: String, content: &str) -> (r: ExtractResult<
        ArxivPaperContent,
    >)
        ensures
            match r {
                Ok(c) => {
                    &&& extract_keywords_spec(content@) == Some(string_views(c.keywords@))
                    &&& extract_body_spec(content@) is Ok
                    &&& c.paper_content@ == extract_body_spec(content@)->Ok_0
                    &&& c.id@ == arxiv_id@
                    &&& c.abstract_text@.len() == 0
                },
                Err(e) => {
                    &&& e.arxiv_id@ == arxiv_id@
                    &&& (extract_keywords_spec(content@) is None ==> e.err == AppError::NoKeywords)
                    &&& (extract_keywords_spec(content@) is Some ==> {
                        &&& extract_body_spec(content@) is Err
                        &&& e.err matches AppError::MissingSection(m) && m@ == extract_body_spec(
                            content@,
                        )->Err_0
                    })
                },
            },
    {
        let keywords_result = self.keyword_extractor.extract_keywords(content);
        let keywords = match keywords_result {
            Ok(ks) => ks,
            Err(err) => {
                return Err(ExtractError { arxiv_id, err });
            },
        };
        let body_result = self.paper_body_extractor.extract_body(content);
        let body = match body_result {
            Ok(b) => b,
            Err(err) => {
                return Err(ExtractError { arxiv_id, err });
            },
        };
        Ok(
            ArxivPaperContent {
                id: arxiv_id,
                paper_content: body,
                abstract_text: String::new(),
                keywords,
            },
        )
    }

}

} // verus!
