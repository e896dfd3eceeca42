//! Body extraction: the text from the first `Introduction` header through
//! the `References` header that follows it.

use vstd::prelude::*;
use crate::content::patterns::first_intro_from;
use crate::content::patterns::first_refs_permissive_from;
use crate::content::patterns::first_refs_strict_from;
use crate::content::patterns::find_intro_from;
use crate::content::patterns::find_refs_permissive_from;
use crate::content::patterns::find_refs_strict_from;
use crate::content::patterns::intro_pred;
use crate::content::patterns::lemma_intro_start_not_nl;
use crate::content::patterns::refs_permissive_at;
use crate::content::patterns::refs_permissive_pred;
use crate::content::patterns::refs_strict_at;
use crate::content::patterns::refs_strict_pred;
use crate::err::AppError;
use crate::err::AppResult;
use crate::text::chars_of;
use crate::text::first_at;
use crate::text::lemma_first_at;
use crate::text::string_from_chars;
use crate::text::subrange_chars;

verus! {

/// What body extraction returns: the slice from the first `Introduction`
/// header's start to the start of the first `References` header found at or
/// after it — strict form first, permissive form as fallback — or the name
/// of the section that is missing.
pub open spec fn extract_body_spec(s: Seq<char>) -> Result<Seq<char>, Seq<char>> {
    match first_intro_from(s, 0) {
        Option::None => Result::Err("INTRODUCTION"@),
        Option::Some(b) => match first_refs_strict_from(s, b) {
            Option::Some(r) => Result::Ok(s.subrange(b, r)),
            Option::None => match first_refs_permissive_from(s, b) {
                Option::Some(r) => Result::Ok(s.subrange(b, r)),
                Option::None => Result::Err("REFERENCES"@),
            },
        },
    }
}

/// Locates the body of a paper's text.
pub struct PaperBodyExtractor {}

impl PaperBodyExtractor {
    pub fn new() -> (r: Self) {
        PaperBodyExtractor {  }
    }

    /// The slice from the `Introduction` header through the start of the
    /// `References` header; the search for `References` begins at the
    /// `Introduction` header's start, never before it.
    pub fn extract_body(&self, content: &str) -> (r: AppResult<String>)
        ensures
            match r {
                Ok(b) => extract_body_spec(content@) is Ok && b@ == extract_body_spec(
                    content@,
                )->Ok_0,
                Err(e) => {
                    &&& extract_body_spec(content@) is Err
                    &&& e matches AppError::MissingSection(m) && m@ == extract_body_spec(
                        content@,
                    )->Err_0
                },
            },
    {
        let v = chars_of(content);
        let intro = find_intro_from(&v, 0);
        match intro {
            None => Err(AppError::MissingSection(String::from_str("INTRODUCTION"))),
            Some(b) => {
                proof {
                    lemma_first_at(v@, 0, intro_pred());
                }
                let strict = find_refs_strict_from(&v, b);
                match strict {
                    Some(r) => {
                        proof {
                            lemma_first_at(v@, b as int, refs_strict_pred());
                        }
                        let body = subrange_chars(&v, b, r);
                        Ok(string_from_chars(&body))
                    },
                    None => {
                        let permissive = find_refs_permissive_from(&v, b);
                        match permissive {
                            Some(r) => {
                                proof {
                                    lemma_first_at(v@, b as int, refs_permissive_pred());
                                }
                                let body = subrange_chars(&v, b, r);
                                Ok(string_from_chars(&body))
                            },
                            None => Err(
                                AppError::MissingSection(String::from_str("REFERENCES")),
                            ),
                        }
                    },
                }
            },
        }
    }
}

/// Law: for every text whose leftmost `Introduction` header is followed, at
/// or after its own start, by a strict `References` header, body extraction
/// succeeds with exactly the slice from the `Introduction` header's start to
/// the start of the first such `References` header, exclusive.
pub proof fn lemma_body_exact_span(s: Seq<char>, b: int, k: int)
    requires
        first_intro_from(s, 0) == Some(b),
        refs_strict_at(s, k),
        k >= b,
    ensures
        first_refs_strict_from(s, b) is Some,
        first_refs_strict_from(s, b)->0 <= k,
        extract_body_spec(s) == Result::<Seq<char>, Seq<char>>::Ok(
            s.subrange(b, first_refs_strict_from(s, b)->0),
        ),
{
    lemma_first_at(s, 0, intro_pred());
    lemma_first_at(s, b, refs_strict_pred());
    assert(refs_strict_pred()(s, k));
    if first_at(s, b, refs_strict_pred()) is None {
        assert(k < s.len());
        assert(!refs_strict_pred()(s, k));
        assert(false);
    }
    let r = first_at(s, b, refs_strict_pred())->0;
    if r > k {
        assert(!refs_strict_pred()(s, k));
        assert(false);
    }
}

/// Law: a successful body is never empty. The `References` search starts at
/// the `Introduction` header's own offset, a `References` header starts on a
/// line break while an `Introduction` header never does, so the references
/// start found lies strictly after the body start.
pub proof fn lemma_body_nonempty(s: Seq<char>)
    ensures
        extract_body_spec(s) is Ok ==> extract_body_spec(s)->Ok_0.len() > 0,
{
    if extract_body_spec(s) is Ok {
        let b = first_intro_from(s, 0)->0;
        lemma_first_at(s, 0, intro_pred());
        assert(intro_pred()(s, b));
        lemma_intro_start_not_nl(s, b);
        match first_refs_strict_from(s, b) {
            Option::Some(r) => {
                lemma_first_at(s, b, refs_strict_pred());
                assert(refs_strict_pred()(s, r));
                assert(refs_strict_at(s, r));
                assert(r != b);
            },
            Option::None => {
                let r = first_refs_permissive_from(s, b)->0;
                lemma_first_at(s, b, refs_permissive_pred());
                assert(refs_permissive_pred()(s, r));
                assert(refs_permissive_at(s, r));
                assert(r != b);
            },
        }
    }
}

/// Law: a standalone `References` line that stands before the
/// `Introduction` header never ends the body early. The search for
/// `References` begins at the `Introduction` header's start offset, so the
/// references start returned is never below the body start, whatever
/// headers precede it.
pub proof fn lemma_refs_before_intro_ignored(s: Seq<char>, j: int)
    requires
        extract_body_spec(s) is Ok,
    ensures
        ({
            let b = first_intro_from(s, 0)->0;
            match first_refs_strict_from(s, b) {
                Option::Some(r) => r >= b && (refs_strict_at(s, j) && j < b ==> r != j),
                Option::None => first_refs_permissive_from(s, b)->0 >= b,
            }
        }),
{
    let b = first_intro_from(s, 0)->0;
    lemma_first_at(s, 0, intro_pred());
    match first_refs_strict_from(s, b) {
        Option::Some(r) => {
            lemma_first_at(s, b, refs_strict_pred());
        },
        Option::None => {
            lemma_first_at(s, b, refs_permissive_pred());
        },
    }
}

} // verus!
