//! The outline search of the keyword exploration tool: document outlines
//! are walked as a stack, from the last entry back, looking for a section
//! by its decoded title.

use vstd::prelude::*;
use crate::err::AppError;
use crate::err::AppResult;

verus! {

/// Where the stack walk over decoded outline titles ends: at the matching
/// title, at the first title that failed to decode, or nowhere.
pub enum SectionSearch {
    Found(int),
    Undecodable(int),
    Exhausted,
}

/// The walk itself: entries are examined from the last to the first; an
/// undecodable title stops the walk before any earlier entry is compared.
pub open spec fn find_section_spec(titles: Seq<Option<String>>, wanted: Seq<char>) -> SectionSearch
    decreases titles.len(),
{
    if titles.len() == 0 {
        SectionSearch::Exhausted
    } else {
        match titles.last() {
            Option::None => SectionSearch::Undecodable(titles.len() - 1),
            Option::Some(t) => if t@ == wanted {
                SectionSearch::Found(titles.len() - 1)
            } else {
                find_section_spec(titles.drop_last(), wanted)
            },
        }
    }
}

/// Searches the outline titles for a section, last entry first, as the
/// exploration tool pops them off its traversal stack. Each element holds a
/// decoded title, or nothing where decoding failed; a failed decoding stops
/// the search with an error, and a missing section is its own error.
pub fn find_section(titles: &Vec<Option<String>>, section_title: &str) -> (r: AppResult<usize>)
    ensures
        match r {
            Ok(idx) => find_section_spec(titles@, section_title@) == SectionSearch::Found(
                idx as int,
            ),
            Err(e) => match find_section_spec(titles@, section_title@) {
                SectionSearch::Found(_) => false,
                SectionSearch::Undecodable(_) => e matches AppError::PdfError(m) && m@
                    == "outline title could not be decoded"@,
                SectionSearch::Exhausted => e matches AppError::Other(m) && m@
                    == "no destination found"@,
            },
        },
{
    let mut i: usize = titles.len();
    proof {
        assert(titles@.take(i as int) =~= titles@);
    }
    while i > 0
        invariant
            0 <= i <= titles@.len(),
            find_section_spec(titles@, section_title@) == find_section_spec(
                titles@.take(i as int),
                section_title@,
            ),
        decreases i,
    {
        proof {
            assert(titles@.take(i as int).last() == titles@[i - 1]);
            assert(titles@.take(i as int).drop_last() =~= titles@.take(i - 1));
        }
        let entry = &titles[i - 1];
        match entry {
            None => {
                return Err(
                    AppError::PdfError(String::from_str("outline title could not be decoded")),
                );
            },
            Some(t) => {
                if crate::text::str_eq(t.as_str(), section_title) {
                    return Ok(i - 1);
                }
            },
        }
        i -= 1;
    }
    Err(AppError::Other(String::from_str("no destination found")))
}

} // verus!
