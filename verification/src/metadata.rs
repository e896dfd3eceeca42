//! Paper metadata as the corpus loader reads it, and the filtration rules
//! that decide which papers enter the corpus.

use vstd::prelude::*;
use crate::text::chars_of;
use crate::text::is_digit_char;
use crate::text::split_chars;
use crate::text::split_spec;
use crate::text::views_of;

verus! {

/// What parsing an RFC 2822 date yields: the instant as whole seconds since
/// the epoch, a function of the text alone; nothing for an unparseable date.
pub uninterp spec fn rfc2822_epoch(s: Seq<char>) -> Option<int>;

/// Relies on `chrono::DateTime::parse_from_rfc2822` to read an RFC 2822
/// date, and on `chrono::DateTime::timestamp` to convert the parsed instant
/// to whole seconds since the epoch; both depend on the text alone.
#[verifier::external_body]
fn parse_rfc2822_epoch(s: &str) -> (r: Option<i64>)
    ensures
        r is Some <==> rfc2822_epoch(s@) is Some,
        r is Some ==> r->0 as int == rfc2822_epoch(s@)->0,
{
    chrono::DateTime::parse_from_rfc2822(s).ok().map(|d| d.timestamp())
}

/// One version row of a paper's metadata.
#[derive(Debug)]
pub struct ArxivVersion {
    pub version: String,
    pub created: String,
}

impl ArxivVersion {
    pub fn version(&self) -> (r: &str)
        ensures
            r@ == self.version@,
    {
        self.version.as_str()
    }

    pub fn created(&self) -> (r: &str)
        ensures
            r@ == self.created@,
    {
        self.created.as_str()
    }

    /// The creation instant, in whole seconds since the epoch; nothing for
    /// an unparseable date.
    pub fn created_date(&self) -> (r: Option<i64>)
        ensures
            r is Some <==> rfc2822_epoch(self.created@) is Some,
            r is Some ==> r->0 as int == rfc2822_epoch(self.created@)->0,
    {
        parse_rfc2822_epoch(self.created.as_str())
    }

    /// The version was created strictly after the given instant; an
    /// unparseable creation date never counts as after anything.
    pub fn is_after(&self, epoch_seconds: i64) -> (r: bool)
        ensures
            r == match rfc2822_epoch(self.created@) {
                Option::Some(t) => t > epoch_seconds as int,
                Option::None => false,
            },
    {
        let d = self.created_date();
        match d {
            Some(t) => t > epoch_seconds,
            None => false,
        }
    }
}

/// One paper's metadata row, fields optional as the dump leaves them.
#[derive(Debug)]
pub struct ArxivMetadata {
    pub id: Option<String>,
    pub submitter: Option<String>,
    pub authors: Option<String>,
    pub title: Option<String>,
    pub comments: Option<String>,
    pub journal_ref: Option<String>,
    pub doi: Option<String>,
    pub categories: Option<String>,
    pub abstract_text: Option<String>,
    pub versions: Vec<ArxivVersion>,
}

impl ArxivMetadata {
    pub fn id(&self) -> (r: Option<&String>)
        ensures
            match r {
                Some(s) => self.id == Some(*s),
                None => self.id is None,
            },
    {
        self.id.as_ref()
    }

    pub fn submitter(&self) -> (r: Option<&String>)
        ensures
            match r {
                Some(s) => self.submitter == Some(*s),
                None => self.submitter is None,
            },
    {
        self.submitter.as_ref()
    }

    pub fn authors(&self) -> (r: Option<&String>)
        ensures
            match r {
                Some(s) => self.authors == Some(*s),
                None => self.authors is None,
            },
    {
        self.authors.as_ref()
    }

    pub fn title(&self) -> (r: Option<&String>)
        ensures
            match r {
                Some(s) => self.title == Some(*s),
                None => self.title is None,
            },
    {
        self.title.as_ref()
    }

    pub fn comments(&self) -> (r: Option<&String>)
        ensures
            match r {
                Some(s) => self.comments == Some(*s),
                None => self.comments is None,
            },
    {
        self.comments.as_ref()
    }

    pub fn journal_ref(&self) -> (r: Option<&String>)
        ensures
            match r {
                Some(s) => self.journal_ref == Some(*s),
                None => self.journal_ref is None,
            },
    {
        self.journal_ref.as_ref()
    }

    pub fn doi(&self) -> (r: Option<&String>)
        ensures
            match r {
                Some(s) => self.doi == Some(*s),
                None => self.doi is None,
            },
    {
        self.doi.as_ref()
    }

    pub fn categories(&self) -> (r: Option<&String>)
        ensures
            match r {
                Some(s) => self.categories == Some(*s),
                None => self.categories is None,
            },
    {
        self.categories.as_ref()
    }

    pub fn abstract_text(&self) -> (r: Option<&String>)
        ensures
            match r {
                Some(s) => self.abstract_text == Some(*s),
                None => self.abstract_text is None,
            },
    {
        self.abstract_text.as_ref()
    }

    pub fn versions(&self) -> (r: &Vec<ArxivVersion>)
        ensures
            r@ == self.versions@,
    {
        &self.versions
    }
}

/// An ASCII word character, as the category pattern accepts it.
pub open spec fn is_word_char(c: char) -> bool {
    is_digit_char(c) || ('a' <= c && c <= 'z') || ('A' <= c && c <= 'Z') || c == '_'
}

fn is_word_char_exec(c: char) -> (r: bool)
    ensures
        r == is_word_char(c),
{
    ('0' <= c && c <= '9') || ('a' <= c && c <= 'z') || ('A' <= c && c <= 'Z') || c == '_'
}

/// One category token names a computer-science area: `cs`, one separator
/// character that is not a line break, then two word characters.
pub open spec fn is_cs_category(t: Seq<char>) -> bool {
    &&& t.len() == 5
    &&& t[0] == 'c'
    &&& t[1] == 's'
    &&& t[2] != '\n'
    &&& is_word_char(t[3])
    &&& is_word_char(t[4])
}

/// A categories field names at least one computer-science area among its
/// space-separated tokens.
pub open spec fn has_cs_categories_spec(s: Seq<char>) -> bool {
    exists|t: int|
        0 <= t < split_spec(s, seq![' ']).len() && is_cs_category(
            #[trigger] split_spec(s, seq![' '])[t],
        )
}

fn is_cs_category_exec(t: &Vec<char>) -> (r: bool)
    ensures
        r == is_cs_category(t@),
{
    t.len() == 5 && t[0] == 'c' && t[1] == 's' && t[2] != '\n' && is_word_char_exec(t[3])
        && is_word_char_exec(t[4])
}

/// Keeps only papers of the computer-science categories.
pub struct CsCategoryFilter {}

impl CsCategoryFilter {
    pub fn new() -> (r: Self) {
        CsCategoryFilter {  }
    }

    /// Whether any space-separated token of the field names a
    /// computer-science area.
    pub fn has_cs_categories(&self, categories: &str) -> (r: bool)
        ensures
            r == has_cs_categories_spec(categories@),
    {
        let v = chars_of(categories);
        let sep = vec![' '];
        proof {
            assert(sep@ =~= seq![' ']);
        }
        let tokens = split_chars(&v, &sep);
        let n = tokens.len();
        let mut i: usize = 0;
        while i < n
            invariant
                0 <= i <= n,
                n == tokens@.len(),
                views_of(tokens@) == split_spec(categories@, seq![' ']),
                forall|t: int|
                    0 <= t < i ==> !is_cs_category(
                        #[trigger] split_spec(categories@, seq![' '])[t],
                    ),
            decreases n - i,
        {
            if is_cs_category_exec(&tokens[i]) {
                proof {
                    assert(tokens@[i as int]@ == views_of(tokens@)[i as int]);
                }
                return true;
            }
            proof {
                assert(tokens@[i as int]@ == views_of(tokens@)[i as int]);
            }
            i += 1;
        }
        false
    }
}

/// The corpus filtration rule: a paper enters the corpus when its first
/// listed version was created after the cutoff instant and its categories
/// name a computer-science area.
pub open spec fn keep_metadata_spec(meta: &ArxivMetadata, cutoff_epoch: int) -> bool {
    &&& meta.versions@.len() > 0
    &&& (match rfc2822_epoch(meta.versions@[0].created@) {
        Option::Some(t) => t > cutoff_epoch,
        Option::None => false,
    })
    &&& (meta.categories matches Some(c) && has_cs_categories_spec(c@))
}

pub fn keep_metadata(meta: &ArxivMetadata, cutoff_epoch: i64, filter: &CsCategoryFilter) -> (r:
    bool)
    ensures
        r == keep_metadata_spec(meta, cutoff_epoch as int),
{
    if meta.versions.len() == 0 {
        return false;
    }
    let first = &meta.versions[0];
    if !first.is_after(cutoff_epoch) {
        return false;
    }
    let cats = meta.categories.as_ref();
    match cats {
        Some(c) => filter.has_cs_categories(c.as_str()),
        None => false,
    }
}

} // verus!
