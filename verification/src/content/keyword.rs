//! Keyword extraction: three fallback strategies tried in fixed order, each
//! locating a raw keyword block and splitting it into cleaned terms.

use vstd::prelude::*;
use crate::content::patterns::first_index_terms;
use crate::content::patterns::first_intro_from;
use crate::content::patterns::first_keywords_header;
use crate::content::patterns::first_small_label;
use crate::content::patterns::find_index_terms;
use crate::content::patterns::find_intro_from;
use crate::content::patterns::find_keywords_header;
use crate::content::patterns::find_small_label;
use crate::content::patterns::intro_header_at;
use crate::content::patterns::intro_pred;
use crate::content::patterns::keywords_header_at;
use crate::content::patterns::keywords_header_end;
use crate::content::patterns::keywords_header_pred;
use crate::content::patterns::small_label_end;
use crate::err::AppError;
use crate::err::AppResult;
use crate::text::chars_of;
use crate::text::first_at;
use crate::text::lemma_first_at;
use crate::text::split_and_clean;
use crate::text::split_clean_spec;
use crate::text::string_from_chars;
use crate::text::string_views;
use crate::text::strings_from_char_vecs;
use crate::text::subrange_chars;
use crate::text::views_of;

verus! {

/// The separator of the blank-line-header strategies.
pub open spec fn comma_space_sep() -> Seq<char> {
    seq![',', ' ']
}

/// The separator of the small-label strategy.
pub open spec fn comma_sep() -> Seq<char> {
    seq![',']
}

/// The prefix of `s` up to the first pair of consecutive line breaks: the
/// first of the pair is kept, the second is never reached.
pub open spec fn take_to_dnl(s: Seq<char>) -> Seq<char>
    decreases s.len(),
{
    if s.len() < 2 {
        s
    } else if s[0] == '\n' && s[1] == '\n' {
        seq![s[0]]
    } else {
        seq![s[0]] + take_to_dnl(s.skip(1))
    }
}

proof fn lemma_take_to_dnl_first(s: Seq<char>, k: int)
    requires
        0 <= k,
        k + 1 < s.len(),
        s[k] == '\n',
        s[k + 1] == '\n',
        forall|t: int| 0 <= t < k ==> !(#[trigger] s[t] == '\n' && s[t + 1] == '\n'),
    ensures
        take_to_dnl(s) == s.take(k + 1),
    decreases k,
{
    if k == 0 {
        assert(take_to_dnl(s) == seq![s[0]]);
        assert(seq![s[0]] =~= s.take(1));
    } else {
        assert(!(s[0] == '\n' && s[1] == '\n'));
        let s1 = s.skip(1);
        assert forall|t: int| 0 <= t < k - 1 implies !(#[trigger] s1[t] == '\n' && s1[t + 1] == '\n') by {
            assert(s1[t] == s[t + 1]);
            assert(s1[t + 1] == s[t + 2]);
        }
        assert(s1[k - 1] == s[k] && s1[k] == s[k + 1]);
        lemma_take_to_dnl_first(s1, k - 1);
        assert(take_to_dnl(s) == seq![s[0]] + s1.take(k));
        assert(seq![s[0]] + s1.take(k) =~= s.take(k + 1));
    }
}

proof fn lemma_take_to_dnl_none(s: Seq<char>)
    requires
        forall|t: int| 0 <= t && t + 1 < s.len() ==> !(#[trigger] s[t] == '\n' && s[t + 1] == '\n'),
    ensures
        take_to_dnl(s) == s,
    decreases s.len(),
{
    if s.len() >= 2 {
        let s1 = s.skip(1);
        assert forall|t: int| 0 <= t && t + 1 < s1.len() implies !(#[trigger] s1[t] == '\n' && s1[t + 1]
            == '\n') by {
            assert(s1[t] == s[t + 1]);
            assert(s1[t + 1] == s[t + 2]);
        }
        lemma_take_to_dnl_none(s1);
        assert(seq![s[0]] + s1 =~= s);
    }
}

fn take_to_dnl_chars(v: &Vec<char>) -> (r: Vec<char>)
    ensures
        r@ == take_to_dnl(v@),
{
    let n = v.len();
    let mut out: Vec<char> = Vec::new();
    let mut last_was_nl = false;
    let mut i: usize = 0;
    proof {
        assert(out@ =~= v@.take(0));
    }
    while i < n
        invariant
            0 <= i <= n,
            n == v@.len(),
            out@ == v@.take(i as int),
            last_was_nl == (i > 0 && v@[i as int - 1] == '\n'),
            forall|t: int| 0 <= t < i - 1 ==> !(#[trigger] v@[t] == '\n' && v@[t + 1] == '\n'),
        decreases n - i,
    {
        let ch = v[i];
        if ch == '\n' {
            if last_was_nl {
                proof {
                    lemma_take_to_dnl_first(v@, i - 1);
                }
                return out;
            }
            last_was_nl = true;
        } else {
            last_was_nl = false;
        }
        out.push(ch);
        proof {
            assert(out@ =~= v@.take(i + 1 as int));
        }
        i += 1;
    }
    proof {
        lemma_take_to_dnl_none(v@);
        assert(v@.take(n as int) =~= v@);
    }
    out
}

/// Scans character by character and stops the instant two consecutive line
/// breaks are seen: a single trailing line break before the terminator is
/// included, and the scan never overruns past the terminator.
pub fn take_until_double_newline(content: &str) -> (r: String)
    ensures
        r@ == take_to_dnl(content@),
{
    let v = chars_of(content);
    let t = take_to_dnl_chars(&v);
    string_from_chars(&t)
}

/// What the blank-line `Keywords` header strategy returns: the cleaned terms
/// between the end of the leftmost header and the first `Introduction`
/// header after it, split on a comma and space.
pub open spec fn headers_strategy_spec(s: Seq<char>) -> Option<Seq<Seq<char>>> {
    match first_keywords_header(s) {
        Option::None => Option::None,
        Option::Some(i) => {
            let e = keywords_header_end(s, i);
            match first_intro_from(s, e) {
                Option::None => Option::None,
                Option::Some(k) => Option::Some(
                    split_clean_spec(s.subrange(e, k), comma_space_sep()),
                ),
            }
        },
    }
}

/// What the `Index Terms—` strategy returns: as the header strategy, but
/// anchored just past the leftmost literal marker.
pub open spec fn index_terms_strategy_spec(s: Seq<char>) -> Option<Seq<Seq<char>>> {
    match first_index_terms(s) {
        Option::None => Option::None,
        Option::Some(i) => {
            let e = i + 12;
            match first_intro_from(s, e) {
                Option::None => Option::None,
                Option::Some(k) => Option::Some(
                    split_clean_spec(s.subrange(e, k), comma_space_sep()),
                ),
            }
        },
    }
}

/// What the inline small-label strategy returns: the text from just past the
/// leftmost label up to the first double line break, split on commas.
pub open spec fn small_label_strategy_spec(s: Seq<char>) -> Option<Seq<Seq<char>>> {
    match first_small_label(s) {
        Option::None => Option::None,
        Option::Some(i) => {
            let e = small_label_end(s, i);
            Option::Some(split_clean_spec(take_to_dnl(s.skip(e)), comma_sep()))
        },
    }
}

/// The three strategies in their fixed order: the first that succeeds wins.
pub open spec fn extract_keywords_spec(s: Seq<char>) -> Option<Seq<Seq<char>>> {
    if headers_strategy_spec(s) is Some {
        headers_strategy_spec(s)
    } else if index_terms_strategy_spec(s) is Some {
        index_terms_strategy_spec(s)
    } else {
        small_label_strategy_spec(s)
    }
}

/// Locates the keyword section of a paper's text.
pub struct KeywordExtractor {}

impl KeywordExtractor {
    pub fn new() -> (r: Self) {
        KeywordExtractor {  }
    }

    /// Tries the header, index-terms and small-label strategies in order and
    /// returns the first success; fails only when all three fail.
    pub fn extract_keywords(&self, contents: &str) -> (r: AppResult<Vec<String>>)
        ensures
            match r {
                Ok(ks) => extract_keywords_spec(contents@) == Some(string_views(ks@)),
                Err(e) => extract_keywords_spec(contents@) is None && e == AppError::NoKeywords,
            },
    {
        let first = self.extract_keywords_headers(contents);
        match first {
            Ok(ks) => Ok(ks),
            Err(_) => {
                let second = self.extract_keywords_headers_index_terms(contents);
                match second {
                    Ok(ks) => Ok(ks),
                    Err(_) => self.extract_keywords_small_label(contents),
                }
            },
        }
    }

    /// The blank-line `Keywords` header strategy.
    pub fn extract_keywords_headers(&self, contents: &str) -> (r: AppResult<Vec<String>>)
        ensures
            match r {
                Ok(ks) => headers_strategy_spec(contents@) == Some(string_views(ks@)),
                Err(e) => headers_strategy_spec(contents@) is None && e == AppError::NoKeywords,
            },
    {
        let v = chars_of(contents);
        let header = find_keywords_header(&v);
        match header {
            None => Err(AppError::NoKeywords),
            Some((_start, e)) => {
                let intro = find_intro_from(&v, e);
                match intro {
                    None => Err(AppError::NoKeywords),
                    Some(k) => {
                        proof {
                            lemma_first_at(v@, e as int, intro_pred());
                        }
                        let block = subrange_chars(&v, e, k);
                        let sep = vec![',', ' '];
                        proof {
                            assert(sep@ =~= comma_space_sep());
                        }
                        let terms = split_and_clean(&block, &sep);
                        Ok(strings_from_char_vecs(&terms))
                    },
                }
            },
        }
    }

    /// The `Index Terms—` strategy.
    pub fn extract_keywords_headers_index_terms(&self, contents: &str) -> (r: AppResult<
        Vec<String>,
    >)
        ensures
            match r {
                Ok(ks) => index_terms_strategy_spec(contents@) == Some(string_views(ks@)),
                Err(e) => index_terms_strategy_spec(contents@) is None && e
                    == AppError::NoKeywords,
            },
    {
        let v = chars_of(contents);
        let n = v.len();
        let marker = find_index_terms(&v);
        match marker {
            None => Err(AppError::NoKeywords),
            Some(i) => {
                proof {
                    assert(i + 12 <= n);
                }
                let e = i + 12;
                let intro = find_intro_from(&v, e);
                match intro {
                    None => Err(AppError::NoKeywords),
                    Some(k) => {
                        proof {
                            lemma_first_at(v@, e as int, intro_pred());
                        }
                        let block = subrange_chars(&v, e, k);
                        let sep = vec![',', ' '];
                        proof {
                            assert(sep@ =~= comma_space_sep());
                        }
                        let terms = split_and_clean(&block, &sep);
                        Ok(strings_from_char_vecs(&terms))
                    },
                }
            },
        }
    }

    /// The inline small-label strategy.
    pub fn extract_keywords_small_label(&self, contents: &str) -> (r: AppResult<Vec<String>>)
        ensures
            match r {
                Ok(ks) => small_label_strategy_spec(contents@) == Some(string_views(ks@)),
                Err(e) => small_label_strategy_spec(contents@) is None && e
                    == AppError::NoKeywords,
            },
    {
        let v = chars_of(contents);
        let label = find_small_label(&v);
        match label {
            None => Err(AppError::NoKeywords),
            Some((_start, e)) => {
                let n = v.len();
                let tail = subrange_chars(&v, e, n);
                proof {
                    assert(tail@ =~= v@.skip(e as int));
                }
                let block = take_to_dnl_chars(&tail);
                let sep = vec![','];
                proof {
                    assert(sep@ =~= comma_sep());
                }
                let terms = split_and_clean(&block, &sep);
                Ok(strings_from_char_vecs(&terms))
            },
        }
    }
}

/// Law: whenever a `Keywords` blank-line header exists anywhere in the text,
/// the extractor's header search finds one, at the leftmost position.
pub proof fn lemma_keywords_header_found(s: Seq<char>, j: int)
    requires
        keywords_header_at(s, j),
    ensures
        first_keywords_header(s) is Some,
        keywords_header_at(s, first_keywords_header(s)->0),
        first_keywords_header(s)->0 <= j,
{
    lemma_first_at(s, 0, keywords_header_pred());
    assert(keywords_header_pred()(s, j));
    if first_at(s, 0, keywords_header_pred()) is None {
        assert(!keywords_header_pred()(s, j));
        assert(false);
    }
    let i = first_at(s, 0, keywords_header_pred())->0;
    assert(keywords_header_pred()(s, i));
    if i > j {
        assert(!keywords_header_pred()(s, j));
        assert(false);
    }
}

/// Law: for every text whose leftmost `Keywords` blank-line header is
/// followed by an `Introduction` header, keyword extraction succeeds with
/// exactly the comma-split, cleaned terms standing between the end of that
/// header and the first `Introduction` header after it, in source order.
pub proof fn lemma_keywords_between_headers(s: Seq<char>, i: int, t: int)
    requires
        first_keywords_header(s) == Some(i),
        intro_header_at(s, t),
        t >= keywords_header_end(s, i),
    ensures
        first_intro_from(s, keywords_header_end(s, i)) is Some,
        extract_keywords_spec(s) == Some(
            split_clean_spec(
                s.subrange(
                    keywords_header_end(s, i),
                    first_intro_from(s, keywords_header_end(s, i))->0,
                ),
                comma_space_sep(),
            ),
        ),
{
    let e = keywords_header_end(s, i);
    lemma_first_at(s, 0, keywords_header_pred());
    assert(keywords_header_pred()(s, i));
    crate::content::patterns::lemma_keywords_header_end_bounds(s, i);
    lemma_first_at(s, e, intro_pred());
    assert(intro_pred()(s, t));
    if first_at(s, e, intro_pred()) is None {
        assert(t < s.len()) by {
            crate::content::patterns::lemma_intro_start_not_nl(s, t);
        }
        assert(!intro_pred()(s, t));
        assert(false);
    }
}

} // verus!
