//! The section-header patterns of the heuristics: a `Keywords` line between
//! blank lines, the `Index Terms—` marker, the inline `keywords:` label, the
//! `Introduction` header, and the strict and permissive `References` headers.
//! Each pattern has a spec predicate saying where it matches, an exec check
//! for one position, and an exec search for the leftmost match.

use vstd::prelude::*;
use crate::text::check_occurs;
use crate::text::check_word_ci;
use crate::text::eq_ci;
use crate::text::eq_ci_exec;
use crate::text::first_at;
use crate::text::is_digit_char;
use crate::text::is_space;
use crate::text::is_space_char;
use crate::text::lemma_skip_while;
use crate::text::lemma_skip_while_at_least;
use crate::text::occurs_at;
use crate::text::skip_while;
use crate::text::word_at_ci;

verus! {

pub open spec fn keywords_word() -> Seq<char> {
    seq!['k', 'e', 'y', 'w', 'o', 'r', 'd', 's']
}

pub open spec fn intro_word() -> Seq<char> {
    seq!['i', 'n', 't', 'r', 'o', 'd', 'u', 'c', 't', 'i', 'o', 'n']
}

pub open spec fn refs_word() -> Seq<char> {
    seq!['r', 'e', 'f', 'e', 'r', 'e', 'n', 'c', 'e', 's']
}

pub open spec fn index_terms_marker() -> Seq<char> {
    seq!['I', 'n', 'd', 'e', 'x', ' ', 'T', 'e', 'r', 'm', 's', '\u{2014}']
}

fn keywords_word_vec() -> (r: Vec<char>)
    ensures
        r@ == keywords_word(),
{
    let r = vec!['k', 'e', 'y', 'w', 'o', 'r', 'd', 's'];
    proof {
        assert(r@ =~= keywords_word());
    }
    r
}

fn intro_word_vec() -> (r: Vec<char>)
    ensures
        r@ == intro_word(),
{
    let r = vec!['i', 'n', 't', 'r', 'o', 'd', 'u', 'c', 't', 'i', 'o', 'n'];
    proof {
        assert(r@ =~= intro_word());
    }
    r
}

fn refs_word_vec() -> (r: Vec<char>)
    ensures
        r@ == refs_word(),
{
    let r = vec!['r', 'e', 'f', 'e', 'r', 'e', 'n', 'c', 'e', 's'];
    proof {
        assert(r@ =~= refs_word());
    }
    r
}

fn index_terms_marker_vec() -> (r: Vec<char>)
    ensures
        r@ == index_terms_marker(),
{
    let r = vec!['I', 'n', 'd', 'e', 'x', ' ', 'T', 'e', 'r', 'm', 's', '\u{2014}'];
    proof {
        assert(r@ =~= index_terms_marker());
    }
    r
}

/// A digit, a dot, or a roman-numeral `i`: the characters tolerated before
/// the word of an `Introduction` header.
pub open spec fn is_intro_prefix_char(c: char) -> bool {
    is_digit_char(c) || c == '.' || c == 'i' || c == 'I'
}

pub open spec fn space_pred() -> spec_fn(char) -> bool {
    |c: char| c == ' '
}

pub open spec fn ws_pred() -> spec_fn(char) -> bool {
    |c: char| is_space_char(c)
}

pub open spec fn prefix_pred() -> spec_fn(char) -> bool {
    |c: char| is_intro_prefix_char(c)
}

pub open spec fn nonnl_pred() -> spec_fn(char) -> bool {
    |c: char| c != '\n'
}

pub open spec fn skip_spaces(s: Seq<char>, j: int) -> int {
    skip_while(s, j, space_pred())
}

pub open spec fn skip_ws(s: Seq<char>, j: int) -> int {
    skip_while(s, j, ws_pred())
}

pub open spec fn skip_prefix(s: Seq<char>, j: int) -> int {
    skip_while(s, j, prefix_pred())
}

pub open spec fn skip_nonnl(s: Seq<char>, j: int) -> int {
    skip_while(s, j, nonnl_pred())
}

fn skip_spaces_exec(text: &Vec<char>, from: usize) -> (r: usize)
    requires
        from as int <= text@.len(),
    ensures
        r == skip_spaces(text@, from as int),
        from <= r,
        r as int <= text@.len(),
{
    let n = text.len();
    let mut j = from;
    while j < n && text[j] == ' '
        invariant
            from <= j <= n,
            n == text@.len(),
            skip_spaces(text@, from as int) == skip_spaces(text@, j as int),
        decreases n - j,
    {
        proof {
            assert(space_pred()(text@[j as int]));
            assert(skip_while(text@, j as int, space_pred()) == skip_while(
                text@,
                j + 1 as int,
                space_pred(),
            ));
        }
        j += 1;
    }
    proof {
        if j < n {
            assert(!space_pred()(text@[j as int]));
        }
        assert(skip_while(text@, j as int, space_pred()) == j);
    }
    j
}

fn skip_ws_exec(text: &Vec<char>, from: usize) -> (r: usize)
    requires
        from as int <= text@.len(),
    ensures
        r == skip_ws(text@, from as int),
        from <= r,
        r as int <= text@.len(),
{
    let n = text.len();
    let mut j = from;
    while j < n && is_space(text[j])
        invariant
            from <= j <= n,
            n == text@.len(),
            skip_ws(text@, from as int) == skip_ws(text@, j as int),
        decreases n - j,
    {
        proof {
            assert(ws_pred()(text@[j as int]));
            assert(skip_while(text@, j as int, ws_pred()) == skip_while(
                text@,
                j + 1 as int,
                ws_pred(),
            ));
        }
        j += 1;
    }
    proof {
        if j < n {
            assert(!ws_pred()(text@[j as int]));
        }
        assert(skip_while(text@, j as int, ws_pred()) == j);
    }
    j
}

fn is_intro_prefix(c: char) -> (r: bool)
    ensures
        r == is_intro_prefix_char(c),
{
    ('0' <= c && c <= '9') || c == '.' || c == 'i' || c == 'I'
}

fn skip_prefix_exec(text: &Vec<char>, from: usize) -> (r: usize)
    requires
        from as int <= text@.len(),
    ensures
        r == skip_prefix(text@, from as int),
        from <= r,
        r as int <= text@.len(),
{
    let n = text.len();
    let mut j = from;
    while j < n && is_intro_prefix(text[j])
        invariant
            from <= j <= n,
            n == text@.len(),
            skip_prefix(text@, from as int) == skip_prefix(text@, j as int),
        decreases n - j,
    {
        proof {
            assert(prefix_pred()(text@[j as int]));
            assert(skip_while(text@, j as int, prefix_pred()) == skip_while(
                text@,
                j + 1 as int,
                prefix_pred(),
            ));
        }
        j += 1;
    }
    proof {
        if j < n {
            assert(!prefix_pred()(text@[j as int]));
        }
        assert(skip_while(text@, j as int, prefix_pred()) == j);
    }
    j
}

fn skip_nonnl_exec(text: &Vec<char>, from: usize) -> (r: usize)
    requires
        from as int <= text@.len(),
    ensures
        r == skip_nonnl(text@, from as int),
        from <= r,
        r as int <= text@.len(),
{
    let n = text.len();
    let mut j = from;
    while j < n && text[j] != '\n'
        invariant
            from <= j <= n,
            n == text@.len(),
            skip_nonnl(text@, from as int) == skip_nonnl(text@, j as int),
        decreases n - j,
    {
        proof {
            assert(nonnl_pred()(text@[j as int]));
            assert(skip_while(text@, j as int, nonnl_pred()) == skip_while(
                text@,
                j + 1 as int,
                nonnl_pred(),
            ));
        }
        j += 1;
    }
    proof {
        if j < n {
            assert(!nonnl_pred()(text@[j as int]));
        }
        assert(skip_while(text@, j as int, nonnl_pred()) == j);
    }
    j
}

/// Optional spaces, then a blank line: ` *\n\n` starting at `j`.
pub open spec fn blank_tail_at(s: Seq<char>, j: int) -> bool {
    let b = skip_spaces(s, j);
    b + 2 <= s.len() && s[b] == '\n' && s[b + 1] == '\n'
}

/// The position just past the blank line that `blank_tail_at` found.
pub open spec fn blank_tail_end(s: Seq<char>, j: int) -> int {
    skip_spaces(s, j) + 2
}

fn check_blank_tail(text: &Vec<char>, j: usize) -> (r: Option<usize>)
    requires
        j as int <= text@.len(),
    ensures
        match r {
            Some(e) => blank_tail_at(text@, j as int) && e as int == blank_tail_end(
                text@,
                j as int,
            ) && j < e && e as int <= text@.len(),
            None => !blank_tail_at(text@, j as int),
        },
{
    let n = text.len();
    let b = skip_spaces_exec(text, j);
    if b < n && text[b] == '\n' && b + 1 < n && text[b + 1] == '\n' {
        Some(b + 2)
    } else {
        None
    }
}

/// A `Keywords` line of its own between blank lines: a blank line, optional
/// spaces, the word `keywords` in any letter case, then optional spaces and
/// a blank line.
pub open spec fn keywords_header_at(s: Seq<char>, i: int) -> bool {
    &&& 0 <= i
    &&& i + 2 <= s.len()
    &&& s[i] == '\n'
    &&& s[i + 1] == '\n'
    &&& word_at_ci(s, skip_spaces(s, i + 2), keywords_word())
    &&& blank_tail_at(s, skip_spaces(s, i + 2) + 8)
}

/// The position just past the whole header match.
pub open spec fn keywords_header_end(s: Seq<char>, i: int) -> int {
    blank_tail_end(s, skip_spaces(s, i + 2) + 8)
}

fn check_keywords_header(text: &Vec<char>, i: usize) -> (r: Option<usize>)
    requires
        i as int <= text@.len(),
    ensures
        match r {
            Some(e) => keywords_header_at(text@, i as int) && e as int == keywords_header_end(
                text@,
                i as int,
            ) && i < e && e as int <= text@.len(),
            None => !keywords_header_at(text@, i as int),
        },
{
    let n = text.len();
    if i >= n || text[i] != '\n' || i + 1 >= n || text[i + 1] != '\n' {
        return None;
    }
    let a = skip_spaces_exec(text, i + 2);
    let w = keywords_word_vec();
    if !check_word_ci(text, a, &w) {
        return None;
    }
    proof {
        assert(keywords_word().len() == 8);
        assert(a + 8 <= n);
    }
    check_blank_tail(text, a + 8)
}

pub proof fn lemma_keywords_header_end_bounds(s: Seq<char>, i: int)
    requires
        keywords_header_at(s, i),
    ensures
        i < keywords_header_end(s, i) <= s.len(),
{
    let a = skip_spaces(s, i + 2);
    lemma_skip_while(s, i + 2, space_pred());
    assert(keywords_word().len() == 8);
    assert(word_at_ci(s, a, keywords_word()));
    lemma_skip_while(s, a + 8, space_pred());
}

pub open spec fn keywords_header_pred() -> spec_fn(Seq<char>, int) -> bool {
    |t: Seq<char>, j: int| keywords_header_at(t, j)
}

/// The leftmost `Keywords` header of the text, if any.
pub open spec fn first_keywords_header(s: Seq<char>) -> Option<int> {
    first_at(s, 0, keywords_header_pred())
}

pub fn find_keywords_header(text: &Vec<char>) -> (r: Option<(usize, usize)>)
    ensures
        match r {
            Some(p) => first_keywords_header(text@) == Some(p.0 as int) && p.1 as int
                == keywords_header_end(text@, p.0 as int) && p.0 < p.1 && p.1 as int
                <= text@.len(),
            None => first_keywords_header(text@) is None,
        },
{
    let n = text.len();
    let mut i: usize = 0;
    while i < n
        invariant
            0 <= i <= n,
            n == text@.len(),
            first_at(text@, 0, keywords_header_pred()) == first_at(
                text@,
                i as int,
                keywords_header_pred(),
            ),
        decreases n - i,
    {
        let c = check_keywords_header(text, i);
        match c {
            Some(e) => {
                proof {
                    assert(keywords_header_pred()(text@, i as int));
                }
                return Some((i, e));
            },
            None => {
                proof {
                    assert(!keywords_header_pred()(text@, i as int));
                    assert(first_at(text@, i as int, keywords_header_pred()) == first_at(
                        text@,
                        i + 1 as int,
                        keywords_header_pred(),
                    ));
                }
                i += 1;
            },
        }
    }
    proof {
        assert(first_at(text@, n as int, keywords_header_pred()) is None);
    }
    None
}

/// The word `introduction` in any letter case, then optional spaces and a
/// blank line.
pub open spec fn intro_tail_at(s: Seq<char>, w: int) -> bool {
    word_at_ci(s, w, intro_word()) && blank_tail_at(s, w + 12)
}

/// An `Introduction` header broken into its parts: an optional prefix of
/// digits, dots and roman-numeral `i` over `[i, p)`, whitespace over
/// `[p, w)`, then the word and its blank-line tail at `w`. A header without
/// a prefix starts directly at the word: whitespace alone cannot open it.
pub open spec fn intro_header_parts(s: Seq<char>, i: int, p: int, w: int) -> bool {
    &&& 0 <= i <= p <= w <= s.len()
    &&& (i == p ==> p == w)
    &&& (forall|j: int| i <= j < p ==> is_intro_prefix_char(#[trigger] s[j]))
    &&& (forall|j: int| p <= j < w ==> is_space_char(#[trigger] s[j]))
    &&& intro_tail_at(s, w)
}

/// An `Introduction` header starts at `i`.
pub open spec fn intro_header_at(s: Seq<char>, i: int) -> bool {
    exists|p: int, w: int| intro_header_parts(s, i, p, w)
}

/// The prefix and whitespace characters are disjoint classes, so the word of
/// an `Introduction` header starting at `i` can only begin at a position up
/// to the end of the greedy prefix-then-whitespace run.
proof fn lemma_intro_gap(s: Seq<char>, i: int)
    requires
        0 <= i <= s.len(),
    ensures
        intro_header_at(s, i) <==> (intro_tail_at(s, i) || (skip_prefix(s, i) > i && exists|w: int|
            i <= w <= skip_ws(s, skip_prefix(s, i)) && #[trigger] intro_tail_at(s, w))),
{
    let p0 = skip_prefix(s, i);
    lemma_skip_while(s, i, prefix_pred());
    let w0 = skip_ws(s, p0);
    lemma_skip_while(s, p0, ws_pred());
    if intro_header_at(s, i) {
        let (p, w) = choose|p: int, w: int| intro_header_parts(s, i, p, w);
        if w == i {
            assert(intro_tail_at(s, i));
        } else if p == w {
            assert forall|t: int| i <= t < w implies prefix_pred()(s[t]) by {
                assert(is_intro_prefix_char(s[t]));
            }
            lemma_skip_while_at_least(s, i, w, prefix_pred());
            assert(w <= p0);
            assert(p0 <= w0);
            assert(p0 > i);
        } else {
            assert(i < p);
            assert(is_space_char(s[p]));
            assert forall|t: int| i <= t < p implies prefix_pred()(s[t]) by {
                assert(is_intro_prefix_char(s[t]));
            }
            lemma_skip_while_at_least(s, i, p, prefix_pred());
            assert(p <= p0);
            if p < p0 {
                assert(prefix_pred()(s[p]));
                assert(false);
            }
            assert forall|t: int| p <= t < w implies ws_pred()(s[t]) by {
                assert(is_space_char(s[t]));
            }
            lemma_skip_while_at_least(s, p, w, ws_pred());
            assert(w <= w0);
            assert(p0 > i);
        }
    }
    if intro_tail_at(s, i) {
        assert(word_at_ci(s, i, intro_word()));
        assert(intro_header_parts(s, i, i, i));
    }
    if p0 > i && exists|w: int| i <= w <= w0 && #[trigger] intro_tail_at(s, w) {
        let w = choose|w: int| i <= w <= w0 && #[trigger] intro_tail_at(s, w);
        assert(w <= s.len()) by {
            assert(word_at_ci(s, w, intro_word()));
        }
        if w == i {
            assert(intro_header_parts(s, i, i, i));
        } else if w <= p0 {
            assert forall|j: int| i <= j < w implies is_intro_prefix_char(s[j]) by {
                assert(prefix_pred()(s[j]));
            }
            assert(intro_header_parts(s, i, w, w));
        } else {
            assert forall|j: int| i <= j < p0 implies is_intro_prefix_char(s[j]) by {
                assert(prefix_pred()(s[j]));
            }
            assert forall|j: int| p0 <= j < w implies is_space_char(s[j]) by {
                assert(ws_pred()(s[j]));
            }
            assert(intro_header_parts(s, i, p0, w));
        }
    }
}

/// An `Introduction` header never starts on a line-break character, so a
/// `References` header found at or after it starts strictly later.
pub proof fn lemma_intro_start_not_nl(s: Seq<char>, i: int)
    requires
        intro_header_at(s, i),
    ensures
        0 <= i < s.len(),
        s[i] != '\n',
{
    let (p, w) = choose|p: int, w: int| intro_header_parts(s, i, p, w);
    if i < p {
        assert(is_intro_prefix_char(s[i]));
    } else {
        assert(word_at_ci(s, i, intro_word()));
        assert(eq_ci(s[i], intro_word()[0]));
    }
}

fn check_intro_tail(text: &Vec<char>, w: usize) -> (r: bool)
    requires
        w as int <= text@.len(),
    ensures
        r == intro_tail_at(text@, w as int),
{
    let n = text.len();
    let iw = intro_word_vec();
    if !check_word_ci(text, w, &iw) {
        return false;
    }
    proof {
        assert(intro_word().len() == 12);
        assert(w + 12 <= n);
    }
    let b = check_blank_tail(text, w + 12);
    b.is_some()
}

fn check_intro_header(text: &Vec<char>, i: usize) -> (r: bool)
    requires
        i as int <= text@.len(),
    ensures
        r == intro_header_at(text@, i as int),
{
    proof {
        lemma_intro_gap(text@, i as int);
    }
    if check_intro_tail(text, i) {
        return true;
    }
    let p0 = skip_prefix_exec(text, i);
    if p0 == i {
        return false;
    }
    let w0 = skip_ws_exec(text, p0);
    let mut w = i;
    while w < w0
        invariant
            i <= w <= w0,
            w0 as int <= text@.len(),
            p0 == skip_prefix(text@, i as int),
            p0 > i,
            w0 == skip_ws(text@, skip_prefix(text@, i as int)),
            forall|t: int| i <= t < w ==> !#[trigger] intro_tail_at(text@, t),
            intro_header_at(text@, i as int) <==> exists|t: int|
                i <= t <= w0 && #[trigger] intro_tail_at(text@, t),
        decreases w0 - w,
    {
        if check_intro_tail(text, w) {
            return true;
        }
        w += 1;
    }
    if check_intro_tail(text, w0) {
        return true;
    }
    false
}

pub open spec fn intro_pred() -> spec_fn(Seq<char>, int) -> bool {
    |t: Seq<char>, j: int| intro_header_at(t, j)
}

/// The leftmost `Introduction` header at or after `from`, if any.
pub open spec fn first_intro_from(s: Seq<char>, from: int) -> Option<int> {
    first_at(s, from, intro_pred())
}

pub fn find_intro_from(text: &Vec<char>, from: usize) -> (r: Option<usize>)
    requires
        from as int <= text@.len(),
    ensures
        match r {
            Some(i) => first_intro_from(text@, from as int) == Some(i as int),
            None => first_intro_from(text@, from as int) is None,
        },
{
    let n = text.len();
    let mut i: usize = from;
    while i < n
        invariant
            from <= i <= n,
            n == text@.len(),
            first_at(text@, from as int, intro_pred()) == first_at(text@, i as int, intro_pred()),
        decreases n - i,
    {
        if check_intro_header(text, i) {
            proof {
                assert(intro_pred()(text@, i as int));
            }
            return Some(i);
        }
        proof {
            assert(!intro_pred()(text@, i as int));
            assert(first_at(text@, i as int, intro_pred()) == first_at(
                text@,
                i + 1 as int,
                intro_pred(),
            ));
        }
        i += 1;
    }
    proof {
        assert(first_at(text@, n as int, intro_pred()) is None);
    }
    None
}

/// A strict `References` header: a blank line, the word `references` in any
/// letter case, then optional spaces and a blank line.
pub open spec fn refs_strict_at(s: Seq<char>, i: int) -> bool {
    &&& 0 <= i
    &&& i + 2 <= s.len()
    &&& s[i] == '\n'
    &&& s[i + 1] == '\n'
    &&& word_at_ci(s, i + 2, refs_word())
    &&& blank_tail_at(s, i + 12)
}

fn check_refs_strict(text: &Vec<char>, i: usize) -> (r: bool)
    requires
        i as int <= text@.len(),
    ensures
        r == refs_strict_at(text@, i as int),
{
    let n = text.len();
    if i >= n || text[i] != '\n' || i + 1 >= n || text[i + 1] != '\n' {
        return false;
    }
    let w = refs_word_vec();
    if !check_word_ci(text, i + 2, &w) {
        return false;
    }
    proof {
        assert(refs_word().len() == 10);
        assert(i + 12 <= n);
    }
    let b = check_blank_tail(text, i + 12);
    b.is_some()
}

pub open spec fn refs_strict_pred() -> spec_fn(Seq<char>, int) -> bool {
    |t: Seq<char>, j: int| refs_strict_at(t, j)
}

/// The leftmost strict `References` header at or after `from`, if any.
pub open spec fn first_refs_strict_from(s: Seq<char>, from: int) -> Option<int> {
    first_at(s, from, refs_strict_pred())
}

pub fn find_refs_strict_from(text: &Vec<char>, from: usize) -> (r: Option<usize>)
    requires
        from as int <= text@.len(),
    ensures
        match r {
            Some(i) => first_refs_strict_from(text@, from as int) == Some(i as int),
            None => first_refs_strict_from(text@, from as int) is None,
        },
{
    let n = text.len();
    let mut i: usize = from;
    while i < n
        invariant
            from <= i <= n,
            n == text@.len(),
            first_at(text@, from as int, refs_strict_pred()) == first_at(
                text@,
                i as int,
                refs_strict_pred(),
            ),
        decreases n - i,
    {
        if check_refs_strict(text, i) {
            proof {
                assert(refs_strict_pred()(text@, i as int));
            }
            return Some(i);
        }
        proof {
            assert(!refs_strict_pred()(text@, i as int));
            assert(first_at(text@, i as int, refs_strict_pred()) == first_at(
                text@,
                i + 1 as int,
                refs_strict_pred(),
            ));
        }
        i += 1;
    }
    proof {
        assert(first_at(text@, n as int, refs_strict_pred()) is None);
    }
    None
}

/// A permissive `References` header broken into its parts: a line break and
/// at most one more, a nonempty filler without line breaks over `[g, k)` on
/// the same line, then the word `references` and its blank-line tail at `k`.
pub open spec fn refs_permissive_parts(s: Seq<char>, i: int, g: int, k: int) -> bool {
    &&& (g == i + 1 || (i + 1 < s.len() && s[i + 1] == '\n' && g == i + 2))
    &&& refs_permissive_word_at(s, g, k)
}

/// A permissive `References` header starts at `i`: it also accepts a
/// nonempty prefix on the same line before the word, for numbered headers.
pub open spec fn refs_permissive_at(s: Seq<char>, i: int) -> bool {
    &&& 0 <= i
    &&& i < s.len()
    &&& s[i] == '\n'
    &&& exists|g: int, k: int| refs_permissive_parts(s, i, g, k)
}

/// The filler and word of a permissive header with filler start `g`.
pub open spec fn refs_permissive_word_at(s: Seq<char>, g: int, k: int) -> bool {
    &&& g < k <= s.len()
    &&& (forall|j: int| g <= j < k ==> #[trigger] s[j] != '\n')
    &&& word_at_ci(s, k, refs_word())
    &&& blank_tail_at(s, k + 10)
}

fn check_refs_permissive_with_gap(text: &Vec<char>, g: usize) -> (r: bool)
    requires
        g as int <= text@.len(),
    ensures
        r == exists|k: int| #[trigger] refs_permissive_word_at(text@, g as int, k),
{
    let n = text.len();
    let e0 = skip_nonnl_exec(text, g);
    proof {
        lemma_skip_while(text@, g as int, nonnl_pred());
        assert forall|t: int| g <= t < e0 implies #[trigger] text@[t] != '\n' by {
            assert(nonnl_pred()(text@[t]));
        }
    }
    let w = refs_word_vec();
    let mut k = g;
    while k < e0
        invariant
            g <= k <= e0,
            n == text@.len(),
            e0 <= n,
            w@ == refs_word(),
            e0 == skip_nonnl(text@, g as int),
            forall|t: int| g < t <= k ==> !(word_at_ci(text@, t, refs_word()) && blank_tail_at(
                text@,
                t + 10,
            )),
            forall|t: int| g <= t < e0 ==> #[trigger] text@[t] != '\n',
        decreases e0 - k,
    {
        if check_word_ci(text, k + 1, &w) {
            proof {
                assert(refs_word().len() == 10);
                assert(k + 1 + 10 <= n);
            }
            let b = check_blank_tail(text, k + 1 + 10);
            if b.is_some() {
                proof {
                    assert(forall|j: int| g <= j < k + 1 ==> #[trigger] text@[j] != '\n');
                    assert(refs_permissive_word_at(text@, g as int, k + 1 as int));
                }
                return true;
            }
        }
        k += 1;
    }
    proof {
        if exists|t: int| #[trigger] refs_permissive_word_at(text@, g as int, t) {
            let t = choose|t: int| #[trigger] refs_permissive_word_at(text@, g as int, t);
            assert forall|j: int| g <= j < t implies nonnl_pred()(text@[j]) by {
                assert(text@[j] != '\n');
            }
            lemma_skip_while_at_least(text@, g as int, t, nonnl_pred());
            assert(t <= e0);
            assert(false);
        }
    }
    false
}

fn check_refs_permissive(text: &Vec<char>, i: usize) -> (r: bool)
    requires
        i as int <= text@.len(),
    ensures
        r == refs_permissive_at(text@, i as int),
{
    let n = text.len();
    if i >= n || text[i] != '\n' {
        return false;
    }
    let first = check_refs_permissive_with_gap(text, i + 1);
    if first {
        proof {
            let k = choose|k: int| #[trigger] refs_permissive_word_at(text@, i + 1 as int, k);
            assert(refs_permissive_parts(text@, i as int, i + 1 as int, k));
        }
        return true;
    }
    if i + 1 < n && text[i + 1] == '\n' {
        let second = check_refs_permissive_with_gap(text, i + 2);
        if second {
            proof {
                let k = choose|k: int| #[trigger] refs_permissive_word_at(text@, i + 2 as int, k);
                assert(refs_permissive_parts(text@, i as int, i + 2 as int, k));
            }
            return true;
        }
    }
    proof {
        if refs_permissive_at(text@, i as int) {
            let (g, k) = choose|g: int, k: int| refs_permissive_parts(text@, i as int, g, k);
            assert(refs_permissive_word_at(text@, g, k));
            assert(false);
        }
    }
    false
}

pub open spec fn refs_permissive_pred() -> spec_fn(Seq<char>, int) -> bool {
    |t: Seq<char>, j: int| refs_permissive_at(t, j)
}

/// The leftmost permissive `References` header at or after `from`, if any.
pub open spec fn first_refs_permissive_from(s: Seq<char>, from: int) -> Option<int> {
    first_at(s, from, refs_permissive_pred())
}

pub fn find_refs_permissive_from(text: &Vec<char>, from: usize) -> (r: Option<usize>)
    requires
        from as int <= text@.len(),
    ensures
        match r {
            Some(i) => first_refs_permissive_from(text@, from as int) == Some(i as int),
            None => first_refs_permissive_from(text@, from as int) is None,
        },
{
    let n = text.len();
    let mut i: usize = from;
    while i < n
        invariant
            from <= i <= n,
            n == text@.len(),
            first_at(text@, from as int, refs_permissive_pred()) == first_at(
                text@,
                i as int,
                refs_permissive_pred(),
            ),
        decreases n - i,
    {
        if check_refs_permissive(text, i) {
            proof {
                assert(refs_permissive_pred()(text@, i as int));
            }
            return Some(i);
        }
        proof {
            assert(!refs_permissive_pred()(text@, i as int));
            assert(first_at(text@, i as int, refs_permissive_pred()) == first_at(
                text@,
                i + 1 as int,
                refs_permissive_pred(),
            ));
        }
        i += 1;
    }
    proof {
        assert(first_at(text@, n as int, refs_permissive_pred()) is None);
    }
    None
}

/// The literal marker `Index Terms—` occurs at `i`.
pub open spec fn index_terms_at(s: Seq<char>, i: int) -> bool {
    occurs_at(s, i, index_terms_marker())
}

pub open spec fn index_terms_pred() -> spec_fn(Seq<char>, int) -> bool {
    |t: Seq<char>, j: int| index_terms_at(t, j)
}

/// The leftmost `Index Terms—` marker, if any.
pub open spec fn first_index_terms(s: Seq<char>) -> Option<int> {
    first_at(s, 0, index_terms_pred())
}

pub fn find_index_terms(text: &Vec<char>) -> (r: Option<usize>)
    ensures
        match r {
            Some(i) => first_index_terms(text@) == Some(i as int) && i + 12 <= text@.len(),
            None => first_index_terms(text@) is None,
        },
{
    let n = text.len();
    let marker = index_terms_marker_vec();
    let mut i: usize = 0;
    while i < n
        invariant
            0 <= i <= n,
            n == text@.len(),
            marker@ == index_terms_marker(),
            first_at(text@, 0, index_terms_pred()) == first_at(text@, i as int, index_terms_pred()),
        decreases n - i,
    {
        if check_occurs(text, i, &marker) {
            proof {
                assert(index_terms_pred()(text@, i as int));
            }
            return Some(i);
        }
        proof {
            assert(!index_terms_pred()(text@, i as int));
            assert(first_at(text@, i as int, index_terms_pred()) == first_at(
                text@,
                i + 1 as int,
                index_terms_pred(),
            ));
        }
        i += 1;
    }
    proof {
        assert(first_at(text@, n as int, index_terms_pred()) is None);
    }
    None
}

pub open spec fn keyword_word() -> Seq<char> {
    seq!['k', 'e', 'y', 'w', 'o', 'r', 'd']
}

fn keyword_word_vec() -> (r: Vec<char>)
    ensures
        r@ == keyword_word(),
{
    let r = vec!['k', 'e', 'y', 'w', 'o', 'r', 'd'];
    proof {
        assert(r@ =~= keyword_word());
    }
    r
}

/// The inline label at `i`: the word `keyword` in any letter case,
/// optionally in its plural form.
pub open spec fn small_label_at(s: Seq<char>, i: int) -> bool {
    word_at_ci(s, i, keyword_word())
}

/// The position just past the label: the plural `s`, if one follows the
/// word, belongs to it, and so does a colon after that.
pub open spec fn small_label_end(s: Seq<char>, i: int) -> int {
    let a = if i + 7 < s.len() && eq_ci(s[i + 7], 's') {
        i + 8
    } else {
        i + 7
    };
    if a < s.len() && s[a] == ':' {
        a + 1
    } else {
        a
    }
}

fn check_small_label(text: &Vec<char>, i: usize) -> (r: Option<usize>)
    requires
        i as int <= text@.len(),
    ensures
        match r {
            Some(e) => small_label_at(text@, i as int) && e as int == small_label_end(
                text@,
                i as int,
            ) && i < e && e as int <= text@.len(),
            None => !small_label_at(text@, i as int),
        },
{
    let n = text.len();
    let w = keyword_word_vec();
    if !check_word_ci(text, i, &w) {
        return None;
    }
    proof {
        assert(keyword_word().len() == 7);
        assert(i + 7 <= n);
    }
    let mut e = i + 7;
    if e < n && eq_ci_exec(text[e], 's') {
        e += 1;
    }
    if e < n && text[e] == ':' {
        e += 1;
    }
    Some(e)
}

pub open spec fn small_label_pred() -> spec_fn(Seq<char>, int) -> bool {
    |t: Seq<char>, j: int| small_label_at(t, j)
}

/// The leftmost inline keyword label, if any.
pub open spec fn first_small_label(s: Seq<char>) -> Option<int> {
    first_at(s, 0, small_label_pred())
}

pub fn find_small_label(text: &Vec<char>) -> (r: Option<(usize, usize)>)
    ensures
        match r {
            Some(p) => first_small_label(text@) == Some(p.0 as int) && p.1 as int
                == small_label_end(text@, p.0 as int) && p.0 < p.1 && p.1 as int <= text@.len(),
            None => first_small_label(text@) is None,
        },
{
    let n = text.len();
    let mut i: usize = 0;
    while i < n
        invariant
            0 <= i <= n,
            n == text@.len(),
            first_at(text@, 0, small_label_pred()) == first_at(text@, i as int, small_label_pred()),
        decreases n - i,
    {
        let c = check_small_label(text, i);
        match c {
            Some(e) => {
                proof {
                    assert(small_label_pred()(text@, i as int));
                }
                return Some((i, e));
            },
            None => {
                proof {
                    assert(!small_label_pred()(text@, i as int));
                    assert(first_at(text@, i as int, small_label_pred()) == first_at(
                        text@,
                        i + 1 as int,
                        small_label_pred(),
                    ));
                }
                i += 1;
            },
        }
    }
    proof {
        assert(first_at(text@, n as int, small_label_pred()) is None);
    }
    None
}

} // verus!
