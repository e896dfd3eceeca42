//! Character-level text utilities shared by the section-locating heuristics:
//! exact and case-insensitive occurrence tests, leftmost-match search,
//! trimming, and separator splitting.

use vstd::prelude::*;
use vstd::string::*;

verus! {

/// The characters of `s`, in order, as a vector.
pub fn chars_of(s: &str) -> (r: Vec<char>)
    ensures
        r@ == s@,
{
    let n = s.unicode_len();
    let mut r: Vec<char> = Vec::new();
    proof {
        assert(r@ =~= s@.take(0));
    }
    let mut i: usize = 0;
    while i < n
        invariant
            0 <= i <= n,
            n == s@.len(),
            r@ == s@.take(i as int),
        decreases n - i,
    {
        let c = s.get_char(i);
        r.push(c);
        assert(r@ =~= s@.take(i + 1 as int));
        i += 1;
    }
    proof {
        assert(s@.take(n as int) =~= s@);
    }
    r
}

/// Relies on `<String as FromIterator<&char>>::from_iter` (via `collect`):
/// the collected string holds exactly the characters of `v`, in order.
#[verifier::external_body]
pub fn string_from_chars(v: &Vec<char>) -> (r: String)
    ensures
        r@ == v@,
{
    v.iter().collect()
}

/// The character sequences held by a vector of character vectors.
pub open spec fn views_of(vs: Seq<Vec<char>>) -> Seq<Seq<char>> {
    vs.map_values(|v: Vec<char>| v@)
}

/// The character sequences held by a vector of strings.
pub open spec fn string_views(vs: Seq<String>) -> Seq<Seq<char>> {
    vs.map_values(|v: String| v@)
}

/// The whitespace characters recognised by the extraction heuristics when
/// trimming terms and crossing header gaps: the Unicode white-space set, as
/// `str::trim` and a regular expression's `\s` class recognise it.
pub open spec fn is_space_char(c: char) -> bool {
    c == ' ' || c == '\t' || c == '\n' || c == '\r' || c == '\u{b}' || c == '\u{c}' || c == '\u{85}'
        || c == '\u{a0}' || c == '\u{1680}' || ('\u{2000}' <= c && c <= '\u{200a}') || c
        == '\u{2028}' || c == '\u{2029}' || c == '\u{202f}' || c == '\u{205f}' || c == '\u{3000}'
}

pub fn is_space(c: char) -> (r: bool)
    ensures
        r == is_space_char(c),
{
    c == ' ' || c == '\t' || c == '\n' || c == '\r' || c == '\u{b}' || c == '\u{c}' || c == '\u{85}'
        || c == '\u{a0}' || c == '\u{1680}' || ('\u{2000}' <= c && c <= '\u{200a}') || c
        == '\u{2028}' || c == '\u{2029}' || c == '\u{202f}' || c == '\u{205f}' || c == '\u{3000}'
}

/// `c` equals the ASCII lowercase letter `l`, ignoring letter case.
pub open spec fn eq_ci(c: char, l: char) -> bool {
    c == l || c as int + 32 == l as int
}

pub fn eq_ci_exec(c: char, l: char) -> (r: bool)
    ensures
        r == eq_ci(c, l),
{
    c == l || (c as u32) + 32 == (l as u32)
}

/// The word `w` occurs in `s` exactly at position `i`.
pub open spec fn occurs_at(s: Seq<char>, i: int, w: Seq<char>) -> bool {
    0 <= i && i + w.len() <= s.len() && s.subrange(i, i + w.len() as int) == w
}

/// The word `w` (written in ASCII lowercase) occurs at position `i` of `s`
/// in any letter case.
pub open spec fn word_at_ci(s: Seq<char>, i: int, w: Seq<char>) -> bool {
    &&& 0 <= i
    &&& i + w.len() <= s.len()
    &&& forall|j: int| 0 <= j < w.len() ==> eq_ci(s[i + j], w[j])
}

pub fn check_occurs(text: &Vec<char>, i: usize, w: &Vec<char>) -> (r: bool)
    ensures
        r == occurs_at(text@, i as int, w@),
{
    let n = text.len();
    if n < w.len() || i > n - w.len() {
        return false;
    }
    let mut j: usize = 0;
    while j < w.len()
        invariant
            0 <= j <= w@.len(),
            i + w@.len() <= n,
            n == text@.len(),
            forall|t: int| 0 <= t < j ==> text@[i + t] == w@[t],
        decreases w@.len() - j,
    {
        if text[i + j] != w[j] {
            assert(text@.subrange(i as int, i + w@.len() as int)[j as int] != w@[j as int]);
            return false;
        }
        j += 1;
    }
    assert(text@.subrange(i as int, i + w@.len() as int) =~= w@);
    true
}

pub fn check_word_ci(text: &Vec<char>, i: usize, w: &Vec<char>) -> (r: bool)
    ensures
        r == word_at_ci(text@, i as int, w@),
{
    let n = text.len();
    if n < w.len() || i > n - w.len() {
        return false;
    }
    let mut j: usize = 0;
    while j < w.len()
        invariant
            0 <= j <= w@.len(),
            i + w@.len() <= n,
            n == text@.len(),
            forall|t: int| 0 <= t < j ==> eq_ci(text@[i + t], w@[t]),
        decreases w@.len() - j,
    {
        if !eq_ci_exec(text[i + j], w[j]) {
            assert(!eq_ci(text@[i + j as int], w@[j as int]));
            return false;
        }
        j += 1;
    }
    true
}

/// The smallest position at or after `from` where `pred` holds of `s`, if any.
pub open spec fn first_at(s: Seq<char>, from: int, pred: spec_fn(Seq<char>, int) -> bool) -> Option<
    int,
>
    decreases s.len() - from,
{
    if from < 0 || from >= s.len() {
        None
    } else if pred(s, from) {
        Some(from)
    } else {
        first_at(s, from + 1, pred)
    }
}

pub proof fn lemma_first_at(s: Seq<char>, from: int, pred: spec_fn(Seq<char>, int) -> bool)
    requires
        0 <= from,
    ensures
        match first_at(s, from, pred) {
            Some(i) => from <= i < s.len() && pred(s, i) && forall|j: int|
                from <= j < i ==> !#[trigger] pred(s, j),
            None => forall|j: int| from <= j < s.len() ==> !#[trigger] pred(s, j),
        },
    decreases s.len() - from,
{
    if from < s.len() && !pred(s, from) {
        lemma_first_at(s, from + 1, pred);
    }
}

/// The end of the run of characters satisfying `p` that starts at `j`.
pub open spec fn skip_while(s: Seq<char>, j: int, p: spec_fn(char) -> bool) -> int
    decreases s.len() - j,
{
    if 0 <= j && j < s.len() && p(s[j]) {
        skip_while(s, j + 1, p)
    } else {
        j
    }
}

pub proof fn lemma_skip_while(s: Seq<char>, j: int, p: spec_fn(char) -> bool)
    requires
        0 <= j <= s.len(),
    ensures
        j <= skip_while(s, j, p) <= s.len(),
        forall|t: int| j <= t < skip_while(s, j, p) ==> #[trigger] p(s[t]),
        skip_while(s, j, p) < s.len() ==> !p(s[skip_while(s, j, p)]),
    decreases s.len() - j,
{
    if j < s.len() && p(s[j]) {
        lemma_skip_while(s, j + 1, p);
    }
}

/// A run of characters satisfying `p` cannot reach past the end that
/// `skip_while` computes.
pub proof fn lemma_skip_while_at_least(s: Seq<char>, j: int, w: int, p: spec_fn(char) -> bool)
    requires
        0 <= j <= w <= s.len(),
        forall|t: int| j <= t < w ==> #[trigger] p(s[t]),
    ensures
        skip_while(s, j, p) >= w,
    decreases w - j,
{
    if j < w {
        assert(p(s[j]));
        lemma_skip_while_at_least(s, j + 1, w, p);
        assert(skip_while(s, j, p) == skip_while(s, j + 1, p));
    } else {
        lemma_skip_while(s, j, p);
    }
}

/// Leading whitespace removed.
pub open spec fn trim_start_spec(s: Seq<char>) -> Seq<char>
    decreases s.len(),
{
    if s.len() > 0 && is_space_char(s[0]) {
        trim_start_spec(s.skip(1))
    } else {
        s
    }
}

/// Trailing whitespace removed.
pub open spec fn trim_end_spec(s: Seq<char>) -> Seq<char>
    decreases s.len(),
{
    if s.len() > 0 && is_space_char(s.last()) {
        trim_end_spec(s.take(s.len() - 1))
    } else {
        s
    }
}

/// Surrounding whitespace removed.
pub open spec fn trim_spec(s: Seq<char>) -> Seq<char> {
    trim_end_spec(trim_start_spec(s))
}

/// Copies `v[a..b]` into a fresh vector.
pub fn subrange_chars(v: &Vec<char>, a: usize, b: usize) -> (r: Vec<char>)
    requires
        a <= b <= v@.len(),
    ensures
        r@ == v@.subrange(a as int, b as int),
{
    let mut r: Vec<char> = Vec::new();
    let mut i: usize = a;
    proof {
        assert(r@ =~= v@.subrange(a as int, a as int));
    }
    while i < b
        invariant
            a <= i <= b <= v@.len(),
            r@ == v@.subrange(a as int, i as int),
        decreases b - i,
    {
        r.push(v[i]);
        assert(r@ =~= v@.subrange(a as int, i + 1 as int));
        i += 1;
    }
    r
}

pub fn trim_chars(v: &Vec<char>) -> (r: Vec<char>)
    ensures
        r@ == trim_spec(v@),
{
    let mut a: usize = 0;
    proof {
        assert(v@.skip(0) =~= v@);
    }
    while a < v.len() && is_space(v[a])
        invariant
            0 <= a <= v@.len(),
            trim_start_spec(v@) == trim_start_spec(v@.skip(a as int)),
        decreases v@.len() - a,
    {
        assert(v@.skip(a as int).skip(1) =~= v@.skip(a + 1 as int));
        a += 1;
    }
    assert(trim_start_spec(v@.skip(a as int)) == v@.skip(a as int));
    let mut b: usize = v.len();
    proof {
        assert(v@.skip(a as int) =~= v@.subrange(a as int, v@.len() as int));
    }
    while b > a && is_space(v[b - 1])
        invariant
            a <= b <= v@.len(),
            trim_end_spec(v@.skip(a as int)) == trim_end_spec(v@.subrange(a as int, b as int)),
        decreases b,
    {
        assert(v@.subrange(a as int, b as int).take(b - a - 1) =~= v@.subrange(
            a as int,
            b - 1 as int,
        ));
        b -= 1;
    }
    assert(trim_end_spec(v@.subrange(a as int, b as int)) == v@.subrange(a as int, b as int));
    subrange_chars(v, a, b)
}

/// All line-break characters removed.
pub open spec fn strip_nl_spec(s: Seq<char>) -> Seq<char>
    decreases s.len(),
{
    if s.len() == 0 {
        Seq::empty()
    } else if s[0] == '\n' {
        strip_nl_spec(s.skip(1))
    } else {
        seq![s[0]] + strip_nl_spec(s.skip(1))
    }
}

pub fn strip_nl_chars(v: &Vec<char>) -> (r: Vec<char>)
    ensures
        r@ == strip_nl_spec(v@),
{
    let mut r: Vec<char> = Vec::new();
    let mut i: usize = 0;
    proof {
        assert(v@.skip(0) =~= v@);
        assert(r@ + strip_nl_spec(v@) =~= strip_nl_spec(v@));
    }
    while i < v.len()
        invariant
            0 <= i <= v@.len(),
            strip_nl_spec(v@) == r@ + strip_nl_spec(v@.skip(i as int)),
        decreases v@.len() - i,
    {
        proof {
            assert(v@.skip(i as int).skip(1) =~= v@.skip(i + 1 as int));
            if v@[i as int] != '\n' {
                assert(r@ + (seq![v@[i as int]] + strip_nl_spec(v@.skip(i + 1 as int))) =~= (r@
                    + seq![v@[i as int]]) + strip_nl_spec(v@.skip(i + 1 as int)));
            }
        }
        if v[i] != '\n' {
            r.push(v[i]);
        }
        i += 1;
    }
    assert(v@.skip(v@.len() as int) =~= Seq::<char>::empty());
    assert(r@ + Seq::<char>::empty() =~= r@);
    r
}

/// A keyword term cleaned as the heuristics require: surrounding whitespace
/// trimmed, then embedded line breaks removed.
pub open spec fn clean_term_spec(s: Seq<char>) -> Seq<char> {
    strip_nl_spec(trim_spec(s))
}

pub fn clean_term(v: &Vec<char>) -> (r: Vec<char>)
    ensures
        r@ == clean_term_spec(v@),
{
    let t = trim_chars(v);
    strip_nl_chars(&t)
}

/// Splitting on the literal separator `sep`, leftmost occurrence first, as
/// `str::split` does: a separator at the front yields an empty piece, and a
/// text without separators is one piece.
pub open spec fn split_spec(s: Seq<char>, sep: Seq<char>) -> Seq<Seq<char>>
    decreases s.len(),
{
    if sep.len() == 0 || s.len() < sep.len() {
        seq![s]
    } else if s.subrange(0, sep.len() as int) == sep {
        seq![Seq::<char>::empty()] + split_spec(s.skip(sep.len() as int), sep)
    } else {
        let rest = split_spec(s.skip(1), sep);
        seq![seq![s[0]] + rest[0]] + rest.skip(1)
    }
}

pub proof fn lemma_split_len(s: Seq<char>, sep: Seq<char>)
    ensures
        split_spec(s, sep).len() >= 1,
    decreases s.len(),
{
    if sep.len() == 0 || s.len() < sep.len() {
    } else if s.subrange(0, sep.len() as int) == sep {
        lemma_split_len(s.skip(sep.len() as int), sep);
    } else {
        lemma_split_len(s.skip(1), sep);
    }
}

/// One scanning step where no separator starts at the front: the head
/// character belongs to the first piece.
proof fn lemma_split_step(t: Seq<char>, sep: Seq<char>)
    requires
        t.len() > 0,
        sep.len() >= 1,
        !(t.len() >= sep.len() && t.subrange(0, sep.len() as int) == sep),
    ensures
        split_spec(t, sep) == seq![seq![t[0]] + split_spec(t.skip(1), sep)[0]] + split_spec(
            t.skip(1),
            sep,
        ).skip(1),
{
    let rest = split_spec(t.skip(1), sep);
    lemma_split_len(t.skip(1), sep);
    if t.len() < sep.len() {
        assert(t.skip(1).len() < sep.len());
        assert(rest == seq![t.skip(1)]);
        assert(seq![t[0]] + rest[0] =~= t);
        assert(rest.skip(1) =~= Seq::<Seq<char>>::empty());
        assert(seq![seq![t[0]] + rest[0]] + rest.skip(1) =~= seq![seq![t[0]] + rest[0]]);
        assert(split_spec(t, sep) == seq![t]);
        assert(seq![t] =~= seq![seq![t[0]] + rest[0]]);
    }
}

pub fn split_chars(s: &Vec<char>, sep: &Vec<char>) -> (r: Vec<Vec<char>>)
    requires
        sep@.len() >= 1,
    ensures
        views_of(r@) == split_spec(s@, sep@),
{
    let mut acc: Vec<Vec<char>> = Vec::new();
    let mut cur: Vec<char> = Vec::new();
    let mut i: usize = 0;
    proof {
        assert(s@.skip(0) =~= s@);
        lemma_split_len(s@, sep@);
        let ss = split_spec(s@, sep@);
        assert(views_of(acc@) =~= Seq::<Seq<char>>::empty());
        assert(cur@ + ss[0] =~= ss[0]);
        assert(views_of(acc@) + seq![ss[0]] + ss.skip(1) =~= seq![ss[0]] + ss.skip(1));
        assert(seq![ss[0]] + ss.skip(1) =~= ss);
    }
    while i < s.len()
        invariant
            0 <= i <= s@.len(),
            sep@.len() >= 1,
            split_spec(s@, sep@) == views_of(acc@) + seq![
                cur@ + split_spec(s@.skip(i as int), sep@)[0],
            ] + split_spec(s@.skip(i as int), sep@).skip(1),
        decreases s@.len() - i,
    {
        let ghost t = s@.skip(i as int);
        let ghost acc0 = views_of(acc@);
        let ghost cur0 = cur@;
        let is_sep = check_occurs(s, i, sep);
        if is_sep {
            let slen = sep.len();
            acc.push(cur);
            cur = Vec::new();
            i += slen;
            proof {
                assert(views_of(acc@) =~= acc0.push(cur0));
                assert(t.subrange(0, sep@.len() as int) =~= s@.subrange(
                    (i - slen) as int,
                    i as int,
                ));
                let rest = split_spec(t.skip(sep@.len() as int), sep@);
                lemma_split_len(t.skip(sep@.len() as int), sep@);
                assert(split_spec(t, sep@) == seq![Seq::<char>::empty()] + rest);
                assert(t.skip(sep@.len() as int) =~= s@.skip(i as int));
                assert((seq![Seq::<char>::empty()] + rest)[0] =~= Seq::<char>::empty());
                assert(cur0 + Seq::<char>::empty() =~= cur0);
                assert((seq![Seq::<char>::empty()] + rest).skip(1) =~= rest);
                assert(cur@ =~= Seq::<char>::empty());
                assert(cur@ + rest[0] =~= rest[0]);
                assert(rest =~= seq![rest[0]] + rest.skip(1));
                assert(acc0.push(cur0) + seq![rest[0]] + rest.skip(1) =~= acc0 + seq![cur0]
                    + rest);
                assert(acc0 + seq![cur0 + split_spec(t, sep@)[0]] + split_spec(t, sep@).skip(1)
                    =~= acc0 + seq![cur0] + rest);
            }
        } else {
            proof {
                if t.len() >= sep@.len() {
                    assert(t.subrange(0, sep@.len() as int) =~= s@.subrange(
                        i as int,
                        i + sep@.len() as int,
                    ));
                }
                lemma_split_step(t, sep@);
                lemma_split_len(t.skip(1), sep@);
                assert(t.skip(1) =~= s@.skip(i + 1 as int));
                assert(cur0 + split_spec(t, sep@)[0] =~= (cur0 + seq![t[0]]) + split_spec(
                    t.skip(1),
                    sep@,
                )[0]);
                assert(t[0] == s@[i as int]);
                assert(cur0 + seq![t[0]] =~= cur0.push(s@[i as int]));
            }
            let c = s[i];
            cur.push(c);
            i += 1;
        }
    }
    proof {
        assert(s@.skip(s@.len() as int) =~= Seq::<char>::empty());
        assert(split_spec(Seq::<char>::empty(), sep@) == seq![Seq::<char>::empty()]);
        assert(cur@ + Seq::<char>::empty() =~= cur@);
    }
    let ghost accn = views_of(acc@);
    let ghost curn = cur@;
    acc.push(cur);
    proof {
        assert(views_of(acc@) =~= accn.push(curn));
        let ss = split_spec(s@, sep@);
        let e = split_spec(Seq::<char>::empty(), sep@);
        assert(e[0] =~= Seq::<char>::empty());
        assert(e.skip(1) =~= Seq::<Seq<char>>::empty());
        assert(accn.push(curn) =~= accn + seq![curn + e[0]] + e.skip(1));
        assert(views_of(acc@) =~= ss);
    }
    acc
}

/// Every piece of the split, cleaned.
pub open spec fn split_clean_spec(s: Seq<char>, sep: Seq<char>) -> Seq<Seq<char>> {
    split_spec(s, sep).map_values(|p: Seq<char>| clean_term_spec(p))
}

pub fn split_and_clean(s: &Vec<char>, sep: &Vec<char>) -> (r: Vec<Vec<char>>)
    requires
        sep@.len() >= 1,
    ensures
        views_of(r@) == split_clean_spec(s@, sep@),
{
    let pieces = split_chars(s, sep);
    let mut r: Vec<Vec<char>> = Vec::new();
    let mut i: usize = 0;
    proof {
        assert(views_of(r@) =~= split_spec(s@, sep@).take(0).map_values(
            |p: Seq<char>| clean_term_spec(p),
        ));
    }
    while i < pieces.len()
        invariant
            0 <= i <= pieces@.len(),
            views_of(pieces@) == split_spec(s@, sep@),
            views_of(r@) == split_spec(s@, sep@).take(i as int).map_values(
                |p: Seq<char>| clean_term_spec(p),
            ),
        decreases pieces@.len() - i,
    {
        let ghost r0 = views_of(r@);
        let c = clean_term(&pieces[i]);
        r.push(c);
        proof {
            assert(pieces@[i as int]@ == views_of(pieces@)[i as int]);
            assert(views_of(r@) =~= r0.push(clean_term_spec(split_spec(s@, sep@)[i as int])));
            assert(views_of(r@) =~= split_spec(s@, sep@).take(i + 1 as int).map_values(
                |p: Seq<char>| clean_term_spec(p),
            ));
        }
        i += 1;
    }
    proof {
        assert(split_spec(s@, sep@).take(split_spec(s@, sep@).len() as int) =~= split_spec(
            s@,
            sep@,
        ));
    }
    r
}

/// Character-for-character equality of two strings.
pub fn str_eq(a: &str, b: &str) -> (r: bool)
    ensures
        r == (a@ == b@),
{
    let va = chars_of(a);
    let vb = chars_of(b);
    let n = va.len();
    if n != vb.len() {
        return false;
    }
    let mut i: usize = 0;
    while i < n
        invariant
            0 <= i <= n,
            n == va@.len() == vb@.len(),
            va@ == a@,
            vb@ == b@,
            forall|t: int| 0 <= t < i ==> va@[t] == vb@[t],
        decreases n - i,
    {
        if va[i] != vb[i] {
            return false;
        }
        i += 1;
    }
    proof {
        assert(a@ =~= b@);
    }
    true
}

/// Turns each character vector into an owned string.
pub fn strings_from_char_vecs(vs: &Vec<Vec<char>>) -> (r: Vec<String>)
    ensures
        string_views(r@) == views_of(vs@),
{
    let mut r: Vec<String> = Vec::new();
    let mut i: usize = 0;
    proof {
        assert(string_views(r@) =~= views_of(vs@).take(0));
    }
    while i < vs.len()
        invariant
            0 <= i <= vs@.len(),
            string_views(r@) == views_of(vs@).take(i as int),
        decreases vs@.len() - i,
    {
        let ghost r0 = string_views(r@);
        let s = string_from_chars(&vs[i]);
        r.push(s);
        proof {
            assert(string_views(r@) =~= r0.push(vs@[i as int]@));
            assert(string_views(r@) =~= views_of(vs@).take(i + 1 as int));
        }
        i += 1;
    }
    proof {
        assert(views_of(vs@).take(vs@.len() as int) =~= views_of(vs@));
    }
    r
}

pub open spec fn is_digit_char(c: char) -> bool {
    '0' <= c && c <= '9'
}

pub open spec fn all_digits(s: Seq<char>) -> bool {
    forall|i: int| 0 <= i < s.len() ==> is_digit_char(s[i])
}

/// The number written by the decimal digits of `s`.
pub open spec fn digits_val(s: Seq<char>) -> nat
    decreases s.len(),
{
    if s.len() == 0 {
        0
    } else {
        digits_val(s.take(s.len() - 1)) * 10 + (s.last() as int - 48) as nat
    }
}

/// `s` is a plain decimal numeral whose value fits in `usize`.
pub open spec fn parses_as_usize(s: Seq<char>) -> bool {
    s.len() > 0 && all_digits(s) && digits_val(s) <= usize::MAX as nat
}

/// The value of a longer all-digit numeral never falls below the value of
/// any of its prefixes.
proof fn lemma_digits_val_monotone(s: Seq<char>, i: int)
    requires
        all_digits(s),
        0 <= i <= s.len(),
    ensures
        digits_val(s.take(i)) <= digits_val(s),
    decreases s.len() - i,
{
    if i < s.len() {
        lemma_digits_val_monotone(s, i + 1);
        assert(s.take(i + 1).take(i) =~= s.take(i));
        assert(digits_val(s.take(i + 1)) == digits_val(s.take(i)) * 10 + (s.take(i + 1).last()
            as int - 48) as nat);
        assert(is_digit_char(s[i]));
    } else {
        assert(s.take(i) =~= s);
    }
}

/// Reads a decimal numeral, as the object metadata's size field is read;
/// a non-numeral or a value too large for `usize` is refused.
pub fn parse_usize_chars(v: &Vec<char>) -> (r: Option<usize>)
    ensures
        match r {
            Some(n) => parses_as_usize(v@) && n == digits_val(v@),
            None => !parses_as_usize(v@),
        },
{
    if v.len() == 0 {
        return None;
    }
    let mut acc: usize = 0;
    let mut i: usize = 0;
    proof {
        assert(digits_val(v@.take(0)) == 0);
    }
    while i < v.len()
        invariant
            0 <= i <= v@.len(),
            v@.len() > 0,
            all_digits(v@.take(i as int)),
            acc == digits_val(v@.take(i as int)),
        decreases v@.len() - i,
    {
        let c = v[i];
        if c < '0' || c > '9' {
            assert(!all_digits(v@));
            return None;
        }
        let d = (c as u32 - 48) as usize;
        assert(v@.take(i + 1 as int).take(i as int) =~= v@.take(i as int));
        assert(v@.take(i + 1 as int).last() == v@[i as int]);
        if acc > (usize::MAX - d) / 10 {
            proof {
                assert(digits_val(v@.take(i + 1 as int)) > usize::MAX as nat) by (nonlinear_arith)
                    requires
                        digits_val(v@.take(i + 1 as int)) == digits_val(v@.take(i as int)) * 10 + (
                        v@[i as int] as int - 48) as nat,
                        digits_val(v@.take(i as int)) > (usize::MAX as nat - ((v@[i as int] as int
                            - 48) as nat)) / 10,
                        (v@[i as int] as int - 48) as nat <= 9,
                ;
                if parses_as_usize(v@) {
                    lemma_digits_val_monotone(v@, i + 1);
                }
            }
            return None;
        }
        proof {
            assert(acc * 10 + d <= usize::MAX) by (nonlinear_arith)
                requires
                    acc <= (usize::MAX - d) / 10,
                    d <= 9,
            ;
        }
        acc = acc * 10 + d;
        i += 1;
    }
    proof {
        assert(v@.take(v@.len() as int) =~= v@);
    }
    Some(acc)
}

/// The decimal numeral of `n`, most significant digit first.
pub open spec fn dec_str(n: nat) -> Seq<char>
    decreases n,
{
    if n < 10 {
        seq![((48 + n) as u8) as char]
    } else {
        dec_str(n / 10) + seq![((48 + n % 10) as u8) as char]
    }
}

fn push_dec(n: u64, out: &mut Vec<char>)
    ensures
        final(out)@ == old(out)@ + dec_str(n as nat),
    decreases n,
{
    if n < 10 {
        let c = (48 + n as u8) as char;
        out.push(c);
        assert(out@ =~= old(out)@ + dec_str(n as nat));
    } else {
        push_dec(n / 10, out);
        let c = (48 + (n % 10) as u8) as char;
        out.push(c);
        assert(out@ =~= old(out)@ + dec_str(n as nat));
    }
}

/// The decimal digits of `n` as characters.
pub fn u64_dec_chars(n: u64) -> (r: Vec<char>)
    ensures
        r@ == dec_str(n as nat),
{
    let mut v: Vec<char> = Vec::new();
    push_dec(n, &mut v);
    proof {
        assert(Seq::<char>::empty() + dec_str(n as nat) =~= dec_str(n as nat));
    }
    v
}

/// Writes `n` in decimal.
pub fn u64_to_dec_string(n: u64) -> (r: String)
    ensures
        r@ == dec_str(n as nat),
{
    let v = u64_dec_chars(n);
    string_from_chars(&v)
}

} // verus!
