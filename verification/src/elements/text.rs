//! Text runs: measurement-driven sizing and width-dependent wrapping.

use vstd::prelude::*;
use vstd::string::StrSliceExecFns;
use unicode_segmentation::UnicodeSegmentation;
use crate::measure::TextMeasure;
use crate::style::TextStyle;
use crate::style::sizing::MAX_DIM;
use crate::style::sizing::SizingDimensions;

verus! {

/// True for the characters that trimming removes: the Unicode white-space
/// characters.
pub open spec fn is_ws(c: char) -> bool {
    ||| c == ' '
    ||| c == '\t'
    ||| c == '\n'
    ||| c == '\u{B}'
    ||| c == '\u{C}'
    ||| c == '\r'
    ||| c == '\u{85}'
    ||| c == '\u{A0}'
    ||| c == '\u{1680}'
    ||| c == '\u{2000}'
    ||| c == '\u{2001}'
    ||| c == '\u{2002}'
    ||| c == '\u{2003}'
    ||| c == '\u{2004}'
    ||| c == '\u{2005}'
    ||| c == '\u{2006}'
    ||| c == '\u{2007}'
    ||| c == '\u{2008}'
    ||| c == '\u{2009}'
    ||| c == '\u{200A}'
    ||| c == '\u{2028}'
    ||| c == '\u{2029}'
    ||| c == '\u{202F}'
    ||| c == '\u{205F}'
    ||| c == '\u{3000}'
}

/// True for the characters that trimming removes.
pub fn is_ws_char(c: char) -> (r: bool)
    ensures
        r == is_ws(c),
{
    matches!(
        c,
        ' ' | '\t' | '\n' | '\u{B}' | '\u{C}' | '\r' | '\u{85}' | '\u{A0}' | '\u{1680}'
            | '\u{2000}' | '\u{2001}' | '\u{2002}' | '\u{2003}' | '\u{2004}' | '\u{2005}'
            | '\u{2006}' | '\u{2007}' | '\u{2008}' | '\u{2009}' | '\u{200A}' | '\u{2028}'
            | '\u{2029}' | '\u{202F}' | '\u{205F}' | '\u{3000}'
    )
}

/// The length of `s` once trailing white space is removed.
pub open spec fn trim_end_len(s: Seq<char>) -> int
    decreases s,
{
    if s.len() == 0 {
        0
    } else if is_ws(s.last()) {
        trim_end_len(s.drop_last())
    } else {
        s.len() as int
    }
}

/// The trimmed length never exceeds the length.
pub proof fn lemma_trim_end_len_bounds(s: Seq<char>)
    ensures
        0 <= trim_end_len(s) <= s.len(),
    decreases s,
{
    if s.len() > 0 && is_ws(s.last()) {
        lemma_trim_end_len_bounds(s.drop_last());
    }
}

/// The number of leading white-space characters of `s`.
pub open spec fn trim_start_len(s: Seq<char>) -> int
    decreases s,
{
    if s.len() == 0 {
        0
    } else if is_ws(s.first()) {
        1 + trim_start_len(s.drop_first())
    } else {
        0
    }
}

/// The leading white space never exceeds the length.
pub proof fn lemma_trim_start_len_bounds(s: Seq<char>)
    ensures
        0 <= trim_start_len(s) <= s.len(),
    decreases s,
{
    if s.len() > 0 && is_ws(s.first()) {
        lemma_trim_start_len_bounds(s.drop_first());
    }
}

/// A dimension sum saturating at the ceiling.
pub open spec fn add_dim(a: int, b: int) -> int {
    if a + b > MAX_DIM {
        MAX_DIM as int
    } else {
        a + b
    }
}

/// A dimension sum saturating at the ceiling.
pub fn add_dim_exec(a: i64, b: i64) -> (r: i64)
    requires
        0 <= a <= MAX_DIM,
        0 <= b <= MAX_DIM,
    ensures
        r == add_dim(a as int, b as int),
        0 <= r <= MAX_DIM,
{
    if a + b > MAX_DIM {
        MAX_DIM
    } else {
        a + b
    }
}

/// The character index of the end of the slice `[from, to)` of `s` once its
/// trailing white space is removed.
pub fn trim_end_index(s: &str, from: usize, to: usize) -> (r: usize)
    requires
        from <= to <= s@.len(),
    ensures
        r == from + trim_end_len(s@.subrange(from as int, to as int)),
        from <= r <= to,
{
    let mut e = to;
    while e > from && is_ws_char(s.get_char(e - 1))
        invariant
            from <= e <= to <= s@.len(),
            trim_end_len(s@.subrange(from as int, to as int)) == trim_end_len(
                s@.subrange(from as int, e as int),
            ),
        decreases e,
    {
        proof {
            assert(s@.subrange(from as int, e as int).drop_last() =~= s@.subrange(
                from as int,
                e as int - 1,
            ));
            assert(s@.subrange(from as int, e as int).last() == s@[e as int - 1]);
        }
        e = e - 1;
    }
    proof {
        let sub = s@.subrange(from as int, e as int);
        if e > from {
            assert(sub.last() == s@[e as int - 1]);
            assert(trim_end_len(sub) == sub.len());
        }
        lemma_trim_end_len_bounds(s@.subrange(from as int, to as int));
    }
    e
}

/// The character index of the first non-white-space character of the slice
/// `[from, to)` of `s`, or `to` when there is none.
pub fn trim_start_index(s: &str, from: usize, to: usize) -> (r: usize)
    requires
        from <= to <= s@.len(),
    ensures
        r == from + trim_start_len(s@.subrange(from as int, to as int)),
        from <= r <= to,
{
    let ghost whole = s@.subrange(from as int, to as int);
    let mut a = from;
    while a < to && is_ws_char(s.get_char(a))
        invariant
            from <= a <= to <= s@.len(),
            trim_start_len(whole) == a - from + trim_start_len(
                s@.subrange(a as int, to as int),
            ),
            whole == s@.subrange(from as int, to as int),
        decreases to - a,
    {
        proof {
            assert(s@.subrange(a as int, to as int).drop_first() =~= s@.subrange(
                a as int + 1,
                to as int,
            ));
            assert(s@.subrange(a as int, to as int).first() == s@[a as int]);
        }
        a = a + 1;
    }
    proof {
        let sub = s@.subrange(a as int, to as int);
        if a < to {
            assert(sub.first() == s@[a as int]);
        }
        lemma_trim_start_len_bounds(whole);
    }
    a
}

/// The position of the first `'\n'` at or after `i`, or the length when there
/// is none.
pub open spec fn next_nl(s: Seq<char>, i: int) -> int
    decreases s.len() - i,
{
    if i < 0 || i >= s.len() {
        s.len() as int
    } else if s[i] == '\n' {
        i
    } else {
        next_nl(s, i + 1)
    }
}

/// `next_nl` stays within bounds and points at a newline when short of the
/// end.
pub proof fn lemma_next_nl_bounds(s: Seq<char>, i: int)
    requires
        0 <= i <= s.len(),
    ensures
        i <= next_nl(s, i) <= s.len(),
        next_nl(s, i) < s.len() ==> s[next_nl(s, i)] == '\n',
    decreases s.len() - i,
{
    if i < s.len() && s[i] != '\n' {
        lemma_next_nl_bounds(s, i + 1);
    }
}

/// The line spans of `s` from `start` on: maximal segments split at `'\n'`,
/// each stripped of a `'\r'` that precedes the newline, without a final empty
/// segment.
pub open spec fn line_spans_from(s: Seq<char>, start: int) -> Seq<(int, int)>
    decreases s.len() - start,
    via line_spans_from_decreases
{
    if start < 0 || start >= s.len() {
        Seq::empty()
    } else {
        let e = next_nl(s, start);
        if e >= s.len() {
            seq![(start, s.len() as int)]
        } else {
            let e2 = if e > start && s[e - 1] == '\r' {
                e - 1
            } else {
                e
            };
            seq![(start, e2)] + line_spans_from(s, e + 1)
        }
    }
}

#[via_fn]
proof fn line_spans_from_decreases(s: Seq<char>, start: int) {
    if 0 <= start < s.len() {
        lemma_next_nl_bounds(s, start);
    }
}

/// Every line span lies within the content, start before end.
pub proof fn lemma_line_spans_bounds(s: Seq<char>, start: int, k: int)
    requires
        0 <= start,
        0 <= k < line_spans_from(s, start).len(),
    ensures
        start <= line_spans_from(s, start)[k].0 <= line_spans_from(s, start)[k].1 <= s.len(),
    decreases s.len() - start,
{
    if start < s.len() {
        let e = next_nl(s, start);
        lemma_next_nl_bounds(s, start);
        if e < s.len() && k > 0 {
            lemma_line_spans_bounds(s, e + 1, k - 1);
        }
    }
}

/// The word spans of `s` from `i` on: maximal runs of non-white-space.
pub open spec fn next_non_ws(s: Seq<char>, i: int) -> int
    decreases s.len() - i,
{
    if i < 0 || i >= s.len() {
        s.len() as int
    } else if !is_ws(s[i]) {
        i
    } else {
        next_non_ws(s, i + 1)
    }
}

/// The position of the first white-space character at or after `i`, or the
/// length when there is none.
pub open spec fn next_ws(s: Seq<char>, i: int) -> int
    decreases s.len() - i,
{
    if i < 0 || i >= s.len() {
        s.len() as int
    } else if is_ws(s[i]) {
        i
    } else {
        next_ws(s, i + 1)
    }
}

/// `next_non_ws` stays within bounds.
pub proof fn lemma_next_non_ws_bounds(s: Seq<char>, i: int)
    requires
        0 <= i <= s.len(),
    ensures
        i <= next_non_ws(s, i) <= s.len(),
        next_non_ws(s, i) < s.len() ==> !is_ws(s[next_non_ws(s, i)]),
    decreases s.len() - i,
{
    if i < s.len() && is_ws(s[i]) {
        lemma_next_non_ws_bounds(s, i + 1);
    }
}

/// `next_ws` stays within bounds.
pub proof fn lemma_next_ws_bounds(s: Seq<char>, i: int)
    requires
        0 <= i <= s.len(),
    ensures
        i <= next_ws(s, i) <= s.len(),
    decreases s.len() - i,
{
    if i < s.len() && !is_ws(s[i]) {
        lemma_next_ws_bounds(s, i + 1);
    }
}

/// The white-space-delimited word spans of `s` from `i` on.
pub open spec fn word_spans_from(s: Seq<char>, i: int) -> Seq<(int, int)>
    decreases s.len() - i,
    via word_spans_from_decreases
{
    if i < 0 || i > s.len() {
        Seq::empty()
    } else {
        let a = next_non_ws(s, i);
        if a >= s.len() {
            Seq::empty()
        } else {
            let b = next_ws(s, a + 1);
            seq![(a, b)] + word_spans_from(s, b)
        }
    }
}

#[via_fn]
proof fn word_spans_from_decreases(s: Seq<char>, i: int) {
    if 0 <= i <= s.len() {
        lemma_next_non_ws_bounds(s, i);
        if next_non_ws(s, i) < s.len() {
            lemma_next_ws_bounds(s, next_non_ws(s, i) + 1);
        }
    }
}

/// `word_spans_from` spans lie within the content, start before end.
pub proof fn lemma_word_spans_bounds(s: Seq<char>, i: int, k: int)
    requires
        0 <= i,
        0 <= k < word_spans_from(s, i).len(),
    ensures
        i <= word_spans_from(s, i)[k].0 < word_spans_from(s, i)[k].1 <= s.len(),
    decreases s.len() - i,
{
    if i <= s.len() {
        let a = next_non_ws(s, i);
        lemma_next_non_ws_bounds(s, i);
        if a < s.len() {
            let b = next_ws(s, a + 1);
            lemma_next_ws_bounds(s, a + 1);
            if k > 0 {
                lemma_word_spans_bounds(s, b, k - 1);
            }
        }
    }
}

/// The positions of the newline characters of `s`, in ascending order.
pub open spec fn newline_positions(s: Seq<char>) -> Seq<int>
    decreases s,
{
    if s.len() == 0 {
        Seq::empty()
    } else {
        newline_positions(s.drop_last()) + if s.last() == '\n' {
            seq![s.len() - 1]
        } else {
            Seq::empty()
        }
    }
}

/// Newline positions index newline characters of the content.
pub proof fn lemma_newline_positions_bounds(s: Seq<char>, k: int)
    requires
        0 <= k < newline_positions(s).len(),
    ensures
        0 <= newline_positions(s)[k] < s.len(),
        s[newline_positions(s)[k]] == '\n',
    decreases s,
{
    if s.len() > 0 {
        let rest = newline_positions(s.drop_last());
        if k < rest.len() {
            lemma_newline_positions_bounds(s.drop_last(), k);
            assert(s.drop_last()[rest[k]] == s[rest[k]]);
        }
    }
}

/// A forward scan that saw no newline in `[from, e)` pins `next_nl`.
proof fn lemma_next_nl_scanned(s: Seq<char>, from: int, e: int)
    requires
        0 <= from <= e <= s.len(),
        forall|k: int| from <= k < e ==> s[k] != '\n',
        e == s.len() || s[e] == '\n',
    ensures
        next_nl(s, from) == e,
    decreases e - from,
{
    if from < e {
        lemma_next_nl_scanned(s, from + 1, e);
    }
}

/// A forward scan that saw only white space in `[from, a)` pins
/// `next_non_ws`.
proof fn lemma_next_non_ws_scanned(s: Seq<char>, from: int, a: int)
    requires
        0 <= from <= a <= s.len(),
        forall|k: int| from <= k < a ==> is_ws(s[k]),
        a == s.len() || !is_ws(s[a]),
    ensures
        next_non_ws(s, from) == a,
    decreases a - from,
{
    if from < a {
        lemma_next_non_ws_scanned(s, from + 1, a);
    }
}

/// A forward scan that saw no white space in `[from, b)` pins `next_ws`.
proof fn lemma_next_ws_scanned(s: Seq<char>, from: int, b: int)
    requires
        0 <= from <= b <= s.len(),
        forall|k: int| from <= k < b ==> !is_ws(s[k]),
        b == s.len() || is_ws(s[b]),
    ensures
        next_ws(s, from) == b,
    decreases b - from,
{
    if from < b {
        lemma_next_ws_scanned(s, from + 1, b);
    }
}

/// The positions of the newline characters of `s`.
pub fn newline_positions_exec(s: &str) -> (r: Vec<usize>)
    ensures
        r@.map_values(|u: usize| u as int) == newline_positions(s@),
{
    let n = s.unicode_len();
    let mut v: Vec<usize> = Vec::new();
    for i in 0..n
        invariant
            n == s@.len(),
            v@.map_values(|u: usize| u as int) == newline_positions(s@.take(i as int)),
    {
        let ghost pre = v@;
        if s.get_char(i) == '\n' {
            v.push(i);
        }
        proof {
            assert(s@.take(i as int + 1).drop_last() =~= s@.take(i as int));
            assert(s@.take(i as int + 1).last() == s@[i as int]);
            if s@[i as int] == '\n' {
                assert(v@.map_values(|u: usize| u as int) =~= pre.map_values(|u: usize| u as int)
                    + seq![i as int]);
            }
        }
    }
    proof {
        assert(s@.take(n as int) =~= s@);
    }
    v
}

/// The line spans of `s`: what `line_spans_from(s, 0)` describes.
pub fn line_spans(s: &str) -> (r: Vec<(usize, usize)>)
    ensures
        r@.map_values(|p: (usize, usize)| (p.0 as int, p.1 as int)) == line_spans_from(s@, 0),
        forall|k: int|
            0 <= k < r@.len() ==> 0 <= (#[trigger] r@[k]).0 <= r@[k].1 <= s@.len(),
{
    let n = s.unicode_len();
    let mut v: Vec<(usize, usize)> = Vec::new();
    let mut cursor: usize = 0;
    while cursor < n
        invariant
            n == s@.len(),
            0 <= cursor <= n,
            line_spans_from(s@, 0) == v@.map_values(|p: (usize, usize)| (p.0 as int, p.1 as int))
                + line_spans_from(s@, cursor as int),
            forall|k: int|
                0 <= k < v@.len() ==> 0 <= (#[trigger] v@[k]).0 <= v@[k].1 <= s@.len(),
        decreases n - cursor,
    {
        let ghost c0 = cursor as int;
        let ghost pre = v@;
        let mut e = cursor;
        while e < n && s.get_char(e) != '\n'
            invariant
                n == s@.len(),
                cursor <= e <= n,
                forall|k: int| cursor <= k < e ==> s@[k] != '\n',
            decreases n - e,
        {
            e = e + 1;
        }
        proof {
            lemma_next_nl_scanned(s@, cursor as int, e as int);
        }
        if e < n {
            let e2 = if e > cursor && s.get_char(e - 1) == '\r' {
                e - 1
            } else {
                e
            };
            v.push((cursor, e2));
            cursor = e + 1;
        } else {
            v.push((cursor, n));
            cursor = n;
        }
        proof {
            assert(v@ == pre.push((v@[v@.len() - 1])));
            assert(v@.map_values(|p: (usize, usize)| (p.0 as int, p.1 as int)) =~= pre.map_values(
                |p: (usize, usize)| (p.0 as int, p.1 as int),
            ).push((v@[v@.len() - 1].0 as int, v@[v@.len() - 1].1 as int)));
            assert(line_spans_from(s@, 0) =~= v@.map_values(
                |p: (usize, usize)| (p.0 as int, p.1 as int),
            ) + line_spans_from(s@, cursor as int));
        }
    }
    v
}

/// The white-space-delimited word spans of `s`: what `word_spans_from(s, 0)`
/// describes.
pub fn word_spans(s: &str) -> (r: Vec<(usize, usize)>)
    ensures
        r@.map_values(|p: (usize, usize)| (p.0 as int, p.1 as int)) == word_spans_from(s@, 0),
        forall|k: int|
            0 <= k < r@.len() ==> 0 <= (#[trigger] r@[k]).0 <= r@[k].1 <= s@.len(),
{
    let n = s.unicode_len();
    let mut v: Vec<(usize, usize)> = Vec::new();
    let mut cursor: usize = 0;
    while cursor <= n
        invariant
            n == s@.len(),
            0 <= cursor <= n,
            word_spans_from(s@, 0) == v@.map_values(|p: (usize, usize)| (p.0 as int, p.1 as int))
                + word_spans_from(s@, cursor as int),
            forall|k: int|
                0 <= k < v@.len() ==> 0 <= (#[trigger] v@[k]).0 <= v@[k].1 <= s@.len(),
        ensures
            word_spans_from(s@, 0) == v@.map_values(|p: (usize, usize)| (p.0 as int, p.1 as int)),
            forall|k: int|
                0 <= k < v@.len() ==> 0 <= (#[trigger] v@[k]).0 <= v@[k].1 <= s@.len(),
        decreases n - cursor,
    {
        let ghost pre = v@;
        let mut a = cursor;
        while a < n && is_ws_char(s.get_char(a))
            invariant
                n == s@.len(),
                cursor <= a <= n,
                forall|k: int| cursor <= k < a ==> is_ws(s@[k]),
            decreases n - a,
        {
            a = a + 1;
        }
        proof {
            lemma_next_non_ws_scanned(s@, cursor as int, a as int);
        }
        if a >= n {
            proof {
                assert(word_spans_from(s@, cursor as int) =~= Seq::<(int, int)>::empty());
                assert(v@.map_values(|p: (usize, usize)| (p.0 as int, p.1 as int))
                    + word_spans_from(s@, cursor as int) =~= v@.map_values(
                    |p: (usize, usize)| (p.0 as int, p.1 as int),
                ));
            }
            break;
        } else {
            let mut b = a + 1;
            while b < n && !is_ws_char(s.get_char(b))
                invariant
                    n == s@.len(),
                    a + 1 <= b <= n,
                    forall|k: int| a + 1 <= k < b ==> !is_ws(s@[k]),
                decreases n - b,
            {
                b = b + 1;
            }
            proof {
                lemma_next_ws_scanned(s@, a as int + 1, b as int);
            }
            v.push((a, b));
            proof {
                assert(v@ == pre.push((a, b)));
                assert(v@.map_values(|p: (usize, usize)| (p.0 as int, p.1 as int)) =~= pre
                    .map_values(|p: (usize, usize)| (p.0 as int, p.1 as int)).push(
                    (a as int, b as int),
                ));
                assert(word_spans_from(s@, 0) =~= v@.map_values(
                    |p: (usize, usize)| (p.0 as int, p.1 as int),
                ) + word_spans_from(s@, b as int));
            }
            cursor = b;
        }
    }
    v
}

/// The widest measured width among the given spans of `s`; 0 with no spans.
pub open spec fn spans_max_width<M: TextMeasure>(
    m: &M,
    s: Seq<char>,
    st: TextStyle,
    spans: Seq<(int, int)>,
) -> int
    decreases spans,
{
    if spans.len() == 0 {
        0
    } else {
        let rest = spans_max_width(m, s, st, spans.drop_last());
        let w = m.size_of(s.subrange(spans.last().0, spans.last().1), st).0;
        if w > rest {
            w
        } else {
            rest
        }
    }
}

/// The measured heights of the given spans of `s`, summed with saturation at
/// the ceiling; 0 with no spans.
pub open spec fn spans_total_height<M: TextMeasure>(
    m: &M,
    s: Seq<char>,
    st: TextStyle,
    spans: Seq<(int, int)>,
) -> int
    decreases spans,
{
    if spans.len() == 0 {
        0
    } else {
        add_dim(
            spans_total_height(m, s, st, spans.drop_last()),
            m.size_of(s.subrange(spans.last().0, spans.last().1), st).1,
        )
    }
}

/// The tallest measured height among the given spans of `s`; 0 with no spans.
pub open spec fn spans_max_height<M: TextMeasure>(
    m: &M,
    s: Seq<char>,
    st: TextStyle,
    spans: Seq<(int, int)>,
) -> int
    decreases spans,
{
    if spans.len() == 0 {
        0
    } else {
        let rest = spans_max_height(m, s, st, spans.drop_last());
        let h = m.size_of(s.subrange(spans.last().0, spans.last().1), st).1;
        if h > rest {
            h
        } else {
            rest
        }
    }
}

/// The character indices at which the unicode words of a text begin.
pub uninterp spec fn word_start_indices(s: Seq<char>) -> Seq<int>;

/// Relies on unicode_segmentation's `unicode_word_indices`: the byte offsets
/// of the text's words in text order, here converted one-for-one to character
/// indices. The offsets are strictly increasing positions within the text.
#[verifier::external_body]
fn find_word_starts(s: &str) -> (r: Vec<usize>)
    ensures
        r@.map_values(|u: usize| u as int) == word_start_indices(s@),
        forall|i: int| 0 <= i < r@.len() ==> 0 <= #[trigger] r@[i] < s@.len(),
        forall|i: int, j: int|
            0 <= i < j < r@.len() ==> #[trigger] r@[i] < #[trigger] r@[j],
{
    s.unicode_word_indices().map(|(b, _)| s[..b].chars().count()).collect()
}

/// The word starts of `idxs` that point at a word character of `s`, in
/// order. A combining mark can attach to preceding white space and make a
/// segment whose first character is a space; wrapping skips such a start.
pub open spec fn non_ws_starts(s: Seq<char>, idxs: Seq<int>) -> Seq<int>
    decreases idxs,
{
    if idxs.len() == 0 {
        Seq::empty()
    } else {
        let rest = non_ws_starts(s, idxs.drop_last());
        if 0 <= idxs.last() < s.len() && !is_ws(s[idxs.last()]) {
            rest.push(idxs.last())
        } else {
            rest
        }
    }
}

/// Keeps the word starts that point at non-white-space characters.
fn keep_word_starts(s: &str, raw: &Vec<usize>) -> (r: Vec<usize>)
    requires
        forall|i: int| 0 <= i < raw@.len() ==> 0 <= #[trigger] raw@[i] < s@.len(),
        forall|i: int, j: int|
            0 <= i < j < raw@.len() ==> #[trigger] raw@[i] < #[trigger] raw@[j],
    ensures
        r@.map_values(|u: usize| u as int) == non_ws_starts(
            s@,
            raw@.map_values(|u: usize| u as int),
        ),
        forall|i: int| 0 <= i < r@.len() ==> 0 <= #[trigger] r@[i] < s@.len(),
        forall|i: int, j: int|
            0 <= i < j < r@.len() ==> #[trigger] r@[i] < #[trigger] r@[j],
        forall|i: int| 0 <= i < r@.len() ==> !is_ws(s@[#[trigger] r@[i] as int]),
{
    let ghost rawm = raw@.map_values(|u: usize| u as int);
    let n = raw.len();
    let mut out: Vec<usize> = Vec::new();
    let mut i: usize = 0;
    while i < n
        invariant
            n == raw@.len(),
            rawm == raw@.map_values(|u: usize| u as int),
            forall|k: int| 0 <= k < raw@.len() ==> 0 <= #[trigger] raw@[k] < s@.len(),
            forall|k: int, j: int|
                0 <= k < j < raw@.len() ==> #[trigger] raw@[k] < #[trigger] raw@[j],
            0 <= i <= n,
            out@.map_values(|u: usize| u as int) == non_ws_starts(s@, rawm.take(i as int)),
            forall|k: int| 0 <= k < out@.len() ==> 0 <= #[trigger] out@[k] < s@.len(),
            forall|k: int, j: int|
                0 <= k < j < out@.len() ==> #[trigger] out@[k] < #[trigger] out@[j],
            forall|k: int| 0 <= k < out@.len() ==> !is_ws(s@[#[trigger] out@[k] as int]),
            i > 0 ==> forall|k: int| 0 <= k < out@.len() ==> #[trigger] out@[k] <= raw@[i - 1],
        decreases n - i,
    {
        let ghost pre = out@;
        let idx = raw[i];
        proof {
            assert(rawm.take(i as int + 1).drop_last() =~= rawm.take(i as int));
            assert(rawm.take(i as int + 1).last() == rawm[i as int]);
            assert(rawm[i as int] == idx as int);
        }
        if !is_ws_char(s.get_char(idx)) {
            out.push(idx);
            proof {
                assert(out@.map_values(|u: usize| u as int) =~= pre.map_values(
                    |u: usize| u as int,
                ).push(idx as int));
            }
        }
        i = i + 1;
    }
    proof {
        assert(rawm.take(n as int) =~= rawm);
    }
    out
}

/// A text run: immutable string content, a style, and — once wrapped — an
/// ordered list of line spans given as character-index ranges into the
/// content.
pub struct TextElement {
    pub(crate) content: String,
    pub(crate) style: TextStyle,
    pub(crate) word_starts: Vec<usize>,
    pub(crate) lines: Vec<(usize, usize)>,
}

impl TextElement {
    #[verifier::type_invariant]
    pub(crate) open spec fn inv(self) -> bool {
        &&& forall|i: int|
            0 <= i < self.word_starts@.len() ==> 0 <= #[trigger] self.word_starts@[i]
                < self.content@.len()
        &&& forall|i: int, j: int|
            0 <= i < j < self.word_starts@.len() ==> #[trigger] self.word_starts@[i]
                < #[trigger] self.word_starts@[j]
        &&& forall|i: int|
            0 <= i < self.word_starts@.len() ==> !is_ws(
                self.content@[#[trigger] self.word_starts@[i] as int],
            )
        &&& forall|i: int|
            0 <= i < self.lines@.len() ==> (#[trigger] self.lines@[i]).0 <= self.lines@[i].1
                <= self.content@.len()
    }

    /// The content of the run.
    pub open(crate) spec fn spec_content(self) -> Seq<char> {
        self.content@
    }

    /// The style of the run.
    pub open(crate) spec fn spec_style(self) -> TextStyle {
        self.style
    }

    /// The character indices at which words start in the content.
    pub open(crate) spec fn spec_word_starts(self) -> Seq<int> {
        self.word_starts@.map_values(|u: usize| u as int)
    }

    /// The wrapped line spans, as `(start, end)` character-index ranges.
    pub open(crate) spec fn spec_lines(self) -> Seq<(int, int)> {
        self.lines@.map_values(|p: (usize, usize)| (p.0 as int, p.1 as int))
    }

    /// A fresh, not yet wrapped text run with the given content and style.
    /// Its word starts are the unicode word starts that point at a word
    /// character.
    pub fn new(content: &str, style: TextStyle) -> (r: Self)
        ensures
            r.spec_content() == content@,
            r.spec_style() == style,
            r.spec_word_starts() == non_ws_starts(content@, word_start_indices(content@)),
            r.spec_lines() == Seq::<(int, int)>::empty(),
    {
        let raw = find_word_starts(content);
        let word_starts = keep_word_starts(content, &raw);
        let r = TextElement {
            content: String::from_str(content),
            style,
            word_starts,
            lines: Vec::new(),
        };
        proof {
            assert(r.lines@.map_values(|p: (usize, usize)| (p.0 as int, p.1 as int)) =~= Seq::<
                (int, int),
            >::empty());
        }
        r
    }

    /// The preferred size of the run: each explicit line measured unwrapped,
    /// width the widest line, height the lines' total height.
    pub fn get_preferred_size<M: TextMeasure>(&self, m: &M) -> (r: (i64, i64))
        ensures
            r.0 as int == spans_max_width(
                m,
                self.spec_content(),
                self.spec_style(),
                line_spans_from(self.spec_content(), 0),
            ),
            r.1 as int == spans_total_height(
                m,
                self.spec_content(),
                self.spec_style(),
                line_spans_from(self.spec_content(), 0),
            ),
            0 <= r.0 <= MAX_DIM,
            0 <= r.1 <= MAX_DIM,
    {
        let spans = line_spans(self.content.as_str());
        let ghost sp = spans@.map_values(|p: (usize, usize)| (p.0 as int, p.1 as int));
        let n = spans.len();
        let mut w: i64 = 0;
        let mut h: i64 = 0;
        for i in 0..n
            invariant
                sp == spans@.map_values(|p: (usize, usize)| (p.0 as int, p.1 as int)),
                n == spans@.len(),
                forall|k: int|
                    0 <= k < spans@.len() ==> 0 <= (#[trigger] spans@[k]).0 <= spans@[k].1
                        <= self.content@.len(),
                w as int == spans_max_width(m, self.content@, self.style, sp.take(i as int)),
                h as int == spans_total_height(m, self.content@, self.style, sp.take(i as int)),
                0 <= w <= MAX_DIM,
                0 <= h <= MAX_DIM,
        {
            let (a, b) = spans[i];
            let slice = self.content.as_str().substring_char(a, b);
            let size = m.measure(slice, &self.style);
            proof {
                assert(sp.take(i as int + 1).drop_last() =~= sp.take(i as int));
                assert(sp.take(i as int + 1).last() == sp[i as int]);
                assert(sp[i as int] == (a as int, b as int));
            }
            if size.0 > w {
                w = size.0;
            }
            h = add_dim_exec(h, size.1);
        }
        proof {
            assert(sp.take(n as int) =~= sp);
        }
        (w, h)
    }

    /// The minimum size the run can wrap to: each white-space-delimited word
    /// measured alone, width the widest word, height the tallest word.
    pub fn get_minimum_size<M: TextMeasure>(&self, m: &M) -> (r: (i64, i64))
        ensures
            r.0 as int == spans_max_width(
                m,
                self.spec_content(),
                self.spec_style(),
                word_spans_from(self.spec_content(), 0),
            ),
            r.1 as int == spans_max_height(
                m,
                self.spec_content(),
                self.spec_style(),
                word_spans_from(self.spec_content(), 0),
            ),
            0 <= r.0 <= MAX_DIM,
            0 <= r.1 <= MAX_DIM,
    {
        let spans = word_spans(self.content.as_str());
        let ghost sp = spans@.map_values(|p: (usize, usize)| (p.0 as int, p.1 as int));
        let n = spans.len();
        let mut w: i64 = 0;
        let mut h: i64 = 0;
        for i in 0..n
            invariant
                sp == spans@.map_values(|p: (usize, usize)| (p.0 as int, p.1 as int)),
                n == spans@.len(),
                forall|k: int|
                    0 <= k < spans@.len() ==> 0 <= (#[trigger] spans@[k]).0 <= spans@[k].1
                        <= self.content@.len(),
                w as int == spans_max_width(m, self.content@, self.style, sp.take(i as int)),
                h as int == spans_max_height(m, self.content@, self.style, sp.take(i as int)),
                0 <= w <= MAX_DIM,
                0 <= h <= MAX_DIM,
        {
            let (a, b) = spans[i];
            let slice = self.content.as_str().substring_char(a, b);
            let size = m.measure(slice, &self.style);
            proof {
                assert(sp.take(i as int + 1).drop_last() =~= sp.take(i as int));
                assert(sp.take(i as int + 1).last() == sp[i as int]);
                assert(sp[i as int] == (a as int, b as int));
            }
            if size.0 > w {
                w = size.0;
            }
            if size.1 > h {
                h = size.1;
            }
        }
        proof {
            assert(sp.take(n as int) =~= sp);
        }
        (w, h)
    }

    /// The resolved sizing of the run, `(width, height)`: the width is fixed
    /// at the preferred width with the minimum wrappable width below it; the
    /// height starts at the unwrapped height and may grow without bound as
    /// wrapping adds lines.
    pub fn get_sizing_dimensions<M: TextMeasure>(&self, m: &M) -> (r: (
        SizingDimensions,
        SizingDimensions,
    ))
        ensures
            r.0 == text_width_dims(m, self.spec_content(), self.spec_style()),
            r.1 == text_height_dims(m, self.spec_content(), self.spec_style()),
    {
        let pref = self.get_preferred_size(m);
        let min = self.get_minimum_size(m);
        // a measurer may size a single word wider than its whole line; the
        // minimum is capped at the preferred width so the bounds stay ordered
        let lo = if min.0 > pref.0 {
            pref.0
        } else {
            min.0
        };
        let width = SizingDimensions::make(
            lo,
            crate::style::sizing::PreferredSize::Fixed(pref.0),
            pref.0,
        );
        let height = SizingDimensions::make(
            pref.1,
            crate::style::sizing::PreferredSize::Fixed(pref.1),
            MAX_DIM,
        );
        proof {
            SizingDimensions::lemma_dims_ext(
                width,
                text_width_dims(m, self.spec_content(), self.spec_style()),
            );
            SizingDimensions::lemma_dims_ext(
                height,
                text_height_dims(m, self.spec_content(), self.spec_style()),
            );
            SizingDimensions::make_spec_accessors(
                lo as int,
                crate::style::sizing::PreferredSize::Fixed(pref.0),
                pref.0 as int,
            );
            SizingDimensions::make_spec_accessors(
                pref.1 as int,
                crate::style::sizing::PreferredSize::Fixed(pref.1),
                MAX_DIM as int,
            );
        }
        (width, height)
    }
}

/// `s` with white space removed from both ends.
pub open spec fn spec_trimmed(s: Seq<char>) -> Seq<char> {
    let a = trim_start_len(s);
    let rest = s.subrange(a, s.len() as int);
    rest.subrange(0, trim_end_len(rest))
}

/// The measured height of one line span: the height of its content trimmed
/// of surrounding white space, and 0 for a span whose trimmed content is
/// empty, since such a span is never emitted.
pub open spec fn line_height<M: TextMeasure>(
    m: &M,
    s: Seq<char>,
    st: TextStyle,
    span: (int, int),
) -> int {
    let line = spec_trimmed(s.subrange(span.0, span.1));
    if line.len() == 0 {
        0
    } else {
        m.size_of(line, st).1
    }
}

/// The total height of a sequence of line spans: the measured heights of the
/// trimmed emitted lines, summed with saturation at the ceiling.
pub open spec fn lines_height_sum<M: TextMeasure>(
    m: &M,
    s: Seq<char>,
    st: TextStyle,
    lines: Seq<(int, int)>,
) -> int
    decreases lines,
{
    if lines.len() == 0 {
        0
    } else {
        add_dim(
            lines_height_sum(m, s, st, lines.drop_last()),
            line_height(m, s, st, lines.last()),
        )
    }
}

/// One scan of the wrapping algorithm, from the middle of the text on.
///
/// `bs` holds the word boundaries still to visit (the word starts after the
/// first, then the content length); `nls` the newline positions still ahead.
/// The scan keeps the current span start, the trimmed end of the span as last
/// measured (`prev_last`), and the start of the most recent word
/// (`prev_word_start`). Reaching a newline flushes the span up to it as a
/// hard break and resumes right after the newline; a newline already behind
/// the span start is consumed without flushing. Otherwise the span is
/// extended to the boundary and measured trimmed; when it exceeds the target
/// and holds more than the incoming word, the span up to the previous word is
/// flushed and the scan resumes at that word. A non-empty trailing span is
/// flushed at the end. Lines accumulate in `acc`.
pub open spec fn wrap_from<M: TextMeasure>(
    m: &M,
    s: Seq<char>,
    st: TextStyle,
    target: int,
    bs: Seq<int>,
    nls: Seq<int>,
    start: int,
    prev_last: int,
    prev_word_start: int,
    acc: Seq<(int, int)>,
) -> Seq<(int, int)>
    decreases bs.len(), nls.len(),
{
    if bs.len() == 0 {
        let e = start + trim_end_len(s.subrange(start, s.len() as int));
        if e > start {
            acc.push((start, e))
        } else {
            acc
        }
    } else {
        let b = bs.first();
        if nls.len() > 0 && b >= nls.first() {
            let nl = nls.first();
            if nl < start {
                wrap_from(
                    m,
                    s,
                    st,
                    target,
                    bs,
                    nls.drop_first(),
                    start,
                    prev_last,
                    prev_word_start,
                    acc,
                )
            } else {
                wrap_from(
                    m,
                    s,
                    st,
                    target,
                    bs,
                    nls.drop_first(),
                    nl + 1,
                    nl + 1,
                    prev_word_start,
                    acc.push((start, nl)),
                )
            }
        } else {
            let bm = if b < start {
                start
            } else {
                b
            };
            let e1 = start + trim_end_len(s.subrange(start, bm));
            let sz = m.size_of(s.subrange(start, e1), st);
            if start < prev_last && sz.0 > target {
                let ns = prev_word_start;
                let bm2 = if b < ns {
                    ns
                } else {
                    b
                };
                let e2 = ns + trim_end_len(s.subrange(ns, bm2));
                wrap_from(
                    m,
                    s,
                    st,
                    target,
                    bs.drop_first(),
                    nls,
                    ns,
                    e2,
                    b,
                    acc.push((start, prev_last)),
                )
            } else {
                wrap_from(m, s, st, target, bs.drop_first(), nls, start, e1, b, acc)
            }
        }
    }
}

/// The word boundaries the wrapping scan visits: every word start but the
/// first, then the end of the content.
pub open spec fn wrap_boundaries(word_starts: Seq<int>, len: int) -> Seq<int> {
    if word_starts.len() == 0 {
        seq![len]
    } else {
        word_starts.skip(1).push(len)
    }
}

/// What wrapping a whole text against `target` produces: the line spans.
pub open spec fn wrap_result<M: TextMeasure>(
    m: &M,
    s: Seq<char>,
    st: TextStyle,
    word_starts: Seq<int>,
    target: int,
) -> Seq<(int, int)> {
    wrap_from(
        m,
        s,
        st,
        target,
        wrap_boundaries(word_starts, s.len() as int),
        newline_positions(s),
        0,
        0,
        0,
        Seq::empty(),
    )
}

impl TextElement {
    /// Wraps the content against `target_width`, replacing any earlier wrap:
    /// afterwards the line spans are exactly what `wrap_result` describes,
    /// and the returned total height is the sum of the measured heights of
    /// the trimmed emitted lines.
    pub fn wrap_text<M: TextMeasure>(&mut self, m: &M, target_width: i64) -> (total: i64)
        ensures
            ({
                let l = wrap_result(
                    m,
                    old(self).spec_content(),
                    old(self).spec_style(),
                    old(self).spec_word_starts(),
                    target_width as int,
                );
                &&& final(self).spec_lines() == l
                &&& total as int == lines_height_sum(
                    m,
                    old(self).spec_content(),
                    old(self).spec_style(),
                    l,
                )
                &&& 0 <= total <= MAX_DIM
                &&& final(self).spec_content() == old(self).spec_content()
                &&& final(self).spec_style() == old(self).spec_style()
                &&& final(self).spec_word_starts() == old(self).spec_word_starts()
            }),
    {
        proof {
            use_type_invariant(&*self);
        }
        let ghost cs = self.content@;
        let ghost st = self.style;
        let ghost tgt = target_width as int;
        let n = self.content.as_str().unicode_len();
        let nls = newline_positions_exec(self.content.as_str());
        let ghost nlseq = newline_positions(cs);
        let mut bs: Vec<usize> = Vec::new();
        let k = self.word_starts.len();
        let mut i: usize = 1;
        while i < k
            invariant
                1 <= i <= k || (k == 0 && i == 1),
                k == self.word_starts@.len(),
                k >= 1 ==> bs@ == self.word_starts@.skip(1).take(i - 1),
                k == 0 ==> bs@ == Seq::<usize>::empty(),
            decreases k - i,
        {
            bs.push(self.word_starts[i]);
            proof {
                assert(self.word_starts@.skip(1).take(i as int) =~= self.word_starts@.skip(
                    1,
                ).take(i - 1).push(self.word_starts@[i as int]));
            }
            i = i + 1;
        }
        proof {
            if k >= 1 {
                assert(self.word_starts@.skip(1).take(self.word_starts@.skip(1).len() as int)
                    =~= self.word_starts@.skip(1));
            }
        }
        bs.push(n);
        let ghost bseq = wrap_boundaries(self.spec_word_starts(), n as int);
        proof {
            if k == 0 {
                assert(bs@.map_values(|u: usize| u as int) =~= bseq);
            } else {
                assert(self.spec_word_starts().skip(1) =~= self.word_starts@.skip(1).map_values(
                    |u: usize| u as int,
                ));
                assert(bs@.map_values(|u: usize| u as int) =~= bseq);
            }
            assert(forall|p: int| 0 <= p < bseq.len() ==> 0 <= #[trigger] bseq[p] <= n);
            assert(forall|p: int|
                0 <= p < nlseq.len() ==> 0 <= #[trigger] nlseq[p] < n) by {
                assert forall|p: int| 0 <= p < nlseq.len() implies 0 <= #[trigger] nlseq[p]
                    < n by {
                    lemma_newline_positions_bounds(cs, p);
                }
            }
        }
        let ghost full = wrap_result(m, cs, st, old(self).spec_word_starts(), tgt);
        proof {
            assert(bseq.skip(0) =~= bseq);
            assert(nlseq.skip(0) =~= nlseq);
            assert(Seq::<(usize, usize)>::empty().map_values(
                |p: (usize, usize)| (p.0 as int, p.1 as int),
            ) =~= Seq::<(int, int)>::empty());
        }
        let mut lines: Vec<(usize, usize)> = Vec::new();
        let mut total: i64 = 0;
        let mut start: usize = 0;
        let mut prev_last: usize = 0;
        let mut pws: usize = 0;
        let mut ni: usize = 0;
        let n_nl = nls.len();
        let nb = bs.len();
        let mut j: usize = 0;
        while j < nb
            invariant
                nb == bs@.len(),
                n_nl == nls@.len(),
                bs@.map_values(|u: usize| u as int) == bseq,
                nls@.map_values(|u: usize| u as int) == nlseq,
                n == cs.len(),
                cs == self.content@,
                st == self.style,
                tgt == target_width as int,
                forall|p: int| 0 <= p < bseq.len() ==> 0 <= #[trigger] bseq[p] <= n,
                forall|p: int| 0 <= p < nlseq.len() ==> 0 <= #[trigger] nlseq[p] < n,
                0 <= j <= nb,
                0 <= ni <= n_nl,
                start <= prev_last <= n,
                pws <= n,
                forall|p: int|
                    0 <= p < lines@.len() ==> (#[trigger] lines@[p]).0 <= lines@[p].1 <= n,
                0 <= total <= MAX_DIM,
                total as int == lines_height_sum(
                    m,
                    cs,
                    st,
                    lines@.map_values(|p: (usize, usize)| (p.0 as int, p.1 as int)),
                ),
                full == wrap_from(
                    m,
                    cs,
                    st,
                    tgt,
                    bseq.skip(j as int),
                    nlseq.skip(ni as int),
                    start as int,
                    prev_last as int,
                    pws as int,
                    lines@.map_values(|p: (usize, usize)| (p.0 as int, p.1 as int)),
                ),
            decreases nb - j, n_nl - ni,
        {
            let b = bs[j];
            let ghost j0 = j as int;
            let ghost ni0 = ni as int;
            let ghost start0 = start as int;
            let ghost pl0 = prev_last as int;
            let ghost pws0 = pws as int;
            let ghost lines0 = lines@;
            let ghost l0 = lines0.map_values(|p: (usize, usize)| (p.0 as int, p.1 as int));
            proof {
                assert(bseq[j0] == bs@[j0] as int);
                assert(bseq.skip(j0).first() == bseq[j0]);
                assert(bseq.skip(j0).drop_first() =~= bseq.skip(j0 + 1));
            }
            if ni < n_nl && b >= nls[ni] {
                let nl = nls[ni];
                proof {
                    assert(nlseq[ni0] == nls@[ni0] as int);
                    assert(nlseq.skip(ni0).first() == nlseq[ni0]);
                    assert(nlseq.skip(ni0).drop_first() =~= nlseq.skip(ni0 + 1));
                }
                if nl < start {
                    // a newline already behind the span start: consume it
                    proof {
                        assert(wrap_from(m, cs, st, tgt, bseq.skip(j0), nlseq.skip(ni0), start0,
                            pl0, pws0, l0) == wrap_from(m, cs, st, tgt, bseq.skip(j0), nlseq.skip(
                            ni0 + 1), start0, pl0, pws0, l0));
                    }
                    ni = ni + 1;
                } else {
                    // hard break: flush up to the newline and resume right
                    // after it, so the next measured span can begin with the
                    // indentation that follows the break
                    let h = self.measured_line_height(m, start, nl);
                    lines.push((start, nl));
                    total = add_dim_exec(total, h);
                    proof {
                        assert(lines@.map_values(|p: (usize, usize)| (p.0 as int, p.1 as int))
                            =~= l0.push((start as int, nl as int)));
                        assert(l0.push((start as int, nl as int)).drop_last() =~= l0);
                        assert(wrap_from(m, cs, st, tgt, bseq.skip(j0), nlseq.skip(ni0), start0,
                            pl0, pws0, l0) == wrap_from(m, cs, st, tgt, bseq.skip(j0), nlseq.skip(
                            ni0 + 1), nl as int + 1, nl as int + 1, pws0, l0.push(
                            (start as int, nl as int))));
                    }
                    start = nl + 1;
                    prev_last = nl + 1;
                    ni = ni + 1;
                }
            } else {
                proof {
                    if ni < nls@.len() {
                        assert(nlseq[ni0] == nls@[ni0] as int);
                        assert(nlseq.skip(ni0).first() == nlseq[ni0]);
                    } else {
                        assert(nlseq.skip(ni0).len() == 0);
                    }
                }
                let bm = if b < start {
                    start
                } else {
                    b
                };
                let e1 = trim_end_index(self.content.as_str(), start, bm);
                let slice1 = self.content.as_str().substring_char(start, e1);
                let size1 = m.measure(slice1, &self.style);
                if start < prev_last && size1.0 > target_width {
                    let h = self.measured_line_height(m, start, prev_last);
                    lines.push((start, prev_last));
                    total = add_dim_exec(total, h);
                    let ns = pws;
                    let bm2 = if b < ns {
                        ns
                    } else {
                        b
                    };
                    let e2 = trim_end_index(self.content.as_str(), ns, bm2);
                    proof {
                        assert(lines@.map_values(|p: (usize, usize)| (p.0 as int, p.1 as int))
                            =~= l0.push((start as int, prev_last as int)));
                        assert(l0.push((start as int, prev_last as int)).drop_last() =~= l0);
                        assert(wrap_from(m, cs, st, tgt, bseq.skip(j0), nlseq.skip(ni0), start0,
                            pl0, pws0, l0) == wrap_from(m, cs, st, tgt, bseq.skip(j0 + 1),
                            nlseq.skip(ni0), ns as int, e2 as int, b as int, l0.push(
                            (start as int, prev_last as int))));
                    }
                    start = ns;
                    prev_last = e2;
                    pws = b;
                } else {
                    proof {
                        let bsk = bseq.skip(j0);
                        let nsk = nlseq.skip(ni0);
                        assert(bsk.len() > 0);
                        assert(bsk.first() == b as int);
                        assert(!(nsk.len() > 0 && bsk.first() >= nsk.first()));
                        assert(e1 as int == start0 + trim_end_len(
                            cs.subrange(start0, bm as int),
                        ));
                        assert(size1.0 as int == m.size_of(cs.subrange(start0, e1 as int), st).0);
                        assert(!(start0 < pl0 && m.size_of(cs.subrange(start0, e1 as int), st).0
                            > tgt));
                        assert(wrap_from(m, cs, st, tgt, bsk, nsk, start0, pl0, pws0, l0)
                            == wrap_from(m, cs, st, tgt, bsk.drop_first(), nsk, start0, e1 as int,
                            b as int, l0));
                        assert(bsk.drop_first() =~= bseq.skip(j0 + 1));
                    }
                    prev_last = e1;
                    pws = b;
                }
                j = j + 1;
            }
        }
        proof {
            assert(bseq.skip(nb as int) =~= Seq::<int>::empty());
        }
        let e = trim_end_index(self.content.as_str(), start, n);
        if e > start {
            let h = self.measured_line_height(m, start, e);
            let ghost lines0 = lines@;
            lines.push((start, e));
            total = add_dim_exec(total, h);
            proof {
                assert(lines@.map_values(|p: (usize, usize)| (p.0 as int, p.1 as int)) =~= lines0
                    .map_values(|p: (usize, usize)| (p.0 as int, p.1 as int)).push(
                    (start as int, e as int),
                ));
                assert(lines0.map_values(|p: (usize, usize)| (p.0 as int, p.1 as int)).push(
                    (start as int, e as int),
                ).drop_last() =~= lines0.map_values(|p: (usize, usize)| (p.0 as int, p.1 as int)));
            }
        }
        self.lines = lines;
        total
    }

    /// Measures the height of the span `[from, to)` trimmed of surrounding
    /// white space: what the span contributes to the total wrap height, 0
    /// when nothing of it would be emitted.
    fn measured_line_height<M: TextMeasure>(&self, m: &M, from: usize, to: usize) -> (h: i64)
        requires
            from <= to <= self.spec_content().len(),
        ensures
            h as int == line_height(
                m,
                self.spec_content(),
                self.spec_style(),
                (from as int, to as int),
            ),
            0 <= h <= MAX_DIM,
    {
        let a2 = trim_start_index(self.content.as_str(), from, to);
        let b2 = trim_end_index(self.content.as_str(), a2, to);
        let ghost span = self.content@.subrange(from as int, to as int);
        proof {
            assert(self.content@.subrange(a2 as int, to as int) =~= span.subrange(
                trim_start_len(span),
                span.len() as int,
            ));
            assert(self.content@.subrange(a2 as int, b2 as int) =~= spec_trimmed(span));
        }
        if b2 > a2 {
            let slice = self.content.as_str().substring_char(a2, b2);
            let size = m.measure(slice, &self.style);
            size.1
        } else {
            0
        }
    }
}

/// Everything past the trimmed end is white space.
pub proof fn lemma_trim_end_ws(s: Seq<char>, k: int)
    requires
        trim_end_len(s) <= k < s.len(),
    ensures
        is_ws(s[k]),
    decreases s,
{
    lemma_trim_end_len_bounds(s.drop_last());
    if k == s.len() - 1 {
        assert(s.last() == s[k]);
    } else {
        lemma_trim_end_ws(s.drop_last(), k);
        assert(s.drop_last()[k] == s[k]);
    }
}

/// A text without newline characters has no newline positions.
pub proof fn lemma_no_newlines(s: Seq<char>)
    requires
        forall|k: int| 0 <= k < s.len() ==> s[k] != '\n',
    ensures
        newline_positions(s) == Seq::<int>::empty(),
    decreases s,
{
    if s.len() > 0 {
        assert(forall|k: int| 0 <= k < s.len() - 1 ==> s.drop_last()[k] == #[trigger] s[k]);
        lemma_no_newlines(s.drop_last());
        assert(s.last() == s[s.len() - 1]);
        assert(newline_positions(s) =~= Seq::<int>::empty());
    }
}

/// The reconstruction induction: from a well-formed mid-scan state, the
/// lines the scan appends form ascending spans beginning at the current
/// start, with nothing but white space between and after them.
proof fn lemma_wrap_from_reconstructs<M: TextMeasure>(
    m: &M,
    s: Seq<char>,
    st: TextStyle,
    target: int,
    bs: Seq<int>,
    nls: Seq<int>,
    start: int,
    prev_last: int,
    pws: int,
    acc: Seq<(int, int)>,
)
    requires
        0 <= start <= s.len(),
        0 <= pws <= s.len(),
        prev_last == start || (start <= pws && prev_last == start + trim_end_len(
            s.subrange(start, pws),
        )),
        forall|i: int| 0 <= i < bs.len() ==> #[trigger] bs[i] <= s.len(),
        forall|i: int, j: int| 0 <= i < j < bs.len() ==> #[trigger] bs[i] < #[trigger] bs[j],
        bs.len() > 0 ==> pws <= bs.first(),
        forall|i: int|
            0 <= i < nls.len() ==> 0 <= #[trigger] nls[i] < s.len() && is_ws(s[nls[i]]),
    ensures
        ({
            let l = wrap_from(m, s, st, target, bs, nls, start, prev_last, pws, acc);
            &&& l.len() >= acc.len()
            &&& l.take(acc.len() as int) == acc
            &&& (l.len() > acc.len() ==> l[acc.len() as int].0 == start)
            &&& forall|k: int|
                acc.len() <= k < l.len() ==> start <= (#[trigger] l[k]).0 <= l[k].1 <= s.len()
            &&& forall|k: int| acc.len() <= k < l.len() - 1 ==> (#[trigger] l[k]).1 <= l[k + 1].0
            &&& forall|k: int, j: int|
                acc.len() <= k < l.len() - 1 && (#[trigger] l[k]).1 <= j < l[k + 1].0 ==> is_ws(
                    #[trigger] s[j],
                )
            &&& (l.len() > acc.len() ==> forall|j: int|
                l.last().1 <= j < s.len() ==> is_ws(#[trigger] s[j]))
            &&& (l.len() == acc.len() ==> forall|j: int|
                start <= j < s.len() ==> is_ws(#[trigger] s[j]))
        }),
    decreases bs.len(), nls.len(),
{
    if start <= pws {
        lemma_trim_end_len_bounds(s.subrange(start, pws));
    }
    if bs.len() == 0 {
        let e = start + trim_end_len(s.subrange(start, s.len() as int));
        lemma_trim_end_len_bounds(s.subrange(start, s.len() as int));
        assert forall|j: int| e <= j < s.len() implies is_ws(#[trigger] s[j]) by {
            lemma_trim_end_ws(s.subrange(start, s.len() as int), j - start);
            assert(s.subrange(start, s.len() as int)[j - start] == s[j]);
        }
        let l = wrap_from(m, s, st, target, bs, nls, start, prev_last, pws, acc);
        if e > start {
            assert(l == acc.push((start, e)));
            assert(l.take(acc.len() as int) =~= acc);
            assert(l.last() == (start, e));
        } else {
            assert(l == acc);
            assert(l.take(acc.len() as int) =~= acc);
        }
    } else {
        let b = bs.first();
        assert(bs[0] == b);
        assert(forall|i: int| 0 <= i < bs.drop_first().len() ==> #[trigger] bs.drop_first()[i]
            == bs[i + 1]);
        if nls.len() > 0 && b >= nls.first() {
            let nl = nls.first();
            assert(nl == nls[0]);
            assert(forall|i: int|
                0 <= i < nls.drop_first().len() ==> #[trigger] nls.drop_first()[i] == nls[i + 1]);
            let l = wrap_from(m, s, st, target, bs, nls, start, prev_last, pws, acc);
            if nl < start {
                // a stale break: consumed without flushing
                lemma_wrap_from_reconstructs(m, s, st, target, bs, nls.drop_first(), start,
                    prev_last, pws, acc);
                assert(l == wrap_from(m, s, st, target, bs, nls.drop_first(), start, prev_last,
                    pws, acc));
            } else {
                // a hard break: the flushed span ends at the break, the next
                // one begins right after it, and the break itself is the
                // only character skipped in between
                let acc2 = acc.push((start, nl));
                lemma_wrap_from_reconstructs(m, s, st, target, bs, nls.drop_first(), nl + 1,
                    nl + 1, pws, acc2);
                assert(l == wrap_from(m, s, st, target, bs, nls.drop_first(), nl + 1, nl + 1,
                    pws, acc2));
                assert(l.take(acc2.len() as int).take(acc.len() as int) =~= l.take(
                    acc.len() as int,
                ));
                assert(l.take(acc.len() as int) =~= acc);
                assert(is_ws(s[nl]));
                assert(l[acc.len() as int] == acc2[acc.len() as int]);
                if l.len() > acc2.len() {
                    assert(l[acc2.len() as int].0 == nl + 1);
                } else {
                    assert(l.last() == (start, nl));
                }
            }
        } else {
            let bm = if b < start {
                start
            } else {
                b
            };
            let e1 = start + trim_end_len(s.subrange(start, bm));
            lemma_trim_end_len_bounds(s.subrange(start, bm));
            let sz = m.size_of(s.subrange(start, e1), st);
            if start < prev_last && sz.0 > target {
                let ns = pws;
                let bm2 = if b < ns {
                    ns
                } else {
                    b
                };
                let e2 = ns + trim_end_len(s.subrange(ns, bm2));
                lemma_trim_end_len_bounds(s.subrange(ns, bm2));
                let acc2 = acc.push((start, prev_last));
                lemma_wrap_from_reconstructs(m, s, st, target, bs.drop_first(), nls, ns, e2, b,
                    acc2);
                let l = wrap_from(m, s, st, target, bs, nls, start, prev_last, pws, acc);
                assert(l == wrap_from(m, s, st, target, bs.drop_first(), nls, ns, e2, b, acc2));
                assert(l.take(acc2.len() as int).take(acc.len() as int) =~= l.take(
                    acc.len() as int,
                ));
                assert(l.take(acc.len() as int) =~= acc);
                // the characters between the flushed span and the next start
                // are the trailing white space the measurement trimmed away
                assert forall|j: int| prev_last <= j < ns implies is_ws(#[trigger] s[j]) by {
                    lemma_trim_end_ws(s.subrange(start, pws), j - start);
                    assert(s.subrange(start, pws)[j - start] == s[j]);
                }
                assert(l[acc.len() as int] == acc2[acc.len() as int]);
                if l.len() > acc2.len() {
                    assert(l[acc2.len() as int].0 == ns);
                } else {
                    assert(forall|j: int| ns <= j < s.len() ==> is_ws(#[trigger] s[j]));
                    assert(l.last() == (start, prev_last));
                }
            } else {
                lemma_wrap_from_reconstructs(m, s, st, target, bs.drop_first(), nls, start, e1,
                    b, acc);
            }
        }
    }
}

/// The reconstruction law for wrapped text: the wrap's line spans appear in
/// content order, the first starting at the beginning of the content, and
/// every character not covered by a span — between consecutive spans and
/// after the last one — is white space (the blanks and breaks the scan
/// skipped). Reading the spans in order therefore reconstructs the original
/// word sequence: no word is lost, duplicated or reordered.
pub proof fn lemma_wrap_reconstructs<M: TextMeasure>(
    m: &M,
    s: Seq<char>,
    st: TextStyle,
    word_starts: Seq<int>,
    target: int,
)
    requires
        forall|i: int| 0 <= i < word_starts.len() ==> 0 <= #[trigger] word_starts[i] < s.len(),
        forall|i: int, j: int|
            0 <= i < j < word_starts.len() ==> #[trigger] word_starts[i]
                < #[trigger] word_starts[j],
    ensures
        ({
            let l = wrap_result(m, s, st, word_starts, target);
            &&& (l.len() > 0 ==> l[0].0 == 0)
            &&& forall|k: int| 0 <= k < l.len() ==> 0 <= (#[trigger] l[k]).0 <= l[k].1 <= s.len()
            &&& forall|k: int| 0 <= k < l.len() - 1 ==> (#[trigger] l[k]).1 <= l[k + 1].0
            &&& forall|k: int, j: int|
                0 <= k < l.len() - 1 && (#[trigger] l[k]).1 <= j < l[k + 1].0 ==> is_ws(
                    #[trigger] s[j],
                )
            &&& (l.len() > 0 ==> forall|j: int|
                l.last().1 <= j < s.len() ==> is_ws(#[trigger] s[j]))
            &&& (l.len() == 0 ==> forall|j: int| 0 <= j < s.len() ==> is_ws(#[trigger] s[j]))
        }),
{
    let bs = wrap_boundaries(word_starts, s.len() as int);
    let nls = newline_positions(s);
    assert(s.subrange(0, 0) =~= Seq::<char>::empty());
    if word_starts.len() == 0 {
        assert(bs == seq![s.len() as int]);
        assert(bs[0] == s.len() as int);
    } else {
        assert(forall|i: int|
            0 <= i < word_starts.skip(1).len() ==> #[trigger] word_starts.skip(1)[i]
                == word_starts[i + 1]);
        assert(forall|i: int| 0 <= i < bs.len() ==> #[trigger] bs[i] <= s.len());
    }
    assert forall|i: int| 0 <= i < nls.len() implies 0 <= #[trigger] nls[i] < s.len() && is_ws(
        s[nls[i]],
    ) by {
        lemma_newline_positions_bounds(s, i);
    }
    lemma_wrap_from_reconstructs(m, s, st, target, bs, nls, 0, 0, 0, Seq::<(int, int)>::empty());
    let l = wrap_result(m, s, st, word_starts, target);
    assert(l.take(0) =~= Seq::<(int, int)>::empty());
}

/// A trimmed length of zero means the whole slice is white space.
pub proof fn lemma_trim_zero_all_ws(s: Seq<char>, k: int)
    requires
        trim_end_len(s) == 0,
        0 <= k < s.len(),
    ensures
        is_ws(s[k]),
{
    lemma_trim_end_ws(s, k);
}

/// True when the span `(a, b)` either measures within the target or holds no
/// boundary of `allb` strictly inside it — that is, at most a single word.
spec fn fits_or_single<M: TextMeasure>(
    m: &M,
    s: Seq<char>,
    st: TextStyle,
    target: int,
    allb: Seq<int>,
    a: int,
    b: int,
) -> bool {
    ||| m.size_of(s.subrange(a, b), st).0 <= target
    ||| forall|i: int| 0 <= i < allb.len() ==> !(a < #[trigger] allb[i] < b)
}

/// The width-bound induction: from a well-formed mid-scan state, every line
/// the scan appends either measures within the target or holds a single word.
proof fn lemma_wrap_from_fit<M: TextMeasure>(
    m: &M,
    s: Seq<char>,
    st: TextStyle,
    target: int,
    allb: Seq<int>,
    j: int,
    start: int,
    prev_last: int,
    pws: int,
    acc: Seq<(int, int)>,
)
    requires
        1 <= allb.len(),
        0 <= j <= allb.len(),
        allb.last() == s.len(),
        forall|i: int| 0 <= i < allb.len() ==> 0 <= #[trigger] allb[i] <= s.len(),
        forall|i: int, k: int| 0 <= i < k < allb.len() ==> #[trigger] allb[i] < #[trigger] allb[k],
        0 <= start <= pws <= s.len(),
        j == 0 ==> pws == 0 && start == 0,
        j >= 1 ==> pws == allb[j - 1],
        start == 0 || (exists|i: int| 0 <= i < j && start == #[trigger] allb[i]),
        prev_last == start + trim_end_len(s.subrange(start, pws)),
        fits_or_single(m, s, st, target, allb, start, prev_last),
        forall|i: int| 0 <= i < allb.len() - 1 ==> !is_ws(s[#[trigger] allb[i]]),
        allb.len() > 1 && allb[0] > 0 ==> (exists|w0: int|
            0 <= w0 < allb[0] && !is_ws(#[trigger] s[w0])),
    ensures
        ({
            let l = wrap_from(m, s, st, target, allb.skip(j), Seq::<int>::empty(), start,
                prev_last, pws, acc);
            &&& l.len() >= acc.len()
            &&& l.take(acc.len() as int) == acc
            &&& forall|k: int|
                acc.len() <= k < l.len() ==> fits_or_single(
                    m,
                    s,
                    st,
                    target,
                    allb,
                    (#[trigger] l[k]).0,
                    l[k].1,
                )
        }),
    decreases allb.len() - j,
{
    lemma_trim_end_len_bounds(s.subrange(start, pws));
    let bs = allb.skip(j);
    let l = wrap_from(m, s, st, target, bs, Seq::<int>::empty(), start, prev_last, pws, acc);
    if j == allb.len() {
        // trailing flush: the final boundary was the content end, so the
        // remaining span is exactly the one the scan last measured
        assert(bs.len() == 0);
        assert(pws == allb[j - 1]);
        assert(pws == s.len());
        assert(s.subrange(start, pws) == s.subrange(start, s.len() as int));
        let e = start + trim_end_len(s.subrange(start, s.len() as int));
        assert(e == prev_last);
        if e > start {
            assert(l == acc.push((start, e)));
            assert(l.take(acc.len() as int) =~= acc);
        } else {
            assert(l == acc);
            assert(l.take(acc.len() as int) =~= acc);
        }
    } else {
        let b = bs.first();
        assert(b == allb[j]);
        assert(bs.drop_first() =~= allb.skip(j + 1));
        let e1 = start + trim_end_len(s.subrange(start, b));
        lemma_trim_end_len_bounds(s.subrange(start, b));
        let sz = m.size_of(s.subrange(start, e1), st);
        if start < prev_last && sz.0 > target {
            let ns = pws;
            let e2 = ns + trim_end_len(s.subrange(ns, b));
            lemma_trim_end_len_bounds(s.subrange(ns, b));
            let acc2 = acc.push((start, prev_last));
            // the resumed span sits between two consecutive boundaries
            assert(forall|i: int| 0 <= i < allb.len() ==> !(ns < #[trigger] allb[i] < e2));
            lemma_wrap_from_fit(m, s, st, target, allb, j + 1, ns, e2, b, acc2);
            assert(l == wrap_from(m, s, st, target, allb.skip(j + 1), Seq::<int>::empty(), ns,
                e2, b, acc2));
            assert(l.take(acc2.len() as int).take(acc.len() as int) =~= l.take(
                acc.len() as int,
            ));
            assert(l.take(acc.len() as int) =~= acc);
            assert(l[acc.len() as int] == acc2[acc.len() as int]);
            assert(fits_or_single(m, s, st, target, allb, start, prev_last));
        } else {
            // the span extends to this boundary; when it already exceeds the
            // target it must hold a single word: the scan would otherwise
            // have measured a shorter prefix ending at an earlier boundary
            if !(sz.0 <= target) {
                assert(start >= prev_last);
                assert(prev_last == start);
                assert(trim_end_len(s.subrange(start, pws)) == 0);
                if pws > start {
                    // a word character inside the all-white-space stretch:
                    // impossible
                    if start == 0 {
                        if j == 0 {
                            assert(false);
                        } else {
                            assert(allb[0] <= pws);
                            if allb[0] == 0 {
                                assert(pws > 0);
                                assert(j >= 1);
                                assert(false) by {
                                    // pws == allb[j-1]; the boundary before it,
                                    // or the first word, is a non-space inside
                                    if j - 1 == 0 {
                                        assert(pws == allb[0]);
                                        assert(pws == 0);
                                    } else {
                                        assert(allb[j - 2] < allb[j - 1]);
                                        assert(0 <= allb[j - 2] < pws);
                                        assert(j - 2 < allb.len() - 1);
                                        assert(!is_ws(s[allb[j - 2]]));
                                        lemma_trim_zero_all_ws(
                                            s.subrange(start, pws),
                                            allb[j - 2] - start,
                                        );
                                        assert(s.subrange(start, pws)[allb[j - 2] - start]
                                            == s[allb[j - 2]]);
                                    }
                                }
                            } else {
                                let w0 = choose|w0: int|
                                    0 <= w0 < allb[0] && !is_ws(#[trigger] s[w0]);
                                assert(allb.len() > 1) by {
                                    assert(j >= 1 && j < allb.len());
                                }
                                assert(0 <= w0 < pws);
                                lemma_trim_zero_all_ws(s.subrange(start, pws), w0 - start);
                                assert(s.subrange(start, pws)[w0 - start] == s[w0]);
                                assert(false);
                            }
                        }
                    } else {
                        let i = choose|i: int| 0 <= i < j && start == #[trigger] allb[i];
                        assert(start < s.len());
                        assert(i < allb.len() - 1) by {
                            assert(allb[i] < allb[allb.len() - 1]);
                        }
                        assert(!is_ws(s[start]));
                        lemma_trim_zero_all_ws(s.subrange(start, pws), 0);
                        assert(s.subrange(start, pws)[0] == s[start]);
                        assert(false);
                    }
                }
                assert(pws == start);
                assert(forall|i: int| 0 <= i < allb.len() ==> !(start < #[trigger] allb[i] < e1));
            }
            lemma_wrap_from_fit(m, s, st, target, allb, j + 1, start, e1, b, acc);
        }
    }
}

/// The width law for wrapped text without explicit line breaks: every line
/// the wrap produces either measures within the target width or holds a
/// single word — an overlong word overflows rather than being split. The word
/// starts are assumed to point at word characters, as unicode word
/// segmentation guarantees.
pub proof fn lemma_wrap_lines_fit<M: TextMeasure>(
    m: &M,
    s: Seq<char>,
    st: TextStyle,
    word_starts: Seq<int>,
    target: int,
)
    requires
        forall|k: int| 0 <= k < s.len() ==> #[trigger] s[k] != '\n',
        forall|i: int| 0 <= i < word_starts.len() ==> 0 <= #[trigger] word_starts[i] < s.len(),
        forall|i: int, j: int|
            0 <= i < j < word_starts.len() ==> #[trigger] word_starts[i]
                < #[trigger] word_starts[j],
        forall|i: int| 0 <= i < word_starts.len() ==> !is_ws(s[#[trigger] word_starts[i]]),
    ensures
        ({
            let l = wrap_result(m, s, st, word_starts, target);
            forall|k: int|
                0 <= k < l.len() ==> m.size_of(s.subrange((#[trigger] l[k]).0, l[k].1), st).0
                    <= target || (forall|i: int|
                    1 <= i < word_starts.len() ==> !(l[k].0 < #[trigger] word_starts[i]
                        < l[k].1))
        }),
{
    lemma_no_newlines(s);
    let allb = wrap_boundaries(word_starts, s.len() as int);
    assert(s.subrange(0, 0) =~= Seq::<char>::empty());
    if word_starts.len() == 0 {
        assert(allb == seq![s.len() as int]);
        assert(allb[0] == s.len() as int);
    } else {
        assert(forall|i: int|
            0 <= i < word_starts.skip(1).len() ==> #[trigger] word_starts.skip(1)[i]
                == word_starts[i + 1]);
        assert(allb.last() == s.len());
        if word_starts.len() > 1 && allb[0] > 0 {
            assert(0 <= word_starts[0] < allb[0] && !is_ws(s[word_starts[0]]));
        }
    }
    lemma_wrap_from_fit(m, s, st, target, allb, 0, 0, 0, 0, Seq::<(int, int)>::empty());
    assert(allb.skip(0) =~= allb);
    let l = wrap_result(m, s, st, word_starts, target);
    assert forall|k: int| 0 <= k < l.len() implies m.size_of(
        s.subrange((#[trigger] l[k]).0, l[k].1),
        st,
    ).0 <= target || (forall|i: int|
        1 <= i < word_starts.len() ==> !(l[k].0 < #[trigger] word_starts[i] < l[k].1)) by {
        assert(fits_or_single(m, s, st, target, allb, l[k].0, l[k].1));
        if !(m.size_of(s.subrange(l[k].0, l[k].1), st).0 <= target) {
            assert forall|i: int| 1 <= i < word_starts.len() implies !(l[k].0
                < #[trigger] word_starts[i] < l[k].1) by {
                if word_starts.len() >= 1 {
                    assert(allb[i - 1] == word_starts[i]);
                }
            }
        }
    }
}

/// The width constraints a text run reports: fixed at the preferred width,
/// with the minimum wrappable width below it (capped at the preferred width).
pub open spec fn text_width_dims<M: TextMeasure>(m: &M, s: Seq<char>, st: TextStyle) -> SizingDimensions {
    let pref = spans_max_width(m, s, st, line_spans_from(s, 0));
    let minw = spans_max_width(m, s, st, word_spans_from(s, 0));
    let lo = if minw > pref {
        pref
    } else {
        minw
    };
    SizingDimensions::make_spec(
        lo,
        crate::style::sizing::PreferredSize::Fixed(pref as i64),
        pref,
    )
}

/// The height constraints a text run reports: the unwrapped total height as
/// minimum and preferred, with an unbounded maximum.
pub open spec fn text_height_dims<M: TextMeasure>(m: &M, s: Seq<char>, st: TextStyle) -> SizingDimensions {
    let pref = spans_total_height(m, s, st, line_spans_from(s, 0));
    SizingDimensions::make_spec(
        pref,
        crate::style::sizing::PreferredSize::Fixed(pref as i64),
        MAX_DIM as int,
    )
}

} // verus!
