//! The caret/tilde line under a source excerpt (`    ~~^~~`), which marks a
//! point and a span of the excerpted line.

use vstd::prelude::*;
use crate::scan::{digits_end, lemma_digits_end, skip_digits};
use crate::text::{chars_of, matches_at, occurs_at};

verus! {

/// End of the run of blanks (space, tab) from `i`.
pub open spec fn blank_end(s: Seq<char>, i: int) -> int
    decreases s.len() - i,
{
    if i < 0 || i >= s.len() || !(s[i] == ' ' || s[i] == '\t') {
        if i < 0 { 0 } else { i }
    } else {
        blank_end(s, i + 1)
    }
}

/// End of the run of marker characters (space, `~`, `^`) from `i`.
pub open spec fn marks_end(s: Seq<char>, i: int) -> int
    decreases s.len() - i,
{
    if i < 0 || i >= s.len() || !(s[i] == ' ' || s[i] == '~' || s[i] == '^') {
        if i < 0 { 0 } else { i }
    } else {
        marks_end(s, i + 1)
    }
}

/// Where the markers start: after a gutter `  12 | ` if the line has one.
pub open spec fn gutter_end(s: Seq<char>) -> int {
    let a = blank_end(s, 0);
    let b = digits_end(s, a);
    let c = blank_end(s, b);
    if a > 0 && c > b && occurs_at(s, c, "| "@) {
        c + 2
    } else {
        0
    }
}

/// The first index in `[lo, hi)` that holds `c`, or `hi`.
pub open spec fn first_in(s: Seq<char>, c: char, lo: int, hi: int) -> int
    decreases hi - lo,
{
    if lo >= hi {
        hi
    } else if s[lo] == c {
        lo
    } else {
        first_in(s, c, lo + 1, hi)
    }
}

/// The last index in `[lo, hi)` that holds `c`, or `hi`.
pub open spec fn last_in(s: Seq<char>, c: char, lo: int, hi: int) -> int
    decreases hi - lo,
{
    if lo >= hi {
        hi
    } else if s[hi - 1] == c {
        hi - 1
    } else if last_in(s, c, lo, hi - 1) == hi - 1 {
        hi
    } else {
        last_in(s, c, lo, hi - 1)
    }
}

pub open spec fn min_int(a: int, b: int) -> int {
    if a <= b { a } else { b }
}

pub open spec fn max_int(a: int, b: int) -> int {
    if a >= b { a } else { b }
}

/// What a marker line says: the rest of the line after the markers, the
/// offset of the caret, and the span of the tildes widened to the caret.
/// Offsets count from the first marker.
pub open spec fn marker_info(s: Seq<char>) -> Option<(Seq<char>, Option<int>, Option<(int, int)>)> {
    let g = gutter_end(s);
    let m = marks_end(s, g);
    if m > g {
        let p = first_in(s, '^', g, m);
        let f = first_in(s, '~', g, m);
        let l = last_in(s, '~', g, m);
        let point = if p < m { Some(p - g) } else { None };
        let span = if f < m {
            if p < m {
                Some((min_int(f - g, p - g), max_int(l - g, p - g)))
            } else {
                Some((f - g, l - g))
            }
        } else {
            None
        };
        Some((s.subrange(m, s.len() as int), point, span))
    } else {
        None
    }
}

pub(crate) fn skip_blanks(s: &Vec<char>, from: usize) -> (r: usize)
    requires
        from <= s@.len(),
    ensures
        r as int == blank_end(s@, from as int),
        from <= r <= s@.len(),
{
    let mut j = from;
    while j < s.len() && (s[j] == ' ' || s[j] == '\t')
        invariant
            from <= j <= s@.len(),
            blank_end(s@, from as int) == blank_end(s@, j as int),
        decreases s@.len() - j,
    {
        j = j + 1;
    }
    j
}

fn skip_marks(s: &Vec<char>, from: usize) -> (r: usize)
    requires
        from <= s@.len(),
    ensures
        r as int == marks_end(s@, from as int),
        from <= r <= s@.len(),
{
    let mut j = from;
    while j < s.len() && (s[j] == ' ' || s[j] == '~' || s[j] == '^')
        invariant
            from <= j <= s@.len(),
            marks_end(s@, from as int) == marks_end(s@, j as int),
        decreases s@.len() - j,
    {
        j = j + 1;
    }
    j
}

fn first_index(s: &Vec<char>, c: char, lo: usize, hi: usize) -> (r: usize)
    requires
        lo <= hi <= s@.len(),
    ensures
        r as int == first_in(s@, c, lo as int, hi as int),
        lo <= r <= hi,
{
    let mut j = lo;
    while j < hi && s[j] != c
        invariant
            lo <= j <= hi <= s@.len(),
            first_in(s@, c, lo as int, hi as int) == first_in(s@, c, j as int, hi as int),
        decreases hi - j,
    {
        j = j + 1;
    }
    j
}

proof fn lemma_last_in(s: Seq<char>, c: char, lo: int, hi: int)
    requires
        lo <= hi,
    ensures
        last_in(s, c, lo, hi) == hi || (lo <= last_in(s, c, lo, hi) < hi),
        last_in(s, c, lo, hi) == hi ==> forall|k: int| lo <= k < hi ==> s[k] != c,
        last_in(s, c, lo, hi) < hi ==> s[last_in(s, c, lo, hi)] == c && forall|k: int|
            last_in(s, c, lo, hi) < k < hi ==> s[k] != c,
    decreases hi - lo,
{
    if lo < hi && s[hi - 1] != c {
        lemma_last_in(s, c, lo, hi - 1);
    }
}

pub(crate) fn last_index(s: &Vec<char>, c: char, lo: usize, hi: usize) -> (r: usize)
    requires
        lo <= hi <= s@.len(),
    ensures
        r as int == last_in(s@, c, lo as int, hi as int),
        r <= hi,
{
    let mut j = hi;
    while j > lo && s[j - 1] != c
        invariant
            lo <= j <= hi <= s@.len(),
            forall|k: int| j <= k < hi ==> s@[k] != c,
        decreases j - lo,
    {
        j = j - 1;
    }
    proof {
        lemma_last_in(s@, c, lo as int, hi as int);
    }
    if j == lo {
        hi
    } else {
        j - 1
    }
}

/// Reads a marker line: the rest of the line, the caret's offset and the
/// tildes' span (widened to the caret), offsets counted from the first marker.
pub fn text_location(line: &str) -> (r: Option<(String, (Option<u32>, Option<(u32, u32)>))>)
    requires
        line@.len() <= u32::MAX,
    ensures
        match marker_info(line@) {
            Some((rest, point, span)) => r is Some && (r->0).0@ == rest && (r->0).1 == (
                match point {
                    Some(p) => Some(p as u32),
                    None => None,
                },
                match span {
                    Some((a, b)) => Some((a as u32, b as u32)),
                    None => None,
                },
            ),
            None => r is None,
        },
{
    let s = chars_of(line);
    let n = s.len();
    let a = skip_blanks(&s, 0);
    let b = skip_digits(&s, a);
    proof {
        lemma_digits_end(s@, a as int);
    }
    let c = skip_blanks(&s, b);
    let bar = chars_of("| ");
    proof {
        reveal_strlit("| ");
        assert(bar@.len() == 2);
    }
    let g = if a > 0 && c > b && matches_at(&s, c, &bar) { c + 2 } else { 0 };
    let m = skip_marks(&s, g);
    if m == g {
        return None;
    }
    let p = first_index(&s, '^', g, m);
    let f = first_index(&s, '~', g, m);
    let l = last_index(&s, '~', g, m);
    proof {
        lemma_last_in(s@, '~', g as int, m as int);
    }
    let point: Option<u32> = if p < m { Some((p - g) as u32) } else { None };
    let span: Option<(u32, u32)> = if f < m {
        if p < m {
            let lo = if f <= p { f - g } else { p - g };
            let hi = if l >= p { l - g } else { p - g };
            Some((lo as u32, hi as u32))
        } else {
            Some(((f - g) as u32, (l - g) as u32))
        }
    } else {
        None
    };
    let mut rest: Vec<char> = Vec::new();
    let mut k = m;
    while k < n
        invariant
            n == s@.len(),
            m <= k <= n,
            rest@ == s@.subrange(m as int, k as int),
        decreases n - k,
    {
        rest.push(s[k]);
        k = k + 1;
        proof {
            assert(rest@ =~= s@.subrange(m as int, k as int));
        }
    }
    Some((crate::text::string_of(&rest), (point, span)))
}

} // verus!
