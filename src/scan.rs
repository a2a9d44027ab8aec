//! Scanning primitives over character sequences: searching and decimal numbers.

use vstd::prelude::*;
use crate::text::{all_digits, dec, dec_value, digit_value, is_digit, lemma_dec};

verus! {

/// The first index at or after `i` that holds `c`, or the length of `s`.
pub open spec fn find_from(s: Seq<char>, c: char, i: int) -> int
    decreases s.len() - i,
{
    if i < 0 || i >= s.len() {
        s.len() as int
    } else if s[i] == c {
        i
    } else {
        find_from(s, c, i + 1)
    }
}

/// The end of the run of decimal digits that starts at `i`.
pub open spec fn digits_end(s: Seq<char>, i: int) -> int
    decreases s.len() - i,
{
    if i < 0 || i >= s.len() || !is_digit(s[i]) {
        if i < 0 { 0 } else { i }
    } else {
        digits_end(s, i + 1)
    }
}

/// The `u32` written in decimal at `i`, with the index after it: at least one
/// digit, all of them taken, and a value that fits.
pub open spec fn number_at(s: Seq<char>, i: int) -> Option<(u32, int)> {
    let e = digits_end(s, i);
    if 0 <= i && e > i && dec_value(s.subrange(i, e)) <= u32::MAX {
        Some((dec_value(s.subrange(i, e)) as u32, e))
    } else {
        None
    }
}

pub proof fn lemma_find_from(s: Seq<char>, c: char, i: int)
    requires
        0 <= i <= s.len(),
    ensures
        i <= find_from(s, c, i) <= s.len(),
        find_from(s, c, i) < s.len() ==> s[find_from(s, c, i)] == c,
        forall|j: int| i <= j < find_from(s, c, i) ==> s[j] != c,
    decreases s.len() - i,
{
    if i < s.len() && s[i] != c {
        lemma_find_from(s, c, i + 1);
    }
}

pub proof fn lemma_digits_end(s: Seq<char>, i: int)
    requires
        0 <= i <= s.len(),
    ensures
        i <= digits_end(s, i) <= s.len(),
        digits_end(s, i) < s.len() ==> !is_digit(s[digits_end(s, i)]),
        forall|j: int| i <= j < digits_end(s, i) ==> is_digit(s[j]),
    decreases s.len() - i,
{
    if i < s.len() && is_digit(s[i]) {
        lemma_digits_end(s, i + 1);
    }
}

/// Index of the first `c` at or after `from`, or the length of `s`.
pub fn find_char(s: &Vec<char>, c: char, from: usize) -> (r: usize)
    requires
        from <= s@.len(),
    ensures
        r as int == find_from(s@, c, from as int),
{
    let mut j = from;
    while j < s.len() && s[j] != c
        invariant
            from <= j <= s@.len(),
            find_from(s@, c, from as int) == find_from(s@, c, j as int),
        decreases s@.len() - j,
    {
        j = j + 1;
    }
    j
}

/// End of the run of decimal digits that starts at `from`.
pub fn skip_digits(s: &Vec<char>, from: usize) -> (r: usize)
    requires
        from <= s@.len(),
    ensures
        r as int == digits_end(s@, from as int),
{
    let mut j = from;
    while j < s.len() && '0' <= s[j] && s[j] <= '9'
        invariant
            from <= j <= s@.len(),
            digits_end(s@, from as int) == digits_end(s@, j as int),
        decreases s@.len() - j,
    {
        j = j + 1;
    }
    j
}

proof fn lemma_dec_value_step(s: Seq<char>, i: int, k: int)
    requires
        0 <= i <= k < s.len(),
    ensures
        dec_value(s.subrange(i, k + 1)) == dec_value(s.subrange(i, k)) * 10 + digit_value(s[k]),
{
    assert(s.subrange(i, k + 1).drop_last() =~= s.subrange(i, k));
}

proof fn lemma_dec_value_grows(s: Seq<char>, i: int, k: int, e: int)
    requires
        0 <= i <= k <= e <= s.len(),
    ensures
        dec_value(s.subrange(i, k)) <= dec_value(s.subrange(i, e)),
    decreases e - k,
{
    if k < e {
        lemma_dec_value_grows(s, i, k, e - 1);
        lemma_dec_value_step(s, i, e - 1);
    }
}

/// Reads the `u32` written in decimal at `from`.
pub fn read_number(s: &Vec<char>, from: usize) -> (r: Option<(u32, usize)>)
    requires
        from <= s@.len(),
    ensures
        match number_at(s@, from as int) {
            Some((v, e)) => from < e <= s@.len() && r == Some((v, e as usize)),
            None => r is None,
        },
{
    let e = skip_digits(s, from);
    proof { lemma_digits_end(s@, from as int); }
    if e == from {
        return None;
    }
    let mut v: u64 = 0;
    let mut k = from;
    while k < e
        invariant
            from <= k <= e,
            e as int == digits_end(s@, from as int),
            e <= s@.len(),
            forall|j: int| from <= j < e ==> is_digit(s@[j]),
            v as nat == dec_value(s@.subrange(from as int, k as int)),
            v <= u32::MAX,
        decreases e - k,
    {
        let d = (s[k] as u32 - '0' as u32) as u64;
        proof {
            lemma_dec_value_step(s@, from as int, k as int);
            assert(is_digit(s@[k as int]));
        }
        v = v * 10 + d;
        k = k + 1;
        if v > 0xffff_ffff {
            proof { lemma_dec_value_grows(s@, from as int, k as int, e as int); }
            return None;
        }
    }
    Some((v as u32, e))
}

/// A number in decimal, followed by a character that is no digit, reads back.
pub proof fn lemma_number_at_dec(s: Seq<char>, i: int, n: u32)
    requires
        0 <= i,
        i + dec(n as nat).len() <= s.len(),
        s.subrange(i, i + dec(n as nat).len()) == dec(n as nat),
        i + dec(n as nat).len() < s.len() ==> !is_digit(s[i + dec(n as nat).len()]),
    ensures
        number_at(s, i) == Some((n, i + dec(n as nat).len())),
{
    let d = dec(n as nat);
    lemma_dec(n as nat);
    assert forall|j: int| i <= j < i + d.len() implies is_digit(s[j]) by {
        assert(s[j] == s.subrange(i, i + d.len())[j - i]);
    }
    lemma_digits_run(s, i, i + d.len());
}

proof fn lemma_digits_run(s: Seq<char>, i: int, e: int)
    requires
        0 <= i <= e <= s.len(),
        forall|j: int| i <= j < e ==> is_digit(s[j]),
        e < s.len() ==> !is_digit(s[e]),
    ensures
        digits_end(s, i) == e,
    decreases e - i,
{
    if i < e {
        lemma_digits_run(s, i + 1, e);
    }
}

} // verus!
