//! Reading compiler output (`FILE:LINE:COLUMN: SEVERITY: MESSAGE`) into diagnostics.

use vstd::prelude::*;
use crate::diagnostic::{Diagnostic, Diagnostics, FixingSuggestion, Location, Severity, TextPoint, TextSpan};
use crate::scan::{find_char, find_from, lemma_find_from, number_at, read_number};
use crate::text::{chars_of, matches_at, occurs_at, string_of};

verus! {

/// Whitespace that is trimmed around the severity and the message.
pub open spec fn is_space(c: char) -> bool {
    c == ' ' || c == '\t' || c == '\n' || c == '\r' || c == '\x0B' || c == '\x0C'
}

/// The first index in `[lo, hi)` that holds no whitespace, or `hi`.
pub open spec fn trim_lo(s: Seq<char>, lo: int, hi: int) -> int
    decreases hi - lo,
{
    if lo >= hi || !is_space(s[lo]) {
        lo
    } else {
        trim_lo(s, lo + 1, hi)
    }
}

/// The end of `[lo, hi)` once whitespace at its end is dropped.
pub open spec fn trim_hi(s: Seq<char>, lo: int, hi: int) -> int
    decreases hi - lo,
{
    if hi <= lo || !is_space(s[hi - 1]) {
        hi
    } else {
        trim_hi(s, lo, hi - 1)
    }
}

/// `s[lo..hi]` without whitespace at either end.
pub open spec fn trimmed(s: Seq<char>, lo: int, hi: int) -> Seq<char> {
    s.subrange(trim_lo(s, lo, hi), trim_hi(s, trim_lo(s, lo, hi), hi))
}

/// The severity that a compiler's severity word stands for; its prefix
/// decides, and anything else counts as fatal.
pub open spec fn severity_of(w: Seq<char>) -> Severity {
    if occurs_at(w, 0, "fatal"@) || occurs_at(w, 0, "internal"@) || occurs_at(
        w,
        0,
        "unimplement"@,
    ) {
        Severity::Fatal
    } else if occurs_at(w, 0, "error"@) {
        Severity::Error
    } else if occurs_at(w, 0, "warn"@) {
        Severity::Warning
    } else if occurs_at(w, 0, "note"@) || occurs_at(w, 0, "remark"@) {
        Severity::Note
    } else {
        Severity::Fatal
    }
}

/// What one line `s[lo..hi]` of compiler output says: file, line, column,
/// severity and message, when it has the shape of a diagnostic.
pub open spec fn line_diag(s: Seq<char>, lo: int, hi: int) -> Option<
    (Seq<char>, u32, u32, Severity, Seq<char>),
> {
    let c1 = find_from(s, ':', lo);
    let c2 = find_from(s, ':', c1 + 1);
    let c3 = find_from(s, ':', c2 + 1);
    let c4 = find_from(s, ':', c3 + 1);
    if lo < c1 && c4 + 1 < hi && c3 + 1 < c4 {
        match (number_at(s, c1 + 1), number_at(s, c2 + 1)) {
            (Some((line, e1)), Some((column, e2))) => if e1 == c2 && e2 == c3 {
                Some(
                    (
                        s.subrange(lo, c1),
                        line,
                        column,
                        severity_of(trimmed(s, c3 + 1, c4)),
                        trimmed(s, c4 + 1, hi),
                    ),
                )
            } else {
                None
            },
            _ => None,
        }
    } else {
        None
    }
}

/// The end of the text of the line that ends at the line feed `e` (or at the
/// end of the input): a carriage return before it is not part of the line.
pub open spec fn line_hi(s: Seq<char>, i: int, e: int) -> int {
    if e > i && s[e - 1] == '\r' {
        e - 1
    } else {
        e
    }
}

/// The diagnostics of the lines from `i` on; lines of another shape are skipped.
pub open spec fn diags_from(s: Seq<char>, i: int) -> Seq<
    (Seq<char>, u32, u32, Severity, Seq<char>),
>
    decreases s.len() - i,
{
    if i < 0 || i >= s.len() {
        Seq::empty()
    } else {
        let e = find_from(s, '\n', i);
        let rest = if i <= e < s.len() { diags_from(s, e + 1) } else { Seq::empty() };
        match line_diag(s, i, line_hi(s, i, e)) {
            Some(d) => seq![d] + rest,
            None => rest,
        }
    }
}

/// `d` is the diagnostic that a single line describes.
pub open spec fn is_line_diag(d: Diagnostic, v: (Seq<char>, u32, u32, Severity, Seq<char>)) -> bool {
    &&& d.severity == v.3
    &&& d.message@ == v.4
    &&& d.locations@.len() == 1
    &&& d.locations@[0].file@ == v.0
    &&& d.locations@[0].point == Some(TextPoint { line: v.1, column: v.2 })
    &&& d.locations@[0].span is None
    &&& d.locations@[0].label is None
    &&& d.children.0@.len() == 0
    &&& d.fixits@.len() == 0
}

fn is_space_char(c: char) -> (r: bool)
    ensures
        r == is_space(c),
{
    c == ' ' || c == '\t' || c == '\n' || c == '\r' || c == '\x0B' || c == '\x0C'
}

/// The characters of `s[lo..hi]` without whitespace at either end.
pub fn trim_range(s: &Vec<char>, lo: usize, hi: usize) -> (r: Vec<char>)
    requires
        lo <= hi <= s@.len(),
    ensures
        r@ == trimmed(s@, lo as int, hi as int),
{
    let mut a = lo;
    while a < hi && is_space_char(s[a])
        invariant
            lo <= a <= hi <= s@.len(),
            trim_lo(s@, lo as int, hi as int) == trim_lo(s@, a as int, hi as int),
        decreases hi - a,
    {
        a = a + 1;
    }
    let mut b = hi;
    while b > a && is_space_char(s[b - 1])
        invariant
            a <= b <= hi <= s@.len(),
            trim_hi(s@, a as int, hi as int) == trim_hi(s@, a as int, b as int),
        decreases b - a,
    {
        b = b - 1;
    }
    let mut out: Vec<char> = Vec::new();
    let mut k = a;
    while k < b
        invariant
            a <= k <= b <= s@.len(),
            out@ == s@.subrange(a as int, k as int),
        decreases b - k,
    {
        out.push(s[k]);
        k = k + 1;
        proof {
            assert(out@ =~= s@.subrange(a as int, k as int));
        }
    }
    out
}

fn starts_with_str(w: &Vec<char>, p: &str) -> (r: bool)
    ensures
        r == occurs_at(w@, 0, p@),
{
    let pv = chars_of(p);
    matches_at(w, 0, &pv)
}

impl Severity {
    /// The severity that a compiler's severity word (already trimmed) stands for.
    pub fn from_word(w: &Vec<char>) -> (r: Severity)
        ensures
            r == severity_of(w@),
    {
        if starts_with_str(w, "fatal") || starts_with_str(w, "internal") || starts_with_str(
            w,
            "unimplement",
        ) {
            Severity::Fatal
        } else if starts_with_str(w, "error") {
            Severity::Error
        } else if starts_with_str(w, "warn") {
            Severity::Warning
        } else if starts_with_str(w, "note") || starts_with_str(w, "remark") {
            Severity::Note
        } else {
            Severity::Fatal
        }
    }

    /// The severity that a compiler's severity word stands for.
    pub fn parse(w: &str) -> (r: Severity)
        ensures
            r == severity_of(w@),
    {
        let cs = chars_of(w);
        Severity::from_word(&cs)
    }
}

impl Diagnostic {
    /// Reads the line `s[lo..hi]` as a diagnostic, if it has that shape.
    pub fn parse_line(s: &Vec<char>, lo: usize, hi: usize) -> (r: Option<Diagnostic>)
        requires
            lo <= hi <= s@.len(),
        ensures
            match line_diag(s@, lo as int, hi as int) {
                Some(v) => r is Some && is_line_diag(r->0, v),
                None => r is None,
            },
    {
        proof {
            lemma_find_from(s@, ':', lo as int);
        }
        let c1 = find_char(s, ':', lo);
        if c1 >= hi {
            return None;
        }
        proof {
            lemma_find_from(s@, ':', c1 + 1);
        }
        let c2 = find_char(s, ':', c1 + 1);
        if c2 >= hi {
            return None;
        }
        proof {
            lemma_find_from(s@, ':', c2 + 1);
        }
        let c3 = find_char(s, ':', c2 + 1);
        if c3 >= hi {
            return None;
        }
        proof {
            lemma_find_from(s@, ':', c3 + 1);
        }
        let c4 = find_char(s, ':', c3 + 1);
        if !(lo < c1 && c4 < hi && c4 + 1 < hi && c3 + 1 < c4) {
            return None;
        }
        let n = s.len();
        let n1 = read_number(s, c1 + 1);
        let n2 = read_number(s, c2 + 1);
        if n1.is_none() || n2.is_none() {
            return None;
        }
        let (line, e1) = n1.unwrap();
        let (column, e2) = n2.unwrap();

        if e1 != c2 || e2 != c3 {
            return None;
        }
        let mut file_chars: Vec<char> = Vec::new();
        let mut k = lo;
        while k < c1
            invariant
                lo <= k <= c1 <= s@.len(),
                file_chars@ == s@.subrange(lo as int, k as int),
            decreases c1 - k,
        {
            file_chars.push(s[k]);
            k = k + 1;
            proof {
                assert(file_chars@ =~= s@.subrange(lo as int, k as int));
            }
        }
        let word = trim_range(s, c3 + 1, c4);
        let severity = Severity::from_word(&word);
        let msg = trim_range(s, c4 + 1, hi);
        let mut locations: Vec<Location> = Vec::new();
        locations.push(
            Location {
                file: string_of(&file_chars),
                span: None,
                point: Some(TextPoint { line, column }),
                label: None,
            },
        );
        let r = Diagnostic {
            severity,
            message: string_of(&msg),
            locations,
            children: Diagnostics::empty(),
            fixits: Vec::new(),
        };
        proof {
            let v = line_diag(s@, lo as int, hi as int);
            assert(c1 as int == find_from(s@, ':', lo as int));
            assert(c2 as int == find_from(s@, ':', c1 + 1));
            assert(c3 as int == find_from(s@, ':', c2 + 1));
            assert(c4 as int == find_from(s@, ':', c3 + 1));
            assert(v is Some);
            assert(r.severity == (v->0).3);
            assert(r.message@ == (v->0).4);
            assert(r.locations@[0].file@ == (v->0).0);
            assert(r.locations@[0].point == Some(TextPoint { line: (v->0).1, column: (v->0).2 }));
        }
        Some(r)
    }
}

impl Diagnostics {
    /// Reads every line of compiler output that has the shape of a diagnostic;
    /// the other lines (source excerpts, carets, summaries) are skipped.
    pub fn parse_chars(s: &Vec<char>) -> (r: Diagnostics)
        ensures
            r.0@.len() == diags_from(s@, 0).len(),
            forall|k: int| 0 <= k < r.0@.len() ==> is_line_diag(r.0@[k], diags_from(s@, 0)[k]),
    {
        let n = s.len();
        let mut out: Vec<Diagnostic> = Vec::new();
        let ghost mut acc: Seq<(Seq<char>, u32, u32, Severity, Seq<char>)> = Seq::empty();
        let mut i: usize = 0;
        while i < n
            invariant
                n == s@.len(),
                i <= n,
                acc + diags_from(s@, i as int) == diags_from(s@, 0),
                out@.len() == acc.len(),
                forall|k: int| 0 <= k < out@.len() ==> is_line_diag(out@[k], acc[k]),
            decreases n - i,
        {
            proof {
                lemma_find_from(s@, '\n', i as int);
            }
            let e = find_char(s, '\n', i);
            let hi = if e > i && s[e - 1] == '\r' { e - 1 } else { e };
            let ghost rest = if e < n { diags_from(s@, e + 1) } else { Seq::empty() };
            match Diagnostic::parse_line(s, i, hi) {
                Some(d) => {
                    proof {
                        let v = line_diag(s@, i as int, hi as int)->0;
                        assert(diags_from(s@, i as int) == seq![v] + rest);
                        assert(acc.push(v) + rest =~= acc + (seq![v] + rest));
                        acc = acc.push(v);
                    }
                    out.push(d);
                },
                None => {},
            }
            if e < n {
                i = e + 1;
            } else {
                i = n;
                proof {
                    assert(acc + Seq::<(Seq<char>, u32, u32, Severity, Seq<char>)>::empty() =~= acc);
                }
            }
        }
        proof {
            assert(acc + Seq::<(Seq<char>, u32, u32, Severity, Seq<char>)>::empty() =~= acc);
        }
        Diagnostics(out)
    }

    /// Reads every line of compiler output that has the shape of a diagnostic.
    pub fn parse(s: &str) -> (r: Diagnostics)
        ensures
            r.0@.len() == diags_from(s@, 0).len(),
            forall|k: int| 0 <= k < r.0@.len() ==> is_line_diag(r.0@[k], diags_from(s@, 0)[k]),
    {
        let cs = chars_of(s);
        Diagnostics::parse_chars(&cs)
    }
}

impl Diagnostic {
    /// Reads the first line of `s` as a diagnostic.
    pub fn parse(s: &str) -> (r: Option<Diagnostic>)
        ensures
            match line_diag(s@, 0, line_hi(s@, 0, find_from(s@, '\n', 0))) {
                Some(v) => r is Some && is_line_diag(r->0, v),
                None => r is None,
            },
    {
        let cs = chars_of(s);
        proof {
            lemma_find_from(cs@, '\n', 0);
        }
        let e = find_char(&cs, '\n', 0);
        let hi = if e > 0 && cs[e - 1] == '\r' { e - 1 } else { e };
        Diagnostic::parse_line(&cs, 0, hi)
    }
}

/// A text that does not have the expected form.
#[derive(Debug, Clone, Copy, PartialEq, Eq)]
pub struct ParseError;

impl std::str::FromStr for Diagnostics {
    type Err = ParseError;

    fn from_str(s: &str) -> Result<Diagnostics, ParseError> {
        Ok(Diagnostics::parse(s))
    }
}

impl std::str::FromStr for Diagnostic {
    type Err = ParseError;

    fn from_str(s: &str) -> Result<Diagnostic, ParseError> {
        match Diagnostic::parse(s) {
            Some(d) => Ok(d),
            None => Err(ParseError),
        }
    }
}

impl std::str::FromStr for FixingSuggestion {
    type Err = ParseError;

    fn from_str(s: &str) -> Result<FixingSuggestion, ParseError> {
        match FixingSuggestion::parse(s) {
            Some(f) => Ok(f),
            None => Err(ParseError),
        }
    }
}

impl std::str::FromStr for TextSpan {
    type Err = ParseError;

    fn from_str(s: &str) -> Result<TextSpan, ParseError> {
        let cs = chars_of(s);
        match TextSpan::parse_at(&cs, 0) {
            Some((sp, e)) => if e == cs.len() {
                Ok(sp)
            } else {
                Err(ParseError)
            },
            None => Err(ParseError),
        }
    }
}

impl std::str::FromStr for TextPoint {
    type Err = ParseError;

    fn from_str(s: &str) -> Result<TextPoint, ParseError> {
        let cs = chars_of(s);
        match TextPoint::parse_at(&cs, 0) {
            Some((p, e)) => if e == cs.len() {
                Ok(p)
            } else {
                Err(ParseError)
            },
            None => Err(ParseError),
        }
    }
}

} // verus!
