//! The SysV report of the `size` tool: per object, a header line
//! `NAME (ex ARCHIVE):`, a table of sections and a total.

use vstd::prelude::*;
use crate::caret::{blank_end, skip_blanks};
use crate::deps::copy_range;
use crate::diag_parser::{trim_range, trimmed};
use crate::text::{chars_of, dec_value, digit_value, is_digit, matches_at, occurs_at, string_of};
use crate::scan::{digits_end, lemma_digits_end, skip_digits};

verus! {

/// The size and address of one section.
#[derive(Debug, Clone, PartialEq, Eq)]
pub struct SectionSizeInfo {
    pub name: String,
    pub address: u64,
    pub size: u64,
}

/// The sections of one object file, and their total.
#[derive(Debug, Clone, PartialEq, Eq)]
pub struct ObjectSizeInfo {
    pub name: String,
    /// The archive that holds the object, if any.
    pub archive: Option<String>,
    pub size: u64,
    pub sections: Vec<SectionSizeInfo>,
}

/// The `u64` written in decimal at `i`, with the index after it.
pub open spec fn u64_at(s: Seq<char>, i: int) -> Option<(u64, int)> {
    let e = digits_end(s, i);
    if 0 <= i && e > i && dec_value(s.subrange(i, e)) <= u64::MAX {
        Some((dec_value(s.subrange(i, e)) as u64, e))
    } else {
        None
    }
}

/// The first index at or after `i` holding `a` or `b`, or the length of `s`.
pub open spec fn stop_at(s: Seq<char>, i: int, a: char, b: char) -> int
    decreases s.len() - i,
{
    if i < 0 || i >= s.len() {
        s.len() as int
    } else if s[i] == a || s[i] == b {
        i
    } else {
        stop_at(s, i + 1, a, b)
    }
}

/// A section line at `i`: name, size and address, and the index after it.
pub open spec fn section_at(s: Seq<char>, i: int) -> Option<((Seq<char>, u64, u64), int)> {
    let k = stop_at(s, i, ' ', '\t');
    let b = blank_end(s, k);
    if 0 <= i && k > i && b > k {
        match u64_at(s, b) {
            Some((size, e1)) => {
                let b2 = blank_end(s, e1);
                if b2 > e1 {
                    match u64_at(s, b2) {
                        Some((address, e2)) => Some(((s.subrange(i, k), size, address), e2)),
                        None => None,
                    }
                } else {
                    None
                }
            },
            None => None,
        }
    } else {
        None
    }
}

/// Further section lines, each after a line feed, from `j` on.
pub open spec fn more_sections(s: Seq<char>, j: int) -> (Seq<(Seq<char>, u64, u64)>, int)
    decreases s.len() - j,
{
    if 0 <= j < s.len() && s[j] == '\n' {
        match section_at(s, j + 1) {
            Some((sec, k)) => if k > j && k <= s.len() {
                (seq![sec] + more_sections(s, k).0, more_sections(s, k).1)
            } else {
                (Seq::empty(), j)
            },
            None => (Seq::empty(), j),
        }
    } else {
        (Seq::empty(), j)
    }
}

/// The section lines from `i` on, one per line.
pub open spec fn sections_from(s: Seq<char>, i: int) -> (Seq<(Seq<char>, u64, u64)>, int) {
    match section_at(s, i) {
        Some((sec, j)) => (seq![sec] + more_sections(s, j).0, more_sections(s, j).1),
        None => (Seq::empty(), i),
    }
}

/// The head line at `i`: object name, archive, and the index after the `:`.
pub open spec fn head_at(s: Seq<char>, i: int) -> Option<(Seq<char>, Option<Seq<char>>, int)> {
    let k = stop_at(s, i, ':', '(');
    if 0 <= i && k > i && k < s.len() {
        if s[k] == ':' {
            Some((trimmed(s, i, k), None, k + 1))
        } else if occurs_at(s, k, "(ex"@) {
            let m = stop_at(s, k + 3, ')', ')');
            if m > k + 3 && m + 1 < s.len() && s[m + 1] == ':' {
                Some((trimmed(s, i, k), Some(trimmed(s, k + 3, m)), m + 2))
            } else {
                None
            }
        } else {
            None
        }
    } else {
        None
    }
}

/// The column line `section size addr` at `i`, and the index after it.
pub open spec fn columns_at(s: Seq<char>, i: int) -> Option<int> {
    let b1 = blank_end(s, i + 7);
    let b2 = blank_end(s, b1 + 4);
    if occurs_at(s, i, "section"@) && b1 > i + 7 && occurs_at(s, b1, "size"@) && b2 > b1 + 4 && occurs_at(
        s,
        b2,
        "addr"@,
    ) {
        Some(b2 + 4)
    } else {
        None
    }
}

/// One object's block at `i`, with the index after its last line feed.
pub open spec fn object_at(s: Seq<char>, i: int) -> Option<(
    (Seq<char>, Option<Seq<char>>, u64, Seq<(Seq<char>, u64, u64)>),
    int,
)> {
    match head_at(s, i) {
        Some((name, archive, j)) => if j < s.len() && s[j] == '\n' {
            match columns_at(s, j + 1) {
                Some(h) => if h < s.len() && s[h] == '\n' {
                    let (secs, e) = sections_from(s, h + 1);
                    let b = blank_end(s, e + 6);
                    if e < s.len() && s[e] == '\n' && occurs_at(s, e + 1, "Total"@) && b > e + 6 {
                        match u64_at(s, b) {
                            Some((total, t)) => if t < s.len() && s[t] == '\n' {
                                Some(((name, archive, total, secs), t + 1))
                            } else {
                                None
                            },
                            None => None,
                        }
                    } else {
                        None
                    }
                } else {
                    None
                },
                None => None,
            }
        } else {
            None
        },
        None => None,
    }
}

/// Further objects, each after an empty line, from `j` on.
pub open spec fn more_objects(s: Seq<char>, j: int) -> (
    Seq<(Seq<char>, Option<Seq<char>>, u64, Seq<(Seq<char>, u64, u64)>)>,
    int,
)
    decreases s.len() - j,
{
    if occurs_at(s, j, "\n\n"@) {
        match object_at(s, j + 2) {
            Some((o, k)) => if k > j && k <= s.len() {
                (seq![o] + more_objects(s, k).0, more_objects(s, k).1)
            } else {
                (Seq::empty(), j)
            },
            None => (Seq::empty(), j),
        }
    } else {
        (Seq::empty(), j)
    }
}

/// The objects of a whole report, when the whole text is one.
pub open spec fn report_objects(s: Seq<char>) -> Option<
    Seq<(Seq<char>, Option<Seq<char>>, u64, Seq<(Seq<char>, u64, u64)>)>,
> {
    let (os, e) = match object_at(s, 0) {
        Some((o, j)) => if j > 0 && j <= s.len() {
            (seq![o] + more_objects(s, j).0, more_objects(s, j).1)
        } else {
            (Seq::empty(), 0)
        },
        None => (Seq::empty(), 0),
    };
    if e == s.len() {
        Some(os)
    } else {
        None
    }
}

/// The first entry of `list` named `name`, or the length of `list`.
pub open spec fn index_of(list: Seq<(Seq<char>, u64)>, name: Seq<char>, k: int) -> int
    decreases list.len() - k,
{
    if k < 0 || k >= list.len() {
        list.len() as int
    } else if list[k].0 == name {
        k
    } else {
        index_of(list, name, k + 1)
    }
}

/// Adds `v` to the entry `name` of `list`, or appends the entry; `None` when
/// the sum does not fit.
pub open spec fn add_checked(list: Seq<(Seq<char>, u64)>, name: Seq<char>, v: u64) -> Option<Seq<(Seq<char>, u64)>> {
    let i = index_of(list, name, 0);
    if i < list.len() {
        if list[i].1 + v <= u64::MAX {
            Some(list.update(i, (name, (list[i].1 + v) as u64)))
        } else {
            None
        }
    } else {
        Some(list.push((name, v)))
    }
}

/// The totals per section name after the first `m` sections of `secs`.
pub open spec fn tally_secs(acc: Option<Seq<(Seq<char>, u64)>>, secs: Seq<(Seq<char>, u64, u64)>, m: int) -> Option<Seq<(Seq<char>, u64)>>
    decreases m,
{
    if m <= 0 || m > secs.len() {
        acc
    } else {
        match tally_secs(acc, secs, m - 1) {
            Some(list) => add_checked(list, secs[m - 1].0, secs[m - 1].1),
            None => None,
        }
    }
}

/// The totals per section name over the first `n` objects, in the order in
/// which the names first occur.
pub open spec fn tally(os: Seq<(Seq<char>, Option<Seq<char>>, u64, Seq<(Seq<char>, u64, u64)>)>, n: int) -> Option<Seq<(Seq<char>, u64)>>
    decreases n,
{
    if n <= 0 || n > os.len() {
        Some(Seq::empty())
    } else {
        tally_secs(tally(os, n - 1), os[n - 1].3, os[n - 1].3.len() as int)
    }
}

/// The sum of the totals of the first `n` objects, if it fits.
pub open spec fn total_size(os: Seq<(Seq<char>, Option<Seq<char>>, u64, Seq<(Seq<char>, u64, u64)>)>, n: int) -> Option<u64>
    decreases n,
{
    if n <= 0 || n > os.len() {
        Some(0)
    } else {
        match total_size(os, n - 1) {
            Some(t) => if t + os[n - 1].2 <= u64::MAX {
                Some((t + os[n - 1].2) as u64)
            } else {
                None
            },
            None => None,
        }
    }
}

pub open spec fn is_section(x: SectionSizeInfo, v: (Seq<char>, u64, u64)) -> bool {
    x.name@ == v.0 && x.size == v.1 && x.address == v.2
}

pub open spec fn is_object(x: ObjectSizeInfo, v: (Seq<char>, Option<Seq<char>>, u64, Seq<(Seq<char>, u64, u64)>)) -> bool {
    &&& x.name@ == v.0
    &&& match (x.archive, v.1) {
        (Some(a), Some(b)) => a@ == b,
        (None, None) => true,
        _ => false,
    }
    &&& x.size == v.2
    &&& x.sections@.len() == v.3.len()
    &&& forall|k: int| 0 <= k < v.3.len() ==> is_section(#[trigger] x.sections@[k], v.3[k])
}

/// Reads the `u64` written in decimal at `from`.
fn read_u64(s: &Vec<char>, from: usize) -> (r: Option<(u64, usize)>)
    requires
        from <= s@.len(),
    ensures
        match u64_at(s@, from as int) {
            Some((v, e)) => from < e <= s@.len() && r == Some((v, e as usize)),
            None => r is None,
        },
{
    let n = s.len();
    let e = skip_digits(s, from);
    proof {
        lemma_digits_end(s@, from as int);
    }
    if e == from {
        return None;
    }
    let mut v: u128 = 0;
    let mut k = from;
    while k < e
        invariant
            from <= k <= e,
            e as int == digits_end(s@, from as int),
            e <= s@.len(),
            forall|j: int| from <= j < e ==> is_digit(s@[j]),
            v as nat == dec_value(s@.subrange(from as int, k as int)),
            v <= u64::MAX,
        decreases e - k,
    {
        let d = (s[k] as u32 - '0' as u32) as u128;
        proof {
            assert(s@.subrange(from as int, k + 1).drop_last() =~= s@.subrange(from as int, k as int));
            assert(is_digit(s@[k as int]));
        }
        v = v * 10 + d;
        k = k + 1;
        if v > 0xffff_ffff_ffff_ffff {
            proof {
                lemma_value_grows(s@, from as int, k as int, e as int);
            }
            return None;
        }
    }
    Some((v as u64, e))
}

proof fn lemma_value_grows(s: Seq<char>, i: int, k: int, e: int)
    requires
        0 <= i <= k <= e <= s.len(),
    ensures
        dec_value(s.subrange(i, k)) <= dec_value(s.subrange(i, e)),
    decreases e - k,
{
    if k < e {
        lemma_value_grows(s, i, k, e - 1);
        assert(s.subrange(i, e).drop_last() =~= s.subrange(i, e - 1));
    }
}

fn stop_index(s: &Vec<char>, from: usize, a: char, b: char) -> (r: usize)
    requires
        from <= s@.len(),
    ensures
        r as int == stop_at(s@, from as int, a, b),
        from <= r <= s@.len(),
{
    let mut j = from;
    while j < s.len() && s[j] != a && s[j] != b
        invariant
            from <= j <= s@.len(),
            stop_at(s@, from as int, a, b) == stop_at(s@, j as int, a, b),
        decreases s@.len() - j,
    {
        j = j + 1;
    }
    j
}

impl SectionSizeInfo {
    /// Reads a section line at `from`.
    pub fn parse_at(s: &Vec<char>, from: usize) -> (r: Option<(SectionSizeInfo, usize)>)
        requires
            from <= s@.len(),
        ensures
            match section_at(s@, from as int) {
                Some((v, e)) => r is Some && is_section((r->0).0, v) && (r->0).1 as int == e && from < e <= s@.len(),
                None => r is None,
            },
    {
        let n = s.len();
        let k = stop_index(s, from, ' ', '\t');
        let b = skip_blanks(s, k);
        if !(k > from && b > k) {
            return None;
        }
        let (size, e1) = match read_u64(s, b) {
            Some(q) => q,
            None => { return None; },
        };
        let b2 = skip_blanks(s, e1);
        if b2 <= e1 {
            return None;
        }
        let (address, e2) = match read_u64(s, b2) {
            Some(q) => q,
            None => { return None; },
        };
        let name = copy_range(s, from, k);
        Some((SectionSizeInfo { name: string_of(&name), address, size }, e2))
    }
}

fn has_text(s: &Vec<char>, at: usize, p: &str) -> (r: bool)
    ensures
        r == occurs_at(s@, at as int, p@),
{
    let pv = chars_of(p);
    matches_at(s, at, &pv)
}

/// Reads the section lines from `from` on.
fn parse_sections(s: &Vec<char>, from: usize) -> (r: (Vec<SectionSizeInfo>, usize))
    requires
        from <= s@.len(),
    ensures
        r.0@.len() == sections_from(s@, from as int).0.len(),
        forall|k: int| 0 <= k < r.0@.len() ==> is_section(#[trigger] r.0@[k], sections_from(s@, from as int).0[k]),
        r.1 as int == sections_from(s@, from as int).1,
        from <= r.1 <= s@.len(),
{
    let n = s.len();
    let mut out: Vec<SectionSizeInfo> = Vec::new();
    let (first, mut j) = match SectionSizeInfo::parse_at(s, from) {
        Some(q) => q,
        None => { return (out, from); },
    };
    out.push(first);
    let ghost mut acc: Seq<(Seq<char>, u64, u64)> = seq![(section_at(s@, from as int)->0).0];
    proof {
        assert(acc + more_sections(s@, j as int).0 =~= sections_from(s@, from as int).0);
    }
    while j < n && s[j] == '\n'
        invariant
            n == s@.len(),
            from < j <= n,
            out@.len() == acc.len(),
            forall|k: int| 0 <= k < out@.len() ==> is_section(#[trigger] out@[k], acc[k]),
            acc + more_sections(s@, j as int).0 == sections_from(s@, from as int).0,
            more_sections(s@, j as int).1 == sections_from(s@, from as int).1,
        decreases n - j,
    {
        match SectionSizeInfo::parse_at(s, j + 1) {
            Some((sec, k)) => {
                let ghost v = (section_at(s@, j + 1)->0).0;
                proof {
                    assert(more_sections(s@, j as int).0 == seq![v] + more_sections(s@, k as int).0);
                    assert(acc.push(v) + more_sections(s@, k as int).0 =~= acc + (seq![v] + more_sections(s@, k as int).0));
                    acc = acc.push(v);
                }
                out.push(sec);
                j = k;
            },
            None => {
                proof {
                    assert(more_sections(s@, j as int).0 == Seq::<(Seq<char>, u64, u64)>::empty());
                    assert(acc + Seq::<(Seq<char>, u64, u64)>::empty() =~= acc);
                }
                return (out, j);
            },
        }
    }
    proof {
        assert(acc + Seq::<(Seq<char>, u64, u64)>::empty() =~= acc);
    }
    (out, j)
}

impl ObjectSizeInfo {
    /// Reads one object's block at `from`.
    pub fn parse_at(s: &Vec<char>, from: usize) -> (r: Option<(ObjectSizeInfo, usize)>)
        requires
            from <= s@.len(),
        ensures
            match object_at(s@, from as int) {
                Some((v, e)) => r is Some && is_object((r->0).0, v) && (r->0).1 as int == e && from < e <= s@.len(),
                None => r is None,
            },
    {
        let n = s.len();
        let k = stop_index(s, from, ':', '(');
        if !(k > from && k < n) {
            return None;
        }
        let name = trim_range(s, from, k);
        let mut archive: Option<String> = None;
        let j: usize;
        if s[k] == ':' {
            j = k + 1;
        } else {
            if !has_text(s, k, "(ex") {
                return None;
            }
            proof {
                reveal_strlit("(ex");
            }
            let m = stop_index(s, k + 3, ')', ')');
            if !(m > k + 3 && m < n && m + 1 < n && s[m + 1] == ':') {
                return None;
            }
            archive = Some(string_of(&trim_range(s, k + 3, m)));
            j = m + 2;
        }
        if !(j < n && s[j] == '\n') {
            return None;
        }
        if !has_text(s, j + 1, "section") {
            return None;
        }
        proof {
            reveal_strlit("section");
            reveal_strlit("size");
            reveal_strlit("addr");
            reveal_strlit("Total");
        }
        let b1 = skip_blanks(s, j + 8);
        if !(b1 > j + 8 && has_text(s, b1, "size")) {
            return None;
        }
        let b2 = skip_blanks(s, b1 + 4);
        if !(b2 > b1 + 4 && has_text(s, b2, "addr")) {
            return None;
        }
        let h = b2 + 4;
        if !(h < n && s[h] == '\n') {
            return None;
        }
        let (sections, e) = parse_sections(s, h + 1);
        if !(e < n && s[e] == '\n' && has_text(s, e + 1, "Total")) {
            return None;
        }
        let b = skip_blanks(s, e + 6);
        if b <= e + 6 {
            return None;
        }
        let (size, t) = match read_u64(s, b) {
            Some(q) => q,
            None => { return None; },
        };
        if !(t < n && s[t] == '\n') {
            return None;
        }
        Some((ObjectSizeInfo { name: string_of(&name), archive, size, sections }, t + 1))
    }
}

pub open spec fn tviews(v: Seq<(String, u64)>) -> Seq<(Seq<char>, u64)> {
    v.map_values(|p: (String, u64)| (p.0@, p.1))
}

/// Adds `v` to the total of `name`, or appends it; `false` when the sum does
/// not fit, and then `list` is left as it was.
fn add_to(list: &mut Vec<(String, u64)>, name: &String, v: u64) -> (ok: bool)
    ensures
        match add_checked(tviews(old(list)@), name@, v) {
            Some(l) => ok && tviews(final(list)@) == l,
            None => !ok,
        },
{
    let ghost lv = tviews(list@);
    let mut k: usize = 0;
    while k < list.len()
        invariant
            k <= list@.len(),
            lv == tviews(list@),
            list@ == old(list)@,
            index_of(lv, name@, 0) == index_of(lv, name@, k as int),
        decreases list@.len() - k,
    {
        if list[k].0 == *name {
            let t = list[k].1;
            if t > 0xffff_ffff_ffff_ffff - v {
                return false;
            }
            let entry = (name.clone(), t + v);
            list.set(k, entry);
            proof {
                assert(tviews(list@) =~= lv.update(k as int, (name@, (t + v) as u64)));
            }
            return true;
        }
        k = k + 1;
    }
    let entry = (name.clone(), v);
    list.push(entry);
    proof {
        assert(tviews(list@) =~= lv.push((name@, v)));
    }
    true
}

/// What the `size` tool reported: every object, the sum of their totals,
/// and the total of each section name over all objects.
#[derive(Debug, Clone, PartialEq, Eq)]
pub struct SizeInfo {
    pub size: u64,
    /// Per section name, in the order in which the names first occur.
    pub sections: Vec<(String, u64)>,
    pub objects: Vec<ObjectSizeInfo>,
}

impl SizeInfo {
    /// Reads a whole SysV size report; `None` when the text is not one, or a
    /// total does not fit in 64 bits.
    pub fn parse(text: &str) -> (r: Option<SizeInfo>)
        ensures
            match report_objects(text@) {
                Some(os) => match (total_size(os, os.len() as int), tally(os, os.len() as int)) {
                    (Some(t), Some(l)) => r is Some && (r->0).size == t && tviews((r->0).sections@) == l
                        && (r->0).objects@.len() == os.len()
                        && forall|k: int| 0 <= k < os.len() ==> is_object(#[trigger] (r->0).objects@[k], os[k]),
                    _ => r is None,
                },
                None => r is None,
            },
    {
        let s = chars_of(text);
        let n = s.len();
        let mut objects: Vec<ObjectSizeInfo> = Vec::new();
        let ghost mut acc: Seq<(Seq<char>, Option<Seq<char>>, u64, Seq<(Seq<char>, u64, u64)>)> = Seq::empty();
        let ghost (os_spec, e_spec) = match object_at(s@, 0) {
            Some((o, j0)) => if j0 > 0 && j0 <= s@.len() {
                (seq![o] + more_objects(s@, j0).0, more_objects(s@, j0).1)
            } else {
                (Seq::empty(), 0)
            },
            None => (Seq::empty(), 0),
        };
        let mut j: usize = 0;
        let mut go = false;
        match ObjectSizeInfo::parse_at(&s, 0) {
            Some((o, e)) => {
                proof {
                    acc = seq![(object_at(s@, 0)->0).0];
                    assert(acc + more_objects(s@, e as int).0 =~= os_spec);
                }
                objects.push(o);
                j = e;
                go = true;
            },
            None => {
                proof {
                    assert(acc =~= os_spec);
                }
            },
        }
        while go
            invariant
                n == s@.len(),
                j <= n,
                objects@.len() == acc.len(),
                forall|k: int| 0 <= k < objects@.len() ==> is_object(#[trigger] objects@[k], acc[k]),
                go ==> acc + more_objects(s@, j as int).0 == os_spec && more_objects(s@, j as int).1 == e_spec,
                !go ==> acc == os_spec && j == e_spec,
            decreases n - j + (if go { 1int } else { 0int }),
        {
            if has_text(&s, j, "\n\n") {
                proof {
                    reveal_strlit("\n\n");
                }
                assert(j + 2 <= n);
                match ObjectSizeInfo::parse_at(&s, j + 2) {
                    Some((o, k)) => {
                        let ghost v = (object_at(s@, j + 2)->0).0;
                        proof {
                            assert(acc.push(v) + more_objects(s@, k as int).0 =~= acc + (seq![v] + more_objects(s@, k as int).0));
                            acc = acc.push(v);
                        }
                        objects.push(o);
                        j = k;
                    },
                    None => {
                        proof {
                            assert(acc + Seq::<(Seq<char>, Option<Seq<char>>, u64, Seq<(Seq<char>, u64, u64)>)>::empty() =~= acc);
                        }
                        go = false;
                    },
                }
            } else {
                proof {
                    assert(acc + Seq::<(Seq<char>, Option<Seq<char>>, u64, Seq<(Seq<char>, u64, u64)>)>::empty() =~= acc);
                }
                go = false;
            }
        }
        if j != n {
            return None;
        }
        proof {
            assert(report_objects(s@) == Some(acc));
        }
        let mut size: u64 = 0;
        let mut sections: Vec<(String, u64)> = Vec::new();
        let mut m: usize = 0;
        while m < objects.len()
            invariant
                report_objects(text@) == Some(acc),
                m <= objects@.len(),
                objects@.len() == acc.len(),
                forall|k: int| 0 <= k < objects@.len() ==> is_object(#[trigger] objects@[k], acc[k]),
                total_size(acc, m as int) == Some(size),
                tally(acc, m as int) == Some(tviews(sections@)),
            decreases objects@.len() - m,
        {
            let o = &objects[m];
            proof {
                assert(is_object(objects@[m as int], acc[m as int]));
            }
            if size > 0xffff_ffff_ffff_ffff - o.size {
                proof {
                    lemma_total_stays_none(acc, m as int + 1, acc.len() as int);
                }
                return None;
            }
            size = size + o.size;
            let mut q: usize = 0;
            while q < o.sections.len()
                invariant
                    report_objects(text@) == Some(acc),
                    q <= o.sections@.len(),
                    m < acc.len(),
                    acc.len() == objects@.len(),
                    is_object(*o, acc[m as int]),
                    tally_secs(tally(acc, m as int), acc[m as int].3, q as int) == Some(tviews(sections@)),
                decreases o.sections@.len() - q,
            {
                proof {
                    assert(is_section(o.sections@[q as int], acc[m as int].3[q as int]));
                }
                if !add_to(&mut sections, &o.sections[q].name, o.sections[q].size) {
                    proof {
                        lemma_tally_secs_stays_none(tally(acc, m as int), acc[m as int].3, q as int + 1, acc[m as int].3.len() as int);
                        lemma_tally_stays_none(acc, m as int + 1, acc.len() as int);
                    }
                    return None;
                }
                q = q + 1;
            }
            m = m + 1;
        }
        Some(SizeInfo { size, sections, objects })
    }
}

proof fn lemma_total_stays_none(os: Seq<(Seq<char>, Option<Seq<char>>, u64, Seq<(Seq<char>, u64, u64)>)>, a: int, b: int)
    requires
        0 < a <= b <= os.len(),
        total_size(os, a) is None,
    ensures
        total_size(os, b) is None,
    decreases b - a,
{
    if a < b {
        lemma_total_stays_none(os, a, b - 1);
    }
}

proof fn lemma_tally_secs_stays_none(acc: Option<Seq<(Seq<char>, u64)>>, secs: Seq<(Seq<char>, u64, u64)>, a: int, b: int)
    requires
        0 < a <= b <= secs.len(),
        tally_secs(acc, secs, a) is None,
    ensures
        tally_secs(acc, secs, b) is None,
    decreases b - a,
{
    if a < b {
        lemma_tally_secs_stays_none(acc, secs, a, b - 1);
    }
}

proof fn lemma_tally_secs_none(secs: Seq<(Seq<char>, u64, u64)>, b: int)
    requires
        0 <= b <= secs.len(),
    ensures
        tally_secs(None, secs, b) is None,
    decreases b,
{
    if b > 0 {
        lemma_tally_secs_none(secs, b - 1);
    }
}

proof fn lemma_tally_stays_none(os: Seq<(Seq<char>, Option<Seq<char>>, u64, Seq<(Seq<char>, u64, u64)>)>, a: int, b: int)
    requires
        0 < a <= b <= os.len(),
        tally(os, a) is None,
    ensures
        tally(os, b) is None,
    decreases b - a,
{
    if a < b {
        lemma_tally_stays_none(os, a, b - 1);
        lemma_tally_secs_none(os[b - 1].3, os[b - 1].3.len() as int);
    }
}

impl std::str::FromStr for SizeInfo {
    type Err = crate::diag_parser::ParseError;

    fn from_str(s: &str) -> Result<SizeInfo, crate::diag_parser::ParseError> {
        match SizeInfo::parse(s) {
            Some(info) => Ok(info),
            None => Err(crate::diag_parser::ParseError),
        }
    }
}

} // verus!
