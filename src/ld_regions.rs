//! Reading back the `MEMORY` regions of a linker-script text.

use vstd::prelude::*;
use crate::ld_parse::{lines_from, lines_of, no_lf};
use crate::ld_script::{
    concat_map, extern_line, flag, hex, hex_char, include_line, memory_line, provide_line, script_text,
    section_text, LdProvideExpr, LdRegion, LdScript,
};
use crate::scan::{find_char, find_from, lemma_find_from};
use crate::text::{chars_of, matches_at, occurs_at, string_of};

verus! {

pub open spec fn is_hex(c: char) -> bool {
    ('0' <= c && c <= '9') || ('a' <= c && c <= 'f')
}

pub open spec fn hex_digit_value(c: char) -> nat {
    if '0' <= c && c <= '9' {
        (c as u32 - '0' as u32) as nat
    } else {
        (c as u32 - 'a' as u32 + 10) as nat
    }
}

/// The number that a sequence of hexadecimal digits denotes.
pub open spec fn hex_value(s: Seq<char>) -> nat
    decreases s.len(),
{
    if s.len() == 0 {
        0
    } else {
        hex_value(s.drop_last()) * 16 + hex_digit_value(s.last())
    }
}

/// The end of the run of hexadecimal digits from `i`.
pub open spec fn hex_end(s: Seq<char>, i: int) -> int
    decreases s.len() - i,
{
    if i < 0 || i >= s.len() || !is_hex(s[i]) {
        if i < 0 { 0 } else { i }
    } else {
        hex_end(s, i + 1)
    }
}

proof fn lemma_hex_char(d: nat)
    requires
        d < 16,
    ensures
        is_hex(hex_char(d)),
        hex_digit_value(hex_char(d)) == d,
{
}

/// Hexadecimal notation is made of hex digits and reads back as the number.
pub proof fn lemma_hex(n: nat)
    ensures
        hex(n).len() >= 1,
        forall|i: int| 0 <= i < hex(n).len() ==> is_hex(#[trigger] hex(n)[i]),
        hex_value(hex(n)) == n,
    decreases n,
{
    if n < 16 {
        lemma_hex_char(n);
        assert(hex(n).drop_last() =~= Seq::<char>::empty());
        assert(hex_value(Seq::<char>::empty()) == 0);
        assert(hex_value(hex(n)) == hex_value(hex(n).drop_last()) * 16 + hex_digit_value(hex(n).last()));
    } else {
        lemma_hex(n / 16);
        lemma_hex_char(n % 16);
        assert(hex(n).drop_last() =~= hex(n / 16));
        assert(hex(n).last() == hex_char(n % 16));
        assert((n / 16) * 16 + n % 16 == n) by (nonlinear_arith);
        assert(hex_value(hex(n)) == hex_value(hex(n).drop_last()) * 16 + hex_digit_value(hex(n).last()));
        assert forall|i: int| 0 <= i < hex(n).len() implies is_hex(#[trigger] hex(n)[i]) by {
            if i < hex(n).len() - 1 {
                assert(hex(n)[i] == hex(n / 16)[i]);
            }
        }
    }
}

/// The flags `r`, `w`, `x`, each optional, in this order.
pub open spec fn flags_of(f: Seq<char>) -> Option<(bool, bool, bool)> {
    let r = f.len() > 0 && f[0] == 'r';
    let k1: int = if r { 1 } else { 0 };
    let w = f.len() > k1 && f[k1] == 'w';
    let k2: int = if w { k1 + 1 } else { k1 };
    let x = f.len() > k2 && f[k2] == 'x';
    let k3: int = if x { k2 + 1 } else { k2 };
    if k3 == f.len() {
        Some((r, w, x))
    } else {
        None
    }
}

/// The region that a line `    NAME (FLAGS) : ORIGIN = 0x…, LENGTH = 0x…`
/// describes.
pub open spec fn region_of(l: Seq<char>) -> Option<(Seq<char>, LdRegion)> {
    let q = find_from(l, ' ', 4);
    let c = find_from(l, ')', q + 2);
    let a = c + 15;
    let e1 = hex_end(l, a);
    let b = e1 + 13;
    let e2 = hex_end(l, b);
    if occurs_at(l, 0, "    "@) && 4 < q < l.len() && q + 1 < l.len() && l[q + 1] == '(' && c < l.len()
        && occurs_at(l, c, ") : ORIGIN = 0x"@) && e1 > a && occurs_at(l, e1, ", LENGTH = 0x"@) && e2 > b
        && e2 == l.len() && hex_value(l.subrange(a, e1)) <= u64::MAX && hex_value(l.subrange(b, e2))
        <= u64::MAX {
        match flags_of(l.subrange(q + 2, c)) {
            Some((r, w, x)) => Some(
                (
                    l.subrange(4, q),
                    LdRegion {
                        address: hex_value(l.subrange(a, e1)) as u64,
                        size: hex_value(l.subrange(b, e2)) as u64,
                        read: r,
                        write: w,
                        execute: x,
                    },
                ),
            ),
            None => None,
        }
    } else {
        None
    }
}

/// The regions read so far, and whether `SECTIONS` was reached.
pub type RegionsRead = (Seq<(Seq<char>, LdRegion)>, bool);

pub open spec fn region_step(st: RegionsRead, l: Seq<char>) -> RegionsRead {
    if st.1 {
        st
    } else if l == "SECTIONS {"@ {
        (st.0, true)
    } else {
        match region_of(l) {
            Some(m) => (st.0.push(m), false),
            None => st,
        }
    }
}

pub open spec fn read_region_lines(st: RegionsRead, ls: Seq<Seq<char>>) -> RegionsRead
    decreases ls.len(),
{
    if ls.len() == 0 {
        st
    } else {
        region_step(read_region_lines(st, ls.drop_last()), ls.last())
    }
}

/// The memory regions of a linker-script text, up to its `SECTIONS` block.
pub open spec fn regions_of(t: Seq<char>) -> RegionsRead {
    read_region_lines((Seq::empty(), false), lines_of(t))
}

proof fn lemma_hex_run(s: Seq<char>, i: int, e: int)
    requires
        0 <= i <= e <= s.len(),
        forall|j: int| i <= j < e ==> is_hex(s[j]),
        e < s.len() ==> !is_hex(s[e]),
    ensures
        hex_end(s, i) == e,
    decreases e - i,
{
    if i < e {
        lemma_hex_run(s, i + 1, e);
    }
}

/// A region line, as the `MEMORY` block of a script writes it.
pub open spec fn region_line(name: Seq<char>, r: LdRegion) -> Seq<char> {
    "    "@ + name + seq![' '] + seq!['('] + flag(r.read, 'r') + flag(r.write, 'w') + flag(r.execute, 'x')
        + ") : ORIGIN = 0x"@ + hex(r.address as nat) + ", LENGTH = 0x"@ + hex(r.size as nat)
}

/// A region line reads back as its name and region, when the name is not
/// empty and holds no space.
#[verifier::rlimit(60)]
pub proof fn lemma_region_line(name: Seq<char>, r: LdRegion)
    requires
        name.len() > 0,
        forall|i: int| 0 <= i < name.len() ==> name[i] != ' ',
    ensures
        region_of(region_line(name, r)) == Some((name, r)),
{
    reveal_strlit("    ");
    reveal_strlit(") : ORIGIN = 0x");
    reveal_strlit(", LENGTH = 0x");
    let l = region_line(name, r);
    let fl = flag(r.read, 'r') + flag(r.write, 'w') + flag(r.execute, 'x');
    let ha = hex(r.address as nat);
    let hs = hex(r.size as nat);
    lemma_hex(r.address as nat);
    lemma_hex(r.size as nat);
    let q: int = 4 + name.len() as int;
    let c: int = q + 2 + fl.len() as int;
    let a: int = c + 15;
    let e1: int = a + ha.len() as int;
    let b: int = e1 + 13;
    let e2: int = b + hs.len() as int;
    assert(l =~= "    "@ + name + seq![' ', '('] + fl + ") : ORIGIN = 0x"@ + ha + ", LENGTH = 0x"@ + hs);
    assert(l.len() == e2);
    assert(l.subrange(0, 4) =~= "    "@);
    assert forall|j: int| 4 <= j < q implies l[j] != ' ' by {
        assert(l[j] == name[j - 4]);
    }
    crate::ld_parse::lemma_find_first(l, ' ', 4, q);
    assert(l[q + 1] == '(');
    assert forall|j: int| q + 2 <= j < c implies l[j] != ')' by {
        assert(l[j] == fl[j - q - 2]);
    }
    crate::ld_parse::lemma_find_first(l, ')', q + 2, c);
    assert(l.subrange(c, c + 15) =~= ") : ORIGIN = 0x"@);
    assert forall|j: int| a <= j < e1 implies is_hex(l[j]) by {
        assert(l[j] == ha[j - a]);
    }
    lemma_hex_run(l, a, e1);
    assert(l.subrange(e1, e1 + 13) =~= ", LENGTH = 0x"@);
    assert forall|j: int| b <= j < e2 implies is_hex(l[j]) by {
        assert(l[j] == hs[j - b]);
    }
    lemma_hex_run(l, b, e2);
    assert(l.subrange(a, e1) =~= ha);
    assert(l.subrange(b, e2) =~= hs);
    assert(l.subrange(4, q) =~= name);
    assert(l.subrange(q + 2, c) =~= fl);
    assert(flags_of(fl) == Some((r.read, r.write, r.execute)));
}

proof fn lemma_rread_concat(st: RegionsRead, l1: Seq<Seq<char>>, l2: Seq<Seq<char>>)
    ensures
        read_region_lines(st, l1 + l2) == read_region_lines(read_region_lines(st, l1), l2),
    decreases l2.len(),
{
    if l2.len() == 0 {
        assert(l1 + l2 =~= l1);
    } else {
        lemma_rread_concat(st, l1, l2.drop_last());
        assert((l1 + l2).drop_last() =~= l1 + l2.drop_last());
        assert((l1 + l2).last() == l2.last());
    }
}

proof fn lemma_rread_one(st: RegionsRead, l: Seq<char>)
    ensures
        read_region_lines(st, seq![l]) == region_step(st, l),
{
    assert(seq![l].drop_last() =~= Seq::<Seq<char>>::empty());
    assert(read_region_lines(st, Seq::<Seq<char>>::empty()) == st);
}

/// A line that holds no region and does not start the `SECTIONS` block.
pub open spec fn region_inert(l: Seq<char>) -> bool {
    l.len() == 0 || (l[0] != ' ' && l[0] != 'S')
}

proof fn lemma_region_inert(st: RegionsRead, l: Seq<char>)
    requires
        region_inert(l),
    ensures
        region_step(st, l) == st,
{
    reveal_strlit("    ");
    reveal_strlit("SECTIONS {");
    if l.len() > 0 {
        if l == "SECTIONS {"@ {
            assert("SECTIONS {"@[0] == 'S');
        }
        if occurs_at(l, 0, "    "@) {
            assert(l.subrange(0, 4)[0] == l[0]);
        }
    } else {
        assert(l != "SECTIONS {"@);
    }
}

proof fn lemma_rinert_lines(st: RegionsRead, ls: Seq<Seq<char>>)
    requires
        forall|k: int| 0 <= k < ls.len() ==> region_inert(#[trigger] ls[k]),
    ensures
        read_region_lines(st, ls) == st,
    decreases ls.len(),
{
    if ls.len() > 0 {
        lemma_rinert_lines(st, ls.drop_last());
        assert(region_inert(ls[ls.len() - 1]));
        lemma_region_inert(st, ls.last());
    }
}

proof fn lemma_rstopped(st: RegionsRead, ls: Seq<Seq<char>>)
    requires
        st.1,
    ensures
        read_region_lines(st, ls) == st,
    decreases ls.len(),
{
    if ls.len() > 0 {
        lemma_rstopped(st, ls.drop_last());
    }
}

proof fn lemma_rinert_each<T>(st: RegionsRead, v: Seq<T>, f: spec_fn(T) -> Seq<char>)
    requires
        forall|k: int| 0 <= k < v.len() ==> {
            let l = #[trigger] f(v[k]);
            l.len() > 0 && l.last() == '\n' && no_lf(l.drop_last()) && region_inert(l.drop_last())
        },
    ensures
        read_region_lines(st, crate::ld_parse::lines_each(v, f)) == st,
    decreases v.len(),
{
    if v.len() > 0 {
        let w = v.drop_last();
        assert forall|k: int| 0 <= k < w.len() implies {
            let l = #[trigger] f(w[k]);
            l.len() > 0 && l.last() == '\n' && no_lf(l.drop_last()) && region_inert(l.drop_last())
        } by {
            assert(w[k] == v[k]);
        }
        lemma_rinert_each(st, w, f);
        let l = f(v[v.len() - 1]);
        assert(l.drop_last().push('\n') =~= l);
        crate::ld_parse::lemma_one_line(l.drop_last());
        lemma_rread_concat(st, crate::ld_parse::lines_each(w, f), lines_of(l));
        lemma_rread_one(st, l.drop_last());
        lemma_region_inert(st, l.drop_last());
    }
}

pub open spec fn region_views(v: Seq<(String, LdRegion)>) -> Seq<(Seq<char>, LdRegion)> {
    v.map_values(|m: (String, LdRegion)| (m.0@, m.1))
}

/// A name that a region line can carry: not empty, without space or line feed.
pub open spec fn region_name(n: Seq<char>) -> bool {
    n.len() > 0 && forall|i: int| 0 <= i < n.len() ==> n[i] != ' ' && n[i] != '\n'
}

proof fn lemma_region_line_no_lf(name: Seq<char>, r: LdRegion)
    requires
        region_name(name),
    ensures
        no_lf(region_line(name, r)),
{
    reveal_strlit("    ");
    reveal_strlit(") : ORIGIN = 0x");
    reveal_strlit(", LENGTH = 0x");
    let x = region_line(name, r);
    let ha = hex(r.address as nat);
    let hs = hex(r.size as nat);
    lemma_hex(r.address as nat);
    lemma_hex(r.size as nat);
    let fl = flag(r.read, 'r') + flag(r.write, 'w') + flag(r.execute, 'x');
    assert(x =~= "    "@ + name + seq![' ', '('] + fl + ") : ORIGIN = 0x"@ + ha + ", LENGTH = 0x"@ + hs);
    let q: int = 4 + name.len() as int;
    let c: int = q + 2 + fl.len() as int;
    let a: int = c + 15;
    let e1: int = a + ha.len() as int;
    let b: int = e1 + 13;
    assert forall|k: int| 0 <= k < x.len() implies x[k] != '\n' by {
        if 4 <= k < q {
            assert(x[k] == name[k - 4]);
        } else if a <= k < e1 {
            assert(x[k] == ha[k - a]);
            assert(is_hex(ha[k - a]));
        } else if b <= k {
            assert(x[k] == hs[k - b]);
            assert(is_hex(hs[k - b]));
        }
    }
}

proof fn lemma_memory_line_lines(m: (String, LdRegion))
    requires
        region_name(m.0@),
    ensures
        lines_of(crate::ld_script::memory_line(m)) == seq![region_line(m.0@, m.1), Seq::<char>::empty()],
{
    reveal_strlit("    ");
    reveal_strlit(") : ORIGIN = 0x");
    reveal_strlit(", LENGTH = 0x");
    let x = region_line(m.0@, m.1);
    lemma_region_line_no_lf(m.0@, m.1);
    assert(crate::ld_script::memory_line(m) =~= x.push('\n') + seq!['\n']);
    crate::ld_parse::lemma_lines_join(x.push('\n'), seq!['\n']);
    crate::ld_parse::lemma_one_line(x);
    crate::ld_parse::lemma_one_line(Seq::empty());
    assert(Seq::<char>::empty().push('\n') =~= seq!['\n']);
    assert(seq![x] + seq![Seq::<char>::empty()] =~= seq![x, Seq::<char>::empty()]);
}

proof fn lemma_region_lines(st: RegionsRead, v: Seq<(String, LdRegion)>)
    requires
        !st.1,
        forall|k: int| 0 <= k < v.len() ==> region_name(#[trigger] v[k].0@),
    ensures
        read_region_lines(st, crate::ld_parse::lines_each(v, |m: (String, LdRegion)| crate::ld_script::memory_line(m)))
            == (st.0 + region_views(v), false),
    decreases v.len(),
{
    reveal_strlit("    ");
    reveal_strlit(") : ORIGIN = 0x");
    reveal_strlit(", LENGTH = 0x");
    let f = |m: (String, LdRegion)| crate::ld_script::memory_line(m);
    if v.len() == 0 {
        assert(st.0 + region_views(v) =~= st.0);
    } else {
        let w = v.drop_last();
        assert forall|k: int| 0 <= k < w.len() implies region_name(#[trigger] w[k].0@) by {
            assert(w[k] == v[k]);
        }
        lemma_region_lines(st, w);
        let m = v.last();
        assert(region_name(v[v.len() - 1].0@));
        let x = region_line(m.0@, m.1);
        lemma_memory_line_lines(m);
        let mid = (st.0 + region_views(w), false);
        lemma_rread_concat(st, crate::ld_parse::lines_each(w, f), lines_of(f(m)));
        lemma_rread_concat(mid, seq![x], seq![Seq::<char>::empty()]);
        assert(seq![x] + seq![Seq::<char>::empty()] =~= seq![x, Seq::<char>::empty()]);
        lemma_rread_one(mid, x);
        lemma_region_line(m.0@, m.1);
        assert(x != "SECTIONS {"@) by {
            reveal_strlit("SECTIONS {");
            assert(x[0] == ' ');
        }
        lemma_rread_one(region_step(mid, x), Seq::empty());
        lemma_region_inert(region_step(mid, x), Seq::empty());
        assert(region_views(v) =~= region_views(w).push((m.0@, m.1)));
        assert(st.0 + region_views(w).push((m.0@, m.1)) =~= (st.0 + region_views(w)).push((m.0@, m.1)));
    }
}

/// Reading back the text of a linker script gives its memory regions, in
/// order, and notes whether it has a `SECTIONS` block; this holds whenever
/// every region name is non-empty and holds no space or line feed, no other
/// name holds a line feed, and no `PROVIDE` statement spans lines.
#[verifier::rlimit(60)]
pub proof fn lemma_ld_regions_round_trip(s: &LdScript)
    requires
        match s.entry {
            Some(e) => no_lf(e@),
            None => true,
        },
        forall|k: int| 0 <= k < s.externs@.len() ==> no_lf(#[trigger] s.externs@[k]@),
        forall|k: int| 0 <= k < s.includes@.len() ==> no_lf(#[trigger] s.includes@[k]@),
        forall|k: int| 0 <= k < s.memory@.len() ==> region_name(#[trigger] s.memory@[k].0@),
        forall|k: int| 0 <= k < s.provides@.len() ==> no_lf(#[trigger] provide_line(s.provides@[k]).drop_last()),
    ensures
        regions_of(script_text(s)) == (region_views(s.memory@), s.sections@.len() > 0),
{
    reveal_strlit("MEMORY {\n");
    reveal_strlit("MEMORY {");
    reveal_strlit("}");
    reveal_strlit("}\n");
    reveal_strlit("ENTRY(");
    reveal_strlit(");");
    reveal_strlit(");\n");
    reveal_strlit("EXTERN(");
    reveal_strlit("INCLUDE ");
    reveal_strlit("SECTIONS {\n");
    reveal_strlit("SECTIONS {");
    reveal_strlit("PROVIDE(");
    let fm = |m: (String, LdRegion)| memory_line(m);
    let fe = |n: String| extern_line(n);
    let fp = |p: (String, LdProvideExpr)| provide_line(p);
    let fi = |n: String| include_line(n);
    let fs = |n: String| section_text(n);
    let mem = if s.memory@.len() == 0 {
        Seq::empty()
    } else {
        "MEMORY {\n"@ + concat_map(s.memory@, fm) + "}\n"@
    };
    let ent = match &s.entry {
        Some(e) => "ENTRY("@ + e@ + ");\n"@,
        None => Seq::empty(),
    };
    let ext = concat_map(s.externs@, fe);
    let prov = concat_map(s.provides@, fp);
    let inc = concat_map(s.includes@, fi);
    let sec = if s.sections@.len() == 0 {
        Seq::empty()
    } else {
        "SECTIONS {\n"@ + concat_map(s.sections@, fs) + "}\n"@
    };
    assert(script_text(s) == mem + ent + ext + prov + inc + sec);
    let init: RegionsRead = (Seq::empty(), false);
    let st_m: RegionsRead = (region_views(s.memory@), false);
    if s.memory@.len() > 0 {
        assert forall|k: int| 0 <= k < s.memory@.len() implies (#[trigger] fm(s.memory@[k])).len() > 0 && fm(s.memory@[k]).last() == '\n' by {
        }
        crate::ld_parse::lemma_lines_concat_map(s.memory@, fm);
        let cm = concat_map(s.memory@, fm);
        crate::ld_parse::lemma_lines_join("MEMORY {\n"@, cm + "}\n"@);
        assert("MEMORY {\n"@ + concat_map(s.memory@, fm) + "}\n"@ =~= "MEMORY {\n"@ + (cm + "}\n"@));
        if cm.len() == 0 {
            assert(fm(s.memory@[0]).len() > 0);
        }
        crate::ld_parse::lemma_lines_join(cm, "}\n"@);
        crate::ld_parse::lemma_one_line("MEMORY {"@);
        assert("MEMORY {"@.push('\n') =~= "MEMORY {\n"@);
        crate::ld_parse::lemma_one_line("}"@);
        assert("}"@.push('\n') =~= "}\n"@);
        let body = crate::ld_parse::lines_each(s.memory@, fm);
        assert(lines_of(mem) =~= seq!["MEMORY {"@] + (body + seq!["}"@]));
        lemma_rread_concat(init, seq!["MEMORY {"@], body + seq!["}"@]);
        lemma_rread_one(init, "MEMORY {"@);
        lemma_region_inert(init, "MEMORY {"@);
        lemma_rread_concat(init, body, seq!["}"@]);
        lemma_region_lines(init, s.memory@);
        assert(init.0 + region_views(s.memory@) =~= region_views(s.memory@));
        lemma_rread_one(st_m, "}"@);
        lemma_region_inert(st_m, "}"@);
    } else {
        assert(region_views(s.memory@) =~= Seq::<(Seq<char>, LdRegion)>::empty());
    }
    assert(read_region_lines(init, lines_of(mem)) == st_m);
    match &s.entry {
        Some(e) => {
            let g = "ENTRY("@ + e@ + ");"@;
            assert(ent == "ENTRY("@ + e@ + ");\n"@);
            assert(ent =~= g.push('\n'));
            assert(no_lf(g));
            crate::ld_parse::lemma_one_line(g);
            lemma_rread_one(st_m, g);
            assert(g[0] == 'E');
            lemma_region_inert(st_m, g);
        },
        None => {},
    }
    assert(read_region_lines(st_m, lines_of(ent)) == st_m);
    assert forall|k: int| 0 <= k < s.externs@.len() implies (#[trigger] fe(s.externs@[k])).len() > 0 && fe(s.externs@[k]).last() == '\n' by {
    }
    crate::ld_parse::lemma_lines_concat_map(s.externs@, fe);
    assert forall|k: int| 0 <= k < s.externs@.len() implies {
        let l = #[trigger] fe(s.externs@[k]);
        l.len() > 0 && l.last() == '\n' && no_lf(l.drop_last()) && region_inert(l.drop_last())
    } by {
        let l = fe(s.externs@[k]);
        assert(l.drop_last() =~= "EXTERN("@ + s.externs@[k]@ + ");"@);
        assert(l.drop_last()[0] == 'E');
    }
    lemma_rinert_each(st_m, s.externs@, fe);
    assert forall|k: int| 0 <= k < s.provides@.len() implies (#[trigger] fp(s.provides@[k])).len() > 0 && fp(s.provides@[k]).last() == '\n' by {
    }
    crate::ld_parse::lemma_lines_concat_map(s.provides@, fp);
    assert forall|k: int| 0 <= k < s.provides@.len() implies {
        let l = #[trigger] fp(s.provides@[k]);
        l.len() > 0 && l.last() == '\n' && no_lf(l.drop_last()) && region_inert(l.drop_last())
    } by {
        let l = fp(s.provides@[k]);
        assert(l.drop_last()[0] == 'P');
    }
    lemma_rinert_each(st_m, s.provides@, fp);
    assert forall|k: int| 0 <= k < s.includes@.len() implies (#[trigger] fi(s.includes@[k])).len() > 0 && fi(s.includes@[k]).last() == '\n' by {
    }
    crate::ld_parse::lemma_lines_concat_map(s.includes@, fi);
    assert forall|k: int| 0 <= k < s.includes@.len() implies {
        let l = #[trigger] fi(s.includes@[k]);
        l.len() > 0 && l.last() == '\n' && no_lf(l.drop_last()) && region_inert(l.drop_last())
    } by {
        let l = fi(s.includes@[k]);
        assert(l.drop_last() =~= "INCLUDE "@ + s.includes@[k]@);
        assert(l.drop_last()[0] == 'I');
    }
    lemma_rinert_each(st_m, s.includes@, fi);
    if s.sections@.len() > 0 {
        crate::ld_parse::lemma_lines_join("SECTIONS {\n"@, concat_map(s.sections@, fs) + "}\n"@);
        assert(sec =~= "SECTIONS {\n"@ + (concat_map(s.sections@, fs) + "}\n"@));
        crate::ld_parse::lemma_one_line("SECTIONS {"@);
        assert("SECTIONS {"@.push('\n') =~= "SECTIONS {\n"@);
        let rest = lines_of(concat_map(s.sections@, fs) + "}\n"@);
        lemma_rread_concat(st_m, seq!["SECTIONS {"@], rest);
        lemma_rread_one(st_m, "SECTIONS {"@);
        lemma_rstopped((st_m.0, true), rest);
    } else {
        assert(lines_of(sec) =~= Seq::<Seq<char>>::empty());
    }
    crate::ld_parse::lemma_lines_join(mem, ent);
    crate::ld_parse::lemma_lines_join(mem + ent, ext);
    crate::ld_parse::lemma_lines_join(mem + ent + ext, prov);
    crate::ld_parse::lemma_lines_join(mem + ent + ext + prov, inc);
    crate::ld_parse::lemma_lines_join(mem + ent + ext + prov + inc, sec);
    lemma_rread_concat(init, lines_of(mem), lines_of(ent));
    lemma_rread_concat(init, lines_of(mem) + lines_of(ent), lines_of(ext));
    lemma_rread_concat(init, lines_of(mem) + lines_of(ent) + lines_of(ext), lines_of(prov));
    lemma_rread_concat(init, lines_of(mem) + lines_of(ent) + lines_of(ext) + lines_of(prov), lines_of(inc));
    lemma_rread_concat(init, lines_of(mem) + lines_of(ent) + lines_of(ext) + lines_of(prov) + lines_of(inc), lines_of(sec));
}

fn is_hex_char(c: char) -> (r: bool)
    ensures
        r == is_hex(c),
{
    ('0' <= c && c <= '9') || ('a' <= c && c <= 'f')
}

fn skip_hex(l: &Vec<char>, from: usize) -> (r: usize)
    requires
        from <= l@.len(),
    ensures
        r as int == hex_end(l@, from as int),
        from <= r <= l@.len(),
{
    let mut j = from;
    while j < l.len() && is_hex_char(l[j])
        invariant
            from <= j <= l@.len(),
            hex_end(l@, from as int) == hex_end(l@, j as int),
        decreases l@.len() - j,
    {
        j = j + 1;
    }
    j
}

proof fn lemma_hex_end_run(s: Seq<char>, i: int)
    requires
        0 <= i <= s.len(),
    ensures
        forall|j: int| i <= j < hex_end(s, i) ==> is_hex(s[j]),
    decreases s.len() - i,
{
    if i < s.len() && is_hex(s[i]) {
        lemma_hex_end_run(s, i + 1);
    }
}

proof fn lemma_hex_grows(s: Seq<char>, i: int, k: int, e: int)
    requires
        0 <= i <= k <= e <= s.len(),
    ensures
        hex_value(s.subrange(i, k)) <= hex_value(s.subrange(i, e)),
    decreases e - k,
{
    if k < e {
        lemma_hex_grows(s, i, k, e - 1);
        assert(s.subrange(i, e).drop_last() =~= s.subrange(i, e - 1));
    }
}

/// The value of the hex digits `l[from..to]`, if it fits in 64 bits.
fn hex_number(l: &Vec<char>, from: usize, to: usize) -> (r: Option<u64>)
    requires
        from <= to <= l@.len(),
        forall|j: int| from <= j < to ==> is_hex(l@[j]),
    ensures
        hex_value(l@.subrange(from as int, to as int)) <= u64::MAX ==> r == Some(hex_value(l@.subrange(from as int, to as int)) as u64),
        hex_value(l@.subrange(from as int, to as int)) > u64::MAX ==> r is None,
{
    let mut v: u128 = 0;
    let mut k = from;
    while k < to
        invariant
            from <= k <= to <= l@.len(),
            forall|j: int| from <= j < to ==> is_hex(l@[j]),
            v as nat == hex_value(l@.subrange(from as int, k as int)),
            v <= u64::MAX,
        decreases to - k,
    {
        let c = l[k];
        let d: u128 = if '0' <= c && c <= '9' { (c as u32 - '0' as u32) as u128 } else { (c as u32 - 'a' as u32 + 10) as u128 };
        proof {
            assert(l@.subrange(from as int, k + 1).drop_last() =~= l@.subrange(from as int, k as int));
            assert(is_hex(l@[k as int]));
        }
        v = v * 16 + d;
        k = k + 1;
        if v > 0xffff_ffff_ffff_ffff {
            proof {
                lemma_hex_grows(l@, from as int, k as int, to as int);
            }
            return None;
        }
    }
    Some(v as u64)
}

fn text_at(l: &Vec<char>, at: usize, p: &str) -> (r: bool)
    ensures
        r == occurs_at(l@, at as int, p@),
{
    let pv = chars_of(p);
    matches_at(l, at, &pv)
}

/// Reads a region line.
pub fn parse_region(l: &Vec<char>) -> (r: Option<(String, LdRegion)>)
    ensures
        match region_of(l@) {
            Some((n, reg)) => r is Some && (r->0).0@ == n && (r->0).1 == reg,
            None => r is None,
        },
{
    proof {
        reveal_strlit("    ");
        reveal_strlit(") : ORIGIN = 0x");
        reveal_strlit(", LENGTH = 0x");
    }
    let n = l.len();
    if !text_at(l, 0, "    ") {
        return None;
    }
    proof {
        lemma_find_from(l@, ' ', 4);
    }
    let q = find_char(l, ' ', 4);
    if !(4 < q && q < n && q + 1 < n && l[q + 1] == '(') {
        return None;
    }
    proof {
        lemma_find_from(l@, ')', q + 2);
    }
    let c = find_char(l, ')', q + 2);
    if !(c < n && text_at(l, c, ") : ORIGIN = 0x")) {
        return None;
    }
    let a = c + 15;
    let e1 = skip_hex(l, a);
    if !(e1 > a && text_at(l, e1, ", LENGTH = 0x")) {
        return None;
    }
    let b = e1 + 13;
    let e2 = skip_hex(l, b);
    if !(e2 > b && e2 == n) {
        return None;
    }
    proof {
        lemma_hex_end_run(l@, a as int);
        lemma_hex_end_run(l@, b as int);
    }
    let address = match hex_number(l, a, e1) {
        Some(v) => v,
        None => { return None; },
    };
    let size = match hex_number(l, b, e2) {
        Some(v) => v,
        None => { return None; },
    };
    let ghost f = l@.subrange(q + 2, c as int);
    let mut k = q + 2;
    let read = k < c && l[k] == 'r';
    if read {
        k = k + 1;
    }
    let write = k < c && l[k] == 'w';
    if write {
        k = k + 1;
    }
    let execute = k < c && l[k] == 'x';
    if execute {
        k = k + 1;
    }
    proof {
        assert(f.len() == c - q - 2);
        assert(read == (f.len() > 0 && f[0] == 'r'));
    }
    if k != c {
        return None;
    }
    let name = crate::deps::copy_range(l, 4, q);
    Some((string_of(&name), LdRegion { address, size, read, write, execute }))
}

/// The memory regions read back from a linker-script text.
#[derive(Debug, Clone, PartialEq, Eq)]
pub struct LdRegionsRead {
    pub regions: Vec<(String, LdRegion)>,
    /// The `SECTIONS` block was reached.
    pub sections: bool,
}

impl LdRegionsRead {
    /// Reads the region lines of a linker-script text, up to a `SECTIONS {` line.
    pub fn read(text: &str) -> (r: LdRegionsRead)
        ensures
            (region_views(r.regions@), r.sections) == regions_of(text@),
    {
        let t = chars_of(text);
        let n = t.len();
        let mut r = LdRegionsRead { regions: Vec::new(), sections: false };
        let ghost mut done: Seq<Seq<char>> = Seq::empty();
        let mut i: usize = 0;
        proof {
            assert(region_views(r.regions@) =~= Seq::<(Seq<char>, LdRegion)>::empty());
            assert(done + lines_from(t@, 0) =~= lines_of(t@));
        }
        while i < n
            invariant
                n == t@.len(),
                i <= n,
                done + lines_from(t@, i as int) == lines_of(t@),
                (region_views(r.regions@), r.sections) == read_region_lines((Seq::empty(), false), done),
            decreases n - i,
        {
            proof {
                lemma_find_from(t@, '\n', i as int);
            }
            let e = find_char(&t, '\n', i);
            let line = crate::deps::copy_range(&t, i, e);
            let ghost l = line@;
            let ghost before = (region_views(r.regions@), r.sections);
            if !r.sections {
                let pv = chars_of("SECTIONS {");
                let is_sections = line.len() == pv.len() && matches_at(&line, 0, &pv);
                proof {
                    assert(l =~= l.subrange(0, l.len() as int));
                }
                if is_sections {
                    r.sections = true;
                } else {
                    match parse_region(&line) {
                        Some(m) => {
                            let ghost r0 = r.regions@;
                            r.regions.push(m);
                            proof {
                                assert(region_views(r.regions@) =~= region_views(r0).push((m.0@, m.1)));
                            }
                        },
                        None => {},
                    }
                }
            }
            proof {
                assert((region_views(r.regions@), r.sections) == region_step(before, l));
                assert(read_region_lines((Seq::empty(), false), done.push(l)) == region_step(
                    read_region_lines((Seq::empty(), false), done),
                    l,
                )) by {
                    assert(done.push(l).drop_last() =~= done);
                }
                if e < n {
                    assert(done.push(l) + lines_from(t@, e + 1) =~= done + lines_from(t@, i as int));
                } else {
                    assert(done.push(l) + lines_from(t@, n as int) =~= done + lines_from(t@, i as int));
                }
                done = done.push(l);
            }
            if e < n {
                i = e + 1;
            } else {
                i = n;
            }
        }
        proof {
            assert(done + Seq::<Seq<char>>::empty() =~= done);
        }
        r
    }
}

} // verus!
