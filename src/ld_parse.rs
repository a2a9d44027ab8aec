//! Reading back the statements of a linker-script text: `ENTRY`, `EXTERN`
//! and `INCLUDE`, up to the `SECTIONS` block.

use vstd::prelude::*;
use crate::scan::{find_char, find_from, lemma_find_from};
use crate::text::{chars_of, matches_at, occurs_at, string_of};
use crate::ld_script::{
    concat_map, extern_line, flag, hex, hex_char, include_line, memory_line, provide_line, region_text,
    script_text, section_text, LdProvideExpr, LdRegion, LdScript,
};
use crate::options::views;

verus! {

/// The lines of `t` from `i` on; a line feed ends a line.
pub open spec fn lines_from(t: Seq<char>, i: int) -> Seq<Seq<char>>
    decreases t.len() - i,
{
    if i < 0 || i >= t.len() {
        Seq::empty()
    } else {
        let e = find_from(t, '\n', i);
        if i <= e < t.len() {
            seq![t.subrange(i, e)] + lines_from(t, e + 1)
        } else {
            seq![t.subrange(i, t.len() as int)]
        }
    }
}

pub open spec fn lines_of(t: Seq<char>) -> Seq<Seq<char>> {
    lines_from(t, 0)
}

/// What the statements read so far say: the entry, the externs and the
/// includes, and whether the `SECTIONS` block has been reached.
pub type LdStatements = (Option<Seq<char>>, Seq<Seq<char>>, Seq<Seq<char>>, bool);

/// `l` is `p`, an argument, and `q`.
pub open spec fn wrapped(l: Seq<char>, p: Seq<char>, q: Seq<char>) -> bool {
    l.len() >= p.len() + q.len() && l.subrange(0, p.len() as int) == p && l.subrange(
        l.len() - q.len(),
        l.len() as int,
    ) == q
}

pub open spec fn argument(l: Seq<char>, p: Seq<char>, q: Seq<char>) -> Seq<char> {
    l.subrange(p.len() as int, l.len() - q.len())
}

/// What one line changes.
pub open spec fn step(st: LdStatements, l: Seq<char>) -> LdStatements {
    if st.3 {
        st
    } else if l == "SECTIONS {"@ {
        (st.0, st.1, st.2, true)
    } else if wrapped(l, "ENTRY("@, ");"@) {
        (Some(argument(l, "ENTRY("@, ");"@)), st.1, st.2, false)
    } else if wrapped(l, "EXTERN("@, ");"@) {
        (st.0, st.1.push(argument(l, "EXTERN("@, ");"@)), st.2, false)
    } else if wrapped(l, "INCLUDE "@, Seq::empty()) {
        (st.0, st.1, st.2.push(argument(l, "INCLUDE "@, Seq::empty())), false)
    } else {
        st
    }
}

/// The statements of the lines `ls`, read after `st`.
pub open spec fn read_lines(st: LdStatements, ls: Seq<Seq<char>>) -> LdStatements
    decreases ls.len(),
{
    if ls.len() == 0 {
        st
    } else {
        step(read_lines(st, ls.drop_last()), ls.last())
    }
}

pub open spec fn no_statements() -> LdStatements {
    (None, Seq::empty(), Seq::empty(), false)
}

/// The statements of a linker-script text.
pub open spec fn statements_of(t: Seq<char>) -> LdStatements {
    read_lines(no_statements(), lines_of(t))
}

pub open spec fn no_lf(l: Seq<char>) -> bool {
    forall|k: int| 0 <= k < l.len() ==> l[k] != '\n'
}

pub(crate) proof fn lemma_find_first(s: Seq<char>, c: char, i: int, k: int)
    requires
        0 <= i <= k <= s.len(),
        k < s.len() ==> s[k] == c,
        forall|j: int| i <= j < k ==> s[j] != c,
    ensures
        find_from(s, c, i) == k,
    decreases k - i,
{
    if i < k {
        lemma_find_first(s, c, i + 1, k);
    }
}

proof fn lemma_lines_shift(x: Seq<char>, b: Seq<char>, j: int)
    requires
        0 <= j <= b.len(),
    ensures
        lines_from(x + b, x.len() + j) == lines_from(b, j),
    decreases b.len() - j,
{
    let t = x + b;
    let i = x.len() + j;
    if j < b.len() {
        let e = find_from(b, '\n', j);
        lemma_find_from(b, '\n', j);
        assert forall|m: int| i <= m < x.len() + e implies t[m] != '\n' by {
            assert(t[m] == b[m - x.len()]);
        }
        lemma_find_first(t, '\n', i, x.len() + e);
        assert(t.subrange(i, x.len() + e) =~= b.subrange(j, e));
        if e < b.len() {
            lemma_lines_shift(x, b, e + 1);
        } else {
            assert(t.subrange(i, t.len() as int) =~= b.subrange(j, b.len() as int));
        }
    }
}

/// The lines of a text that ends with a line feed, followed by more text,
/// are its lines followed by those of the rest.
proof fn lemma_lines_concat(a: Seq<char>, b: Seq<char>, i: int)
    requires
        a.len() > 0,
        a.last() == '\n',
        0 <= i <= a.len(),
    ensures
        lines_from(a + b, i) == lines_from(a, i) + lines_from(b, 0),
    decreases a.len() - i,
{
    let t = a + b;
    if i == a.len() {
        lemma_lines_shift(a, b, 0);
        assert(lines_from(a, i) + lines_from(b, 0) =~= lines_from(b, 0));
    } else {
        let e = find_from(a, '\n', i);
        lemma_find_from(a, '\n', i);
        if e == a.len() {
            assert(a[a.len() - 1] != '\n');
        }
        assert forall|m: int| i <= m < e implies t[m] != '\n' by {
            assert(t[m] == a[m]);
        }
        lemma_find_first(t, '\n', i, e);
        assert(t.subrange(i, e) =~= a.subrange(i, e));
        lemma_lines_concat(a, b, e + 1);
        assert(seq![a.subrange(i, e)] + (lines_from(a, e + 1) + lines_from(b, 0)) =~= (seq![a.subrange(i, e)]
            + lines_from(a, e + 1)) + lines_from(b, 0));
    }
}

/// A line without a line feed, ended by one, is one line.
pub(crate) proof fn lemma_one_line(l: Seq<char>)
    requires
        no_lf(l),
    ensures
        lines_of(l.push('\n')) == seq![l],
{
    let t = l.push('\n');
    lemma_find_first(t, '\n', 0, l.len() as int);
    assert(t.subrange(0, l.len() as int) =~= l);
    assert(lines_from(t, l.len() as int + 1) == Seq::<Seq<char>>::empty());
    assert(seq![l] + Seq::<Seq<char>>::empty() =~= seq![l]);
}

proof fn lemma_read_concat(st: LdStatements, l1: Seq<Seq<char>>, l2: Seq<Seq<char>>)
    ensures
        read_lines(st, l1 + l2) == read_lines(read_lines(st, l1), l2),
    decreases l2.len(),
{
    if l2.len() == 0 {
        assert(l1 + l2 =~= l1);
    } else {
        lemma_read_concat(st, l1, l2.drop_last());
        assert((l1 + l2).drop_last() =~= l1 + l2.drop_last());
        assert((l1 + l2).last() == l2.last());
    }
}

/// A line that no statement starts with.
pub open spec fn inert(l: Seq<char>) -> bool {
    l.len() == 0 || (l[0] != 'S' && l[0] != 'E' && l[0] != 'I')
}

proof fn lemma_inert_lines(st: LdStatements, ls: Seq<Seq<char>>)
    requires
        forall|k: int| 0 <= k < ls.len() ==> inert(#[trigger] ls[k]),
    ensures
        read_lines(st, ls) == st,
    decreases ls.len(),
{
    reveal_strlit("SECTIONS {");
    reveal_strlit("ENTRY(");
    reveal_strlit("EXTERN(");
    reveal_strlit("INCLUDE ");
    if ls.len() > 0 {
        lemma_inert_lines(st, ls.drop_last());
        let l = ls.last();
        assert(inert(ls[ls.len() - 1]));
        if l.len() > 0 {
            assert(l != "SECTIONS {"@) by {
                if l == "SECTIONS {"@ {
                    assert(l[0] == 'S');
                }
            }
            assert(!wrapped(l, "ENTRY("@, ");"@)) by {
                if wrapped(l, "ENTRY("@, ");"@) {
                    assert(l.subrange(0, 6)[0] == l[0]);
                }
            }
            assert(!wrapped(l, "EXTERN("@, ");"@)) by {
                if wrapped(l, "EXTERN("@, ");"@) {
                    assert(l.subrange(0, 7)[0] == l[0]);
                }
            }
            assert(!wrapped(l, "INCLUDE "@, Seq::empty())) by {
                if wrapped(l, "INCLUDE "@, Seq::empty()) {
                    assert(l.subrange(0, 8)[0] == l[0]);
                }
            }
        } else {
            assert(l != "SECTIONS {"@);
        }
    }
}

/// The lines of each text of `v`, one after another.
pub open spec fn lines_each<T>(v: Seq<T>, f: spec_fn(T) -> Seq<char>) -> Seq<Seq<char>>
    decreases v.len(),
{
    if v.len() == 0 {
        Seq::empty()
    } else {
        lines_each(v.drop_last(), f) + lines_of(f(v.last()))
    }
}

pub(crate) proof fn lemma_lines_concat_map<T>(v: Seq<T>, f: spec_fn(T) -> Seq<char>)
    requires
        forall|k: int| 0 <= k < v.len() ==> (#[trigger] f(v[k])).len() > 0 && f(v[k]).last() == '\n',
    ensures
        lines_of(concat_map(v, f)) == lines_each(v, f),
        concat_map(v, f).len() == 0 || concat_map(v, f).last() == '\n',
    decreases v.len(),
{
    if v.len() > 0 {
        let w = v.drop_last();
        assert forall|k: int| 0 <= k < w.len() implies (#[trigger] f(w[k])).len() > 0 && f(w[k]).last() == '\n' by {
            assert(w[k] == v[k]);
        }
        lemma_lines_concat_map(w, f);
        let a = concat_map(w, f);
        let b = f(v.last());
        assert(f(v[v.len() - 1]).len() > 0);
        if a.len() == 0 {
            assert(a + b =~= b);
            assert(lines_each(w, f) =~= Seq::<Seq<char>>::empty()) by {
                assert(lines_of(a) == Seq::<Seq<char>>::empty());
            }
            assert(lines_each(w, f) + lines_of(b) =~= lines_of(b));
        } else {
            lemma_lines_concat(a, b, 0);
        }
        assert((a + b).last() == b.last());
    }
}

/// Once the `SECTIONS` block is reached, nothing changes.
proof fn lemma_stopped(st: LdStatements, ls: Seq<Seq<char>>)
    requires
        st.3,
    ensures
        read_lines(st, ls) == st,
    decreases ls.len(),
{
    if ls.len() > 0 {
        lemma_stopped(st, ls.drop_last());
    }
}

/// The lines of a list of one-line texts, when each reads as an inert line.
proof fn lemma_inert_each<T>(st: LdStatements, v: Seq<T>, f: spec_fn(T) -> Seq<char>)
    requires
        forall|k: int| 0 <= k < v.len() ==> {
            let l = #[trigger] f(v[k]);
            l.len() > 0 && l.last() == '\n' && no_lf(l.drop_last()) && inert(l.drop_last())
        },
    ensures
        read_lines(st, lines_each(v, f)) == st,
    decreases v.len(),
{
    if v.len() > 0 {
        let w = v.drop_last();
        assert forall|k: int| 0 <= k < w.len() implies {
            let l = #[trigger] f(w[k]);
            l.len() > 0 && l.last() == '\n' && no_lf(l.drop_last()) && inert(l.drop_last())
        } by {
            assert(w[k] == v[k]);
        }
        lemma_inert_each(st, w, f);
        let l = f(v[v.len() - 1]);
        assert(l.drop_last().push('\n') =~= l);
        lemma_one_line(l.drop_last());
        lemma_read_concat(st, lines_each(w, f), lines_of(l));
        lemma_inert_lines(st, seq![l.drop_last()]);
    }
}

proof fn lemma_extern_line(st: LdStatements, n: Seq<char>)
    requires
        !st.3,
    ensures
        step(st, "EXTERN("@ + n + ");"@) == (st.0, st.1.push(n), st.2, false),
{
    reveal_strlit("EXTERN(");
    reveal_strlit(");");
    reveal_strlit("ENTRY(");
    reveal_strlit("SECTIONS {");
    let l = "EXTERN("@ + n + ");"@;
    assert(l[0] == 'E');
    assert(l != "SECTIONS {"@) by {
        if l == "SECTIONS {"@ {
            assert("SECTIONS {"@[0] == 'S');
        }
    }
    assert(!wrapped(l, "ENTRY("@, ");"@)) by {
        if wrapped(l, "ENTRY("@, ");"@) {
            assert(l.subrange(0, 6)[1] == l[1]);
            assert(l[1] == 'X');
        }
    }
    assert(l.subrange(0, 7) =~= "EXTERN("@);
    assert(l.subrange(l.len() - 2, l.len() as int) =~= ");"@);
    assert(argument(l, "EXTERN("@, ");"@) =~= n);
}

proof fn lemma_include_line(st: LdStatements, n: Seq<char>)
    requires
        !st.3,
    ensures
        step(st, "INCLUDE "@ + n) == (st.0, st.1, st.2.push(n), false),
{
    reveal_strlit("INCLUDE ");
    reveal_strlit("EXTERN(");
    reveal_strlit(");");
    reveal_strlit("ENTRY(");
    reveal_strlit("SECTIONS {");
    let l = "INCLUDE "@ + n;
    assert(l[0] == 'I');
    assert(l != "SECTIONS {"@) by {
        if l == "SECTIONS {"@ {
            assert("SECTIONS {"@[0] == 'S');
        }
    }
    assert(!wrapped(l, "ENTRY("@, ");"@)) by {
        if wrapped(l, "ENTRY("@, ");"@) {
            assert(l.subrange(0, 6)[0] == l[0]);
        }
    }
    assert(!wrapped(l, "EXTERN("@, ");"@)) by {
        if wrapped(l, "EXTERN("@, ");"@) {
            assert(l.subrange(0, 7)[0] == l[0]);
        }
    }
    assert(l.subrange(0, 8) =~= "INCLUDE "@);
    assert(l.subrange(l.len() - 0, l.len() as int) =~= Seq::<char>::empty());
    assert(argument(l, "INCLUDE "@, Seq::empty()) =~= n);
}

proof fn lemma_entry_line(st: LdStatements, n: Seq<char>)
    requires
        !st.3,
    ensures
        step(st, "ENTRY("@ + n + ");"@) == (Some(n), st.1, st.2, false),
{
    reveal_strlit(");");
    reveal_strlit("ENTRY(");
    reveal_strlit("SECTIONS {");
    let l = "ENTRY("@ + n + ");"@;
    assert(l[0] == 'E');
    assert(l != "SECTIONS {"@) by {
        if l == "SECTIONS {"@ {
            assert("SECTIONS {"@[0] == 'S');
        }
    }
    assert(l.subrange(0, 6) =~= "ENTRY("@);
    assert(l.subrange(l.len() - 2, l.len() as int) =~= ");"@);
    assert(argument(l, "ENTRY("@, ");"@) =~= n);
}

proof fn lemma_read_one(st: LdStatements, l: Seq<char>)
    ensures
        read_lines(st, seq![l]) == step(st, l),
{
    assert(seq![l].drop_last() =~= Seq::<Seq<char>>::empty());
    assert(read_lines(st, Seq::<Seq<char>>::empty()) == st);
}

pub(crate) proof fn lemma_lines_join(a: Seq<char>, b: Seq<char>)
    requires
        a.len() == 0 || a.last() == '\n',
    ensures
        lines_of(a + b) == lines_of(a) + lines_of(b),
{
    if a.len() == 0 {
        assert(a + b =~= b);
        assert(lines_of(a) + lines_of(b) =~= lines_of(b));
    } else {
        lemma_lines_concat(a, b, 0);
    }
}

proof fn lemma_extern_lines(st: LdStatements, v: Seq<String>)
    requires
        !st.3,
        forall|k: int| 0 <= k < v.len() ==> no_lf(#[trigger] v[k]@),
    ensures
        read_lines(st, lines_each(v, |n: String| extern_line(n))) == (st.0, st.1 + views(v), st.2, false),
    decreases v.len(),
{
    reveal_strlit("EXTERN(");
    reveal_strlit(");");
    reveal_strlit(");\n");
    let f = |n: String| extern_line(n);
    if v.len() == 0 {
        assert(st.1 + views(v) =~= st.1);
    } else {
        let w = v.drop_last();
        assert forall|k: int| 0 <= k < w.len() implies no_lf(#[trigger] w[k]@) by {
            assert(w[k] == v[k]);
        }
        lemma_extern_lines(st, w);
        let n = v.last()@;
        assert(no_lf(v[v.len() - 1]@));
        let g = "EXTERN("@ + n + ");"@;
        assert(extern_line(v.last()) =~= g.push('\n'));
        assert(no_lf(g));
        lemma_one_line(g);
        lemma_read_concat(st, lines_each(w, f), lines_of(f(v.last())));
        let mid = (st.0, st.1 + views(w), st.2, false);
        lemma_read_one(mid, g);
        lemma_extern_line(mid, n);
        assert(views(v) =~= views(w).push(n));
        assert(st.1 + views(w).push(n) =~= (st.1 + views(w)).push(n));
    }
}

proof fn lemma_include_lines(st: LdStatements, v: Seq<String>)
    requires
        !st.3,
        forall|k: int| 0 <= k < v.len() ==> no_lf(#[trigger] v[k]@),
    ensures
        read_lines(st, lines_each(v, |n: String| include_line(n))) == (st.0, st.1, st.2 + views(v), false),
    decreases v.len(),
{
    reveal_strlit("INCLUDE ");
    let f = |n: String| include_line(n);
    if v.len() == 0 {
        assert(st.2 + views(v) =~= st.2);
    } else {
        let w = v.drop_last();
        assert forall|k: int| 0 <= k < w.len() implies no_lf(#[trigger] w[k]@) by {
            assert(w[k] == v[k]);
        }
        lemma_include_lines(st, w);
        let n = v.last()@;
        assert(no_lf(v[v.len() - 1]@));
        let g = "INCLUDE "@ + n;
        assert(include_line(v.last()) =~= g.push('\n'));
        assert(no_lf(g));
        lemma_one_line(g);
        lemma_read_concat(st, lines_each(w, f), lines_of(f(v.last())));
        let mid = (st.0, st.1, st.2 + views(w), false);
        lemma_read_one(mid, g);
        lemma_include_line(mid, n);
        assert(views(v) =~= views(w).push(n));
        assert(st.2 + views(w).push(n) =~= (st.2 + views(w)).push(n));
    }
}

proof fn lemma_hex_no_lf(n: nat)
    ensures
        no_lf(hex(n)),
    decreases n,
{
    if n >= 16 {
        lemma_hex_no_lf(n / 16);
        assert(hex_char(n % 16) != '\n');
    } else {
        assert(hex_char(n) != '\n');
    }
}

proof fn lemma_memory_lines(st: LdStatements, v: Seq<(String, LdRegion)>)
    requires
        !st.3,
        forall|k: int| 0 <= k < v.len() ==> no_lf(#[trigger] v[k].0@),
    ensures
        read_lines(st, lines_each(v, |m: (String, LdRegion)| memory_line(m))) == st,
    decreases v.len(),
{
    reveal_strlit("    ");
    reveal_strlit(") : ORIGIN = 0x");
    reveal_strlit(", LENGTH = 0x");
    let f = |m: (String, LdRegion)| memory_line(m);
    if v.len() > 0 {
        let w = v.drop_last();
        assert forall|k: int| 0 <= k < w.len() implies no_lf(#[trigger] w[k].0@) by {
            assert(w[k] == v[k]);
        }
        lemma_memory_lines(st, w);
        let m = v.last();
        assert(no_lf(v[v.len() - 1].0@));
        let r = m.1;
        lemma_hex_no_lf(r.address as nat);
        lemma_hex_no_lf(r.size as nat);
        let x = "    "@ + m.0@ + seq![' '] + region_text(r).drop_last();
        assert(region_text(r).drop_last() =~= seq!['('] + flag(r.read, 'r') + flag(r.write, 'w') + flag(r.execute, 'x')
            + ") : ORIGIN = 0x"@ + hex(r.address as nat) + ", LENGTH = 0x"@ + hex(r.size as nat));
        assert(no_lf(x));
        assert(memory_line(m) =~= x.push('\n') + seq!['\n']);
        lemma_lines_join(x.push('\n'), seq!['\n']);
        lemma_one_line(x);
        lemma_one_line(Seq::empty());
        assert(Seq::<char>::empty().push('\n') =~= seq!['\n']);
        lemma_read_concat(st, lines_each(w, f), lines_of(f(m)));
        assert(x[0] == ' ');
        assert(lines_of(f(m)) =~= seq![x, Seq::<char>::empty()]);
        lemma_inert_lines(st, seq![x, Seq::<char>::empty()]);
    }
}

/// Reading back the text of a linker script gives its entry point, its
/// externs and its includes, in order, and notes whether it has a
/// `SECTIONS` block; this holds whenever no name in it holds a line feed and
/// no `PROVIDE` statement spans lines. (Provided expressions themselves do
/// not read back: a sum of one term prints as the term.)
pub proof fn lemma_ld_round_trip(s: &LdScript)
    requires
        match s.entry {
            Some(e) => no_lf(e@),
            None => true,
        },
        forall|k: int| 0 <= k < s.externs@.len() ==> no_lf(#[trigger] s.externs@[k]@),
        forall|k: int| 0 <= k < s.includes@.len() ==> no_lf(#[trigger] s.includes@[k]@),
        forall|k: int| 0 <= k < s.memory@.len() ==> no_lf(#[trigger] s.memory@[k].0@),
        forall|k: int| 0 <= k < s.provides@.len() ==> no_lf(#[trigger] provide_line(s.provides@[k]).drop_last()),
    ensures
        statements_of(script_text(s)) == (
            match s.entry {
                Some(e) => Some(e@),
                None => None,
            },
            views(s.externs@),
            views(s.includes@),
            s.sections@.len() > 0,
        ),
{
    reveal_strlit("MEMORY {\n");
    reveal_strlit("MEMORY {");
    reveal_strlit("}");
    reveal_strlit("}\n");
    reveal_strlit("ENTRY(");
    reveal_strlit(");\n");
    reveal_strlit("SECTIONS {\n");
    reveal_strlit("SECTIONS {");
    reveal_strlit("PROVIDE(");
    let fm = |m: (String, LdRegion)| memory_line(m);
    let fe = |n: String| extern_line(n);
    let fp = |p: (String, LdProvideExpr)| provide_line(p);
    let fi = |n: String| include_line(n);
    let fs = |n: String| section_text(n);
    let mem = if s.memory@.len() == 0 {
        Seq::empty()
    } else {
        "MEMORY {\n"@ + concat_map(s.memory@, fm) + "}\n"@
    };
    let ent = match &s.entry {
        Some(e) => "ENTRY("@ + e@ + ");\n"@,
        None => Seq::empty(),
    };
    let ext = concat_map(s.externs@, fe);
    let prov = concat_map(s.provides@, fp);
    let inc = concat_map(s.includes@, fi);
    let sec = if s.sections@.len() == 0 {
        Seq::empty()
    } else {
        "SECTIONS {\n"@ + concat_map(s.sections@, fs) + "}\n"@
    };
    assert(script_text(s) == mem + ent + ext + prov + inc + sec);
    let init = no_statements();
    // The memory block reads as nothing.
    let l_mem = lines_of(mem);
    if s.memory@.len() > 0 {
        assert forall|k: int| 0 <= k < s.memory@.len() implies (#[trigger] fm(s.memory@[k])).len() > 0 && fm(s.memory@[k]).last() == '\n' by {
        }
        lemma_lines_concat_map(s.memory@, fm);
        let cm = concat_map(s.memory@, fm);
        lemma_lines_join("MEMORY {\n"@, cm + "}\n"@);
        assert("MEMORY {\n"@ + concat_map(s.memory@, fm) + "}\n"@ =~= "MEMORY {\n"@ + (cm + "}\n"@));
        if cm.len() == 0 {
            assert(cm + "}\n"@ =~= "}\n"@);
            assert(s.memory@.len() == 0) by {
                assert(fm(s.memory@[0]).len() > 0);
            }
        }
        lemma_lines_join(cm, "}\n"@);
        lemma_one_line("MEMORY {"@);
        assert("MEMORY {"@.push('\n') =~= "MEMORY {\n"@);
        lemma_one_line("}"@);
        assert("}"@.push('\n') =~= "}\n"@);
        assert(l_mem =~= seq!["MEMORY {"@] + (lines_each(s.memory@, fm) + seq!["}"@]));
        lemma_read_concat(init, seq!["MEMORY {"@], lines_each(s.memory@, fm) + seq!["}"@]);
        lemma_inert_lines(init, seq!["MEMORY {"@]);
        lemma_read_concat(init, lines_each(s.memory@, fm), seq!["}"@]);
        lemma_memory_lines(init, s.memory@);
        lemma_inert_lines(init, seq!["}"@]);
    }
    assert(read_lines(init, l_mem) == init);
    // The entry.
    let st_e = match s.entry {
        Some(e) => (Some(e@), Seq::<Seq<char>>::empty(), Seq::<Seq<char>>::empty(), false),
        None => init,
    };
    match &s.entry {
        Some(e) => {
            let g = "ENTRY("@ + e@ + ");"@;
            reveal_strlit(");");
            assert(ent == "ENTRY("@ + e@ + ");\n"@);
            assert(ent =~= g.push('\n'));
            assert(no_lf(g));
            lemma_one_line(g);
            lemma_read_one(init, g);
            lemma_entry_line(init, e@);
        },
        None => {},
    }
    assert(read_lines(init, lines_of(ent)) == st_e);
    // Externs, provides, includes.
    assert forall|k: int| 0 <= k < s.externs@.len() implies (#[trigger] fe(s.externs@[k])).len() > 0 && fe(s.externs@[k]).last() == '\n' by {
    }
    lemma_lines_concat_map(s.externs@, fe);
    lemma_extern_lines(st_e, s.externs@);
    let st_x = (st_e.0, views(s.externs@), Seq::<Seq<char>>::empty(), false);
    assert(st_e.1 + views(s.externs@) =~= views(s.externs@));
    assert forall|k: int| 0 <= k < s.provides@.len() implies (#[trigger] fp(s.provides@[k])).len() > 0 && fp(s.provides@[k]).last() == '\n' by {
    }
    lemma_lines_concat_map(s.provides@, fp);
    assert forall|k: int| 0 <= k < s.provides@.len() implies {
        let l = #[trigger] fp(s.provides@[k]);
        l.len() > 0 && l.last() == '\n' && no_lf(l.drop_last()) && inert(l.drop_last())
    } by {
        let l = fp(s.provides@[k]);
        assert(l.drop_last()[0] == 'P');
    }
    lemma_inert_each(st_x, s.provides@, fp);
    assert forall|k: int| 0 <= k < s.includes@.len() implies (#[trigger] fi(s.includes@[k])).len() > 0 && fi(s.includes@[k]).last() == '\n' by {
    }
    lemma_lines_concat_map(s.includes@, fi);
    lemma_include_lines(st_x, s.includes@);
    let st_i = (st_e.0, views(s.externs@), views(s.includes@), false);
    assert(Seq::<Seq<char>>::empty() + views(s.includes@) =~= views(s.includes@));
    // The sections block ends the reading.
    if s.sections@.len() > 0 {
        lemma_lines_join("SECTIONS {\n"@, concat_map(s.sections@, fs) + "}\n"@);
        assert(sec =~= "SECTIONS {\n"@ + (concat_map(s.sections@, fs) + "}\n"@));
        lemma_one_line("SECTIONS {"@);
        assert("SECTIONS {"@.push('\n') =~= "SECTIONS {\n"@);
        let rest = lines_of(concat_map(s.sections@, fs) + "}\n"@);
        lemma_read_concat(st_i, seq!["SECTIONS {"@], rest);
        lemma_read_one(st_i, "SECTIONS {"@);
        lemma_stopped((st_i.0, st_i.1, st_i.2, true), rest);
    } else {
        assert(lines_of(sec) =~= Seq::<Seq<char>>::empty());
    }
    // Put the parts together.
    lemma_lines_join(mem, ent);
    lemma_lines_join(mem + ent, ext);
    lemma_lines_join(mem + ent + ext, prov);
    lemma_lines_join(mem + ent + ext + prov, inc);
    lemma_lines_join(mem + ent + ext + prov + inc, sec);
    lemma_read_concat(init, lines_of(mem), lines_of(ent));
    lemma_read_concat(init, lines_of(mem) + lines_of(ent), lines_of(ext));
    lemma_read_concat(init, lines_of(mem) + lines_of(ent) + lines_of(ext), lines_of(prov));
    lemma_read_concat(init, lines_of(mem) + lines_of(ent) + lines_of(ext) + lines_of(prov), lines_of(inc));
    lemma_read_concat(init, lines_of(mem) + lines_of(ent) + lines_of(ext) + lines_of(prov) + lines_of(inc), lines_of(sec));
}

/// The statements read back from a linker-script text.
#[derive(Debug, Clone, PartialEq, Eq)]
pub struct LdStatementsRead {
    pub entry: Option<String>,
    pub externs: Vec<String>,
    pub includes: Vec<String>,
    /// The `SECTIONS` block was reached.
    pub sections: bool,
}

pub open spec fn read_view(r: LdStatementsRead) -> LdStatements {
    (
        match r.entry {
            Some(e) => Some(e@),
            None => None,
        },
        views(r.externs@),
        views(r.includes@),
        r.sections,
    )
}

/// Whether the line `t[i..e]` is `p`, an argument, and `q`.
fn wrapped_at(t: &Vec<char>, i: usize, e: usize, p: &str, q: &str) -> (r: bool)
    requires
        i <= e <= t@.len(),
    ensures
        r == wrapped(t@.subrange(i as int, e as int), p@, q@),
{
    let pv = chars_of(p);
    let qv = chars_of(q);
    let ghost l = t@.subrange(i as int, e as int);
    if e - i < pv.len() || e - i - pv.len() < qv.len() {
        return false;
    }
    let a = matches_at(t, i, &pv);
    let b = matches_at(t, e - qv.len(), &qv);
    proof {
        assert(l.subrange(0, pv@.len() as int) =~= t@.subrange(i as int, i + pv@.len()));
        assert(l.subrange(l.len() - qv@.len(), l.len() as int) =~= t@.subrange(e - qv@.len(), e as int));
    }
    a && b
}

fn argument_at(t: &Vec<char>, i: usize, e: usize, p: &str, q: &str) -> (r: String)
    requires
        i <= e <= t@.len(),
        wrapped(t@.subrange(i as int, e as int), p@, q@),
    ensures
        r@ == argument(t@.subrange(i as int, e as int), p@, q@),
{
    let pv = chars_of(p);
    let qv = chars_of(q);
    let a = crate::deps::copy_range(t, i + pv.len(), e - qv.len());
    proof {
        assert(a@ =~= argument(t@.subrange(i as int, e as int), p@, q@));
    }
    string_of(&a)
}

impl LdStatementsRead {
    /// Reads the `ENTRY`, `EXTERN` and `INCLUDE` statements of a linker-script
    /// text, line by line, up to a `SECTIONS {` line.
    pub fn read(text: &str) -> (r: LdStatementsRead)
        ensures
            read_view(r) == statements_of(text@),
    {
        let t = chars_of(text);
        let n = t.len();
        let mut r = LdStatementsRead { entry: None, externs: Vec::new(), includes: Vec::new(), sections: false };
        let ghost mut done: Seq<Seq<char>> = Seq::empty();
        let mut i: usize = 0;
        proof {
            assert(read_view(r) =~= no_statements());
            assert(done + lines_from(t@, 0) =~= lines_of(t@));
        }
        while i < n
            invariant
                n == t@.len(),
                i <= n,
                done + lines_from(t@, i as int) == lines_of(t@),
                read_view(r) == read_lines(no_statements(), done),
            decreases n - i,
        {
            proof {
                lemma_find_from(t@, '\n', i as int);
            }
            let e = find_char(&t, '\n', i);
            let ghost l = t@.subrange(i as int, e as int);
            let ghost before = read_view(r);
            if !r.sections {
                if line_is(&t, i, e, "SECTIONS {") {
                    r.sections = true;
                } else {
                    self_step(&t, i, e, &mut r);
                }
            }
            proof {
                assert(read_view(r) == step(before, l));
                assert(read_lines(no_statements(), done.push(l)) == step(read_lines(no_statements(), done), l)) by {
                    assert(done.push(l).drop_last() =~= done);
                }
                if e < n {
                    assert(done.push(l) + lines_from(t@, e + 1) =~= done + lines_from(t@, i as int));
                } else {
                    assert(done.push(l) + lines_from(t@, n as int) =~= done + lines_from(t@, i as int));
                }
                done = done.push(l);
            }
            if e < n {
                i = e + 1;
            } else {
                i = n;
            }
        }
        proof {
            assert(done + Seq::<Seq<char>>::empty() =~= done);
        }
        r
    }
}

/// Whether the line `t[i..e]` is `p`.
fn line_is(t: &Vec<char>, i: usize, e: usize, p: &str) -> (r: bool)
    requires
        i <= e <= t@.len(),
    ensures
        r == (t@.subrange(i as int, e as int) == p@),
{
    let pv = chars_of(p);
    if e - i != pv.len() {
        return false;
    }
    let r = matches_at(t, i, &pv);
    proof {
        assert(t@.subrange(i as int, e as int) =~= t@.subrange(i as int, i + pv@.len()));
    }
    r
}

/// Applies one line that is not `SECTIONS {` to statements still being read.
fn self_step(t: &Vec<char>, i: usize, e: usize, r: &mut LdStatementsRead)
    requires
        i <= e <= t@.len(),
        !old(r).sections,
        t@.subrange(i as int, e as int) != "SECTIONS {"@,
    ensures
        read_view(*final(r)) == step(read_view(*old(r)), t@.subrange(i as int, e as int)),
{
    let ghost l = t@.subrange(i as int, e as int);
    proof {
        reveal_strlit("");
    }
    if wrapped_at(t, i, e, "ENTRY(", ");") {
        let a = argument_at(t, i, e, "ENTRY(", ");");
        r.entry = Some(a);
        proof {
            assert(read_view(*r).0 == Some(a@));
            assert(read_view(*r).1 == read_view(*old(r)).1);
        }
    } else if wrapped_at(t, i, e, "EXTERN(", ");") {
        let a = argument_at(t, i, e, "EXTERN(", ");");
        let ghost x0 = r.externs@;
        r.externs.push(a);
        proof {
            assert(views(r.externs@) =~= views(x0).push(a@));
        }
    } else if wrapped_at(t, i, e, "INCLUDE ", "") {
        let a = argument_at(t, i, e, "INCLUDE ", "");
        let ghost x0 = r.includes@;
        r.includes.push(a);
        proof {
            assert(views(r.includes@) =~= views(x0).push(a@));
            assert(""@ =~= Seq::<char>::empty());
        }
    } else {
        proof {
            assert(""@ =~= Seq::<char>::empty());
        }
    }
}

} // verus!
