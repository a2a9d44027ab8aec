//! The toolchain's option records and the arguments each stands for.
//!
//! Maps and sets keep the order in which their entries were given; a map's
//! key names an option, `_` standing for `-`.

use vstd::prelude::*;
use crate::options::{flag_name, int_text, lemma_views_push, opt_args, push_int, push_opt, views, OptName, OptVal};
use crate::text::{chars_of, push_all, string_of};

verus! {

/// The arguments of all items of `v`, one item after another.
pub open spec fn fold_args<T>(v: Seq<T>, f: spec_fn(T) -> Seq<Seq<char>>) -> Seq<Seq<char>>
    decreases v.len(),
{
    if v.len() == 0 {
        Seq::empty()
    } else {
        fold_args(v.drop_last(), f) + f(v.last())
    }
}

/// `Some(true)` gives the flag.
pub open spec fn bool_args(flag: Seq<char>, b: Option<bool>) -> Seq<Seq<char>> {
    if b == Some(true) { seq![flag] } else { Seq::empty() }
}

/// A value gives the prefix followed by it (see `opt_args`).
pub open spec fn val_args(prefix: Seq<char>, v: Option<OptVal>) -> Seq<Seq<char>> {
    match v {
        Some(x) => opt_args(prefix, Seq::empty(), x),
        None => Seq::empty(),
    }
}

/// A string gives the prefix followed by it.
pub open spec fn str_args(prefix: Seq<char>, s: Option<String>) -> Seq<Seq<char>> {
    match s {
        Some(x) => seq![prefix + x@],
        None => Seq::empty(),
    }
}

/// Each string, after the prefix.
pub open spec fn list_args(prefix: Seq<char>, v: Seq<String>) -> Seq<Seq<char>> {
    fold_args(v, |s: String| seq![prefix + s@])
}

/// Each `KEY=VALUE`, after the prefix.
pub open spec fn strmap_args(prefix: Seq<char>, v: Seq<(String, String)>) -> Seq<Seq<char>> {
    fold_args(v, |e: (String, String)| seq![prefix + e.0@ + seq!['='] + e.1@])
}

/// The text after `=` of a number or a string option.
pub open spec fn value_of(v: OptVal) -> Seq<char> {
    match v {
        OptVal::Int(i) => int_text(i),
        OptVal::Str(s) => s@,
        _ => Seq::empty(),
    }
}

/// One map entry with an `on` prefix for `true` and an `off` prefix for
/// `false`: a switch gives the prefix and the name; a number or a string
/// gives `on`, the name, `=` and the value.
pub open spec fn switch_item(on: Seq<char>, off: Seq<char>, e: (String, OptVal)) -> Seq<Seq<char>> {
    match e.1 {
        OptVal::Bool(b) => seq![(if b { on } else { off }) + flag_name(e.0@)],
        OptVal::Int(_) => seq![on + flag_name(e.0@) + seq!['='] + value_of(e.1)],
        OptVal::Str(_) => seq![on + flag_name(e.0@) + seq!['='] + value_of(e.1)],
        OptVal::Off => Seq::empty(),
    }
}

pub open spec fn switch_args(on: Seq<char>, off: Seq<char>, m: Seq<(String, OptVal)>) -> Seq<Seq<char>> {
    fold_args(m, |e: (String, OptVal)| switch_item(on, off, e))
}

/// A map with one prefix, `false` adding `no-`: `-f` and `lto: false` give
/// `-fno-lto`.
pub open spec fn map_args(prefix: Seq<char>, m: Seq<(String, OptVal)>) -> Seq<Seq<char>> {
    switch_args(prefix, prefix + "no-"@, m)
}

/// The value of the first entry named `key`.
pub open spec fn lookup(m: Seq<(String, OptVal)>, key: Seq<char>) -> Option<OptVal>
    decreases m.len(),
{
    if m.len() == 0 {
        None
    } else if m[0].0@ == key {
        Some(m[0].1)
    } else {
        lookup(m.drop_first(), key)
    }
}

pub(crate) fn push_chars(out: &mut Vec<String>, cs: &Vec<char>)
    ensures
        views(final(out)@) == views(old(out)@).push(cs@),
{
    let s = string_of(cs);
    proof {
        lemma_views_push(out@, s);
    }
    out.push(s);
}

pub(crate) fn push_bool(out: &mut Vec<String>, flag: &str, b: Option<bool>)
    ensures
        views(final(out)@) == views(old(out)@) + bool_args(flag@, b),
{
    if b == Some(true) {
        let cs = chars_of(flag);
        push_chars(out, &cs);
        proof {
            assert(views(out@) =~= views(old(out)@) + bool_args(flag@, b));
        }
    } else {
        proof {
            assert(views(out@) =~= views(old(out)@) + bool_args(flag@, b));
        }
    }
}

pub(crate) fn push_val(out: &mut Vec<String>, prefix: &str, v: &Option<OptVal>)
    ensures
        views(final(out)@) == views(old(out)@) + val_args(prefix@, *v),
{
    proof {
        reveal_strlit("");
    }
    match v {
        Some(x) => push_opt(out, prefix, "", x),
        None => {
            proof {
                assert(views(out@) =~= views(old(out)@) + val_args(prefix@, *v));
            }
        },
    }
}

pub(crate) fn push_str_opt(out: &mut Vec<String>, prefix: &str, s: &Option<String>)
    ensures
        views(final(out)@) == views(old(out)@) + str_args(prefix@, *s),
{
    match s {
        Some(x) => {
            let mut cs = chars_of(prefix);
            let xs = chars_of(x.as_str());
            push_all(&mut cs, &xs);
            push_chars(out, &cs);
            proof {
                assert(views(out@) =~= views(old(out)@) + str_args(prefix@, *s));
            }
        },
        None => {
            proof {
                assert(views(out@) =~= views(old(out)@) + str_args(prefix@, *s));
            }
        },
    }
}

pub(crate) fn push_list(out: &mut Vec<String>, prefix: &str, v: &Vec<String>)
    ensures
        views(final(out)@) == views(old(out)@) + list_args(prefix@, v@),
{
    let ghost start = views(out@);
    let ghost f = |s: String| seq![prefix@ + s@];
    let mut k: usize = 0;
    while k < v.len()
        invariant
            k <= v@.len(),
            start == views(old(out)@),
            f == (|s: String| seq![prefix@ + s@]),
            views(out@) == start + fold_args(v@.subrange(0, k as int), f),
        decreases v@.len() - k,
    {
        let mut cs = chars_of(prefix);
        let xs = chars_of(v[k].as_str());
        push_all(&mut cs, &xs);
        push_chars(out, &cs);
        proof {
            let pre = v@.subrange(0, k as int + 1);
            assert(pre.drop_last() =~= v@.subrange(0, k as int));
            assert(views(out@) =~= start + fold_args(pre, f));
        }
        k = k + 1;
    }
    proof {
        assert(v@.subrange(0, k as int) =~= v@);
    }
}

pub(crate) fn push_strmap(out: &mut Vec<String>, prefix: &str, v: &Vec<(String, String)>)
    ensures
        views(final(out)@) == views(old(out)@) + strmap_args(prefix@, v@),
{
    let ghost start = views(out@);
    let ghost f = |e: (String, String)| seq![prefix@ + e.0@ + seq!['='] + e.1@];
    let mut k: usize = 0;
    while k < v.len()
        invariant
            k <= v@.len(),
            start == views(old(out)@),
            f == (|e: (String, String)| seq![prefix@ + e.0@ + seq!['='] + e.1@]),
            views(out@) == start + fold_args(v@.subrange(0, k as int), f),
        decreases v@.len() - k,
    {
        let mut cs = chars_of(prefix);
        let a = chars_of(v[k].0.as_str());
        push_all(&mut cs, &a);
        cs.push('=');
        let b = chars_of(v[k].1.as_str());
        push_all(&mut cs, &b);
        proof {
            assert(cs@ =~= prefix@ + v@[k as int].0@ + seq!['='] + v@[k as int].1@);
        }
        push_chars(out, &cs);
        proof {
            assert(f(v@[k as int]) == seq![cs@]);
            let pre = v@.subrange(0, k as int + 1);
            assert(pre.drop_last() =~= v@.subrange(0, k as int));
            assert(views(out@) =~= start + fold_args(pre, f));
        }
        k = k + 1;
    }
    proof {
        assert(v@.subrange(0, k as int) =~= v@);
    }
}

fn push_value(cs: &mut Vec<char>, v: &OptVal)
    ensures
        final(cs)@ == old(cs)@ + value_of(*v),
{
    match v {
        OptVal::Int(i) => push_int(cs, *i),
        OptVal::Str(s) => {
            let xs = chars_of(s.as_str());
            push_all(cs, &xs);
        },
        _ => {
            proof {
                assert(cs@ =~= old(cs)@ + value_of(*v));
            }
        },
    }
}

pub(crate) fn push_switches(out: &mut Vec<String>, on: &str, off: &str, m: &Vec<(String, OptVal)>)
    ensures
        views(final(out)@) == views(old(out)@) + switch_args(on@, off@, m@),
{
    let ghost start = views(out@);
    let ghost f = |e: (String, OptVal)| switch_item(on@, off@, e);
    let mut k: usize = 0;
    while k < m.len()
        invariant
            k <= m@.len(),
            start == views(old(out)@),
            f == (|e: (String, OptVal)| switch_item(on@, off@, e)),
            views(out@) == start + fold_args(m@.subrange(0, k as int), f),
        decreases m@.len() - k,
    {
        let ghost before = views(out@);
        let name = OptName(m[k].0.clone()).to_text();
        let nc = chars_of(name.as_str());
        match &m[k].1 {
            OptVal::Bool(b) => {
                let mut cs = if *b { chars_of(on) } else { chars_of(off) };
                push_all(&mut cs, &nc);
                push_chars(out, &cs);
                proof {
                    assert(views(out@) =~= before + seq![cs@]);
                }
            },
            OptVal::Off => {
                proof {
                    assert(views(out@) =~= before + Seq::<Seq<char>>::empty());
                }
            },
            v => {
                let mut cs = chars_of(on);
                push_all(&mut cs, &nc);
                cs.push('=');
                push_value(&mut cs, v);
                proof {
                    assert(cs@ =~= on@ + flag_name(m@[k as int].0@) + seq!['='] + value_of(*v));
                }
                push_chars(out, &cs);
                proof {
                    assert(views(out@) =~= before + seq![cs@]);
                }
            },
        }
        proof {
            let pre = m@.subrange(0, k as int + 1);
            assert(pre.drop_last() =~= m@.subrange(0, k as int));
            assert(pre.last() == m@[k as int]);
            assert(views(out@) =~= before + switch_item(on@, off@, m@[k as int]));
            assert(views(out@) =~= start + fold_args(pre, f));
        }
        k = k + 1;
    }
    proof {
        assert(m@.subrange(0, k as int) =~= m@);
    }
}

pub(crate) fn push_map(out: &mut Vec<String>, prefix: &str, m: &Vec<(String, OptVal)>)
    ensures
        views(final(out)@) == views(old(out)@) + map_args(prefix@, m@),
{
    let mut off = chars_of(prefix);
    let no = chars_of("no-");
    push_all(&mut off, &no);
    let off = string_of(&off);
    push_switches(out, prefix, off.as_str(), m);
}

/// A copy of an option value.
pub fn copy_val(v: &OptVal) -> (r: OptVal)
    ensures
        r == *v,
{
    match v {
        OptVal::Off => OptVal::Off,
        OptVal::Bool(b) => OptVal::Bool(*b),
        OptVal::Int(i) => OptVal::Int(*i),
        OptVal::Str(s) => OptVal::Str(s.clone()),
    }
}

/// The value of the first entry of `m` named `key`.
pub fn lookup_opt(m: &Vec<(String, OptVal)>, key: &str) -> (r: Option<OptVal>)
    ensures
        r == lookup(m@, key@),
{
    let k = key.to_owned();
    let mut i: usize = 0;
    proof {
        assert(m@.subrange(0, m@.len() as int) =~= m@);
    }
    while i < m.len()
        invariant
            i <= m@.len(),
            k@ == key@,
            lookup(m@, key@) == lookup(m@.subrange(i as int, m@.len() as int), key@),
        decreases m@.len() - i,
    {
        proof {
            let rest = m@.subrange(i as int, m@.len() as int);
            assert(rest.drop_first() =~= m@.subrange(i + 1, m@.len() as int));
            assert(rest[0] == m@[i as int]);
        }
        if m[i].0 == k {
            return Some(copy_val(&m[i].1));
        }
        i = i + 1;
    }
    proof {
        assert(m@.subrange(i as int, m@.len() as int) =~= Seq::<(String, OptVal)>::empty());
    }
    None
}

/// The arguments `args` when `c` holds.
pub open spec fn when(c: bool, args: Seq<Seq<char>>) -> Seq<Seq<char>> {
    if c { args } else { Seq::empty() }
}

fn push_text(out: &mut Vec<String>, t: &str)
    ensures
        views(final(out)@) == views(old(out)@).push(t@),
{
    let cs = chars_of(t);
    push_chars(out, &cs);
}

fn push_joined(out: &mut Vec<String>, a: &str, b: &str)
    ensures
        views(final(out)@) == views(old(out)@).push(a@ + b@),
{
    let mut cs = chars_of(a);
    let bs = chars_of(b);
    push_all(&mut cs, &bs);
    push_chars(out, &cs);
}

/// Options for every compile and link run.
#[derive(Debug, Default)]
pub struct BaseOpts {
    pub stdlib: Option<String>,
    pub sysroot: Option<String>,
    pub pic: Option<bool>,
    pub opt: Option<OptVal>,
    pub dbg: Vec<(String, OptVal)>,
    pub mach: Vec<(String, OptVal)>,
    pub feat: Vec<(String, OptVal)>,
    pub flags: Vec<String>,
}

/// The arguments of the base options for the C driver (GCC or clang alike).
pub open spec fn base_args(o: BaseOpts) -> Seq<Seq<char>> {
    val_args("-O"@, o.opt) + str_args("-stdlib"@, o.stdlib) + str_args("--sysroot="@, o.sysroot) + when(
        o.pic == Some(true),
        seq!["-fPIC"@, "-fpic"@],
    ) + map_args("-g"@, o.dbg@) + map_args("-m"@, o.mach@) + map_args("-f"@, o.feat@) + list_args(""@, o.flags@)
}

impl BaseOpts {
    pub fn fmt_args(&self, out: &mut Vec<String>)
        ensures
            views(final(out)@) == views(old(out)@) + base_args(*self),
    {
        let ghost o0 = views(out@);
        push_val(out, "-O", &self.opt);
        push_str_opt(out, "-stdlib", &self.stdlib);
        push_str_opt(out, "--sysroot=", &self.sysroot);
        let ghost o1 = views(out@);
        if self.pic == Some(true) {
            push_text(out, "-fPIC");
            push_text(out, "-fpic");
        }
        proof {
            assert(views(out@) =~= o1 + when(self.pic == Some(true), seq!["-fPIC"@, "-fpic"@]));
        }
        push_map(out, "-g", &self.dbg);
        push_map(out, "-m", &self.mach);
        push_map(out, "-f", &self.feat);
        push_list(out, "", &self.flags);
        proof {
            assert(views(out@) =~= o0 + base_args(*self));
        }
    }
}

/// Options for compiling C-family sources.
#[derive(Debug, Default)]
pub struct CCompileOpts {
    pub std: Option<String>,
    pub warn: Vec<(String, OptVal)>,
    pub defs: Vec<(String, String)>,
    pub dirs: Vec<String>,
    pub incs: Vec<String>,
    pub no: Vec<String>,
    pub flags: Vec<String>,
}

pub open spec fn ccompile_args(o: CCompileOpts) -> Seq<Seq<char>> {
    str_args("-std="@, o.std) + map_args("-W"@, o.warn@) + strmap_args("-D"@, o.defs@) + list_args("-I"@, o.dirs@)
        + list_args("-i"@, o.incs@) + list_args("-no"@, o.no@) + list_args(""@, o.flags@)
}

impl CCompileOpts {
    pub fn fmt_args(&self, out: &mut Vec<String>)
        ensures
            views(final(out)@) == views(old(out)@) + ccompile_args(*self),
    {
        let ghost o0 = views(out@);
        push_str_opt(out, "-std=", &self.std);
        push_map(out, "-W", &self.warn);
        push_strmap(out, "-D", &self.defs);
        push_list(out, "-I", &self.dirs);
        push_list(out, "-i", &self.incs);
        push_list(out, "-no", &self.no);
        push_list(out, "", &self.flags);
        proof {
            assert(views(out@) =~= o0 + ccompile_args(*self));
        }
    }
}

/// Options for linking.
#[derive(Debug, Default)]
pub struct LinkOpts {
    pub dirs: Vec<String>,
    pub libs: Vec<String>,
    pub whole_libs: Vec<String>,
    pub no: Vec<String>,
    pub pie: Option<OptVal>,
    pub shared: Option<OptVal>,
    pub shareds: Vec<String>,
    pub static_: Option<OptVal>,
    pub statics: Vec<OptVal>,
    pub opts: Vec<String>,
    pub flags: Vec<String>,
}

/// `true` gives `-pie`, `false` `-no-pie`, a string `S` gives `-S-pie`.
pub open spec fn pie_args(v: Option<OptVal>) -> Seq<Seq<char>> {
    match v {
        Some(OptVal::Bool(b)) => seq![(if b { Seq::empty() } else { "-no"@ }) + "-pie"@],
        Some(OptVal::Str(s)) => seq![seq!['-'] + s@ + "-pie"@],
        _ => Seq::empty(),
    }
}

pub open spec fn link_head(o: LinkOpts) -> Seq<Seq<char>> {
    list_args("-L"@, o.dirs@) + list_args("-l"@, o.libs@) + when(
        o.whole_libs@.len() > 0,
        seq!["-Wl,--whole-archive"@] + list_args("-l"@, o.whole_libs@) + seq!["-Wl,--no-whole-archive"@],
    ) + list_args("-no"@, o.no@)
}

pub open spec fn link_mid(o: LinkOpts) -> Seq<Seq<char>> {
    pie_args(o.pie) + when(o.shared == Some(OptVal::Bool(true)), seq!["-shared"@]) + list_args("-shared-"@, o.shareds@)
        + when(o.static_ == Some(OptVal::Bool(true)), seq!["-static"@])
}

pub open spec fn link_tail(o: LinkOpts) -> Seq<Seq<char>> {
    crate::options::set_args("-static-"@, ""@, o.statics@) + list_args("-Wl,"@, o.opts@) + list_args(""@, o.flags@)
}

/// The arguments of the link options.
pub open spec fn link_args(o: LinkOpts) -> Seq<Seq<char>> {
    link_head(o) + link_mid(o) + link_tail(o)
}

impl LinkOpts {
    #[verifier::rlimit(80)]
    fn fmt_head(&self, out: &mut Vec<String>)
        ensures
            views(final(out)@) == views(old(out)@) + link_head(*self),
    {
        let ghost o0 = views(out@);
        push_list(out, "-L", &self.dirs);
        push_list(out, "-l", &self.libs);
        let ghost o1 = views(out@);
        if self.whole_libs.len() > 0 {
            push_text(out, "-Wl,--whole-archive");
            push_list(out, "-l", &self.whole_libs);
            push_text(out, "-Wl,--no-whole-archive");
        }
        proof {
            assert(views(out@) =~= o1 + when(
                self.whole_libs@.len() > 0,
                seq!["-Wl,--whole-archive"@] + list_args("-l"@, self.whole_libs@) + seq!["-Wl,--no-whole-archive"@],
            ));
        }
        push_list(out, "-no", &self.no);
        proof {
            assert(views(out@) =~= o0 + link_head(*self));
        }
    }

    fn fmt_pie(&self, out: &mut Vec<String>)
        ensures
            views(final(out)@) == views(old(out)@) + pie_args(self.pie),
    {
        let ghost o2 = views(out@);
        match &self.pie {
            Some(OptVal::Bool(b)) => {
                if *b {
                    push_text(out, "-pie");
                } else {
                    push_text(out, "-no-pie");
                }
                proof {
                    reveal_strlit("-no-pie");
                    reveal_strlit("-no");
                    reveal_strlit("-pie");
                    assert("-no"@ + "-pie"@ =~= "-no-pie"@);
                    assert(Seq::<char>::empty() + "-pie"@ =~= "-pie"@);
                }
            },
            Some(OptVal::Str(v)) => {
                let mut cs: Vec<char> = Vec::new();
                cs.push('-');
                let vs = chars_of(v.as_str());
                push_all(&mut cs, &vs);
                let ps = chars_of("-pie");
                push_all(&mut cs, &ps);
                push_chars(out, &cs);
                proof {
                    assert(cs@ =~= seq!['-'] + v@ + "-pie"@);
                }
            },
            _ => {},
        }
        proof {
            assert(views(out@) =~= o2 + pie_args(self.pie));
        }
    }

    #[verifier::rlimit(80)]
    fn fmt_mid(&self, out: &mut Vec<String>)
        ensures
            views(final(out)@) == views(old(out)@) + link_mid(*self),
    {
        let ghost o0 = views(out@);
        self.fmt_pie(out);
        let ghost o3 = views(out@);
        let shared = match &self.shared {
            Some(OptVal::Bool(true)) => true,
            _ => false,
        };
        if shared {
            push_text(out, "-shared");
        }
        proof {
            assert(views(out@) =~= o3 + when(self.shared == Some(OptVal::Bool(true)), seq!["-shared"@]));
        }
        push_list(out, "-shared-", &self.shareds);
        let ghost o4 = views(out@);
        let is_static = match &self.static_ {
            Some(OptVal::Bool(true)) => true,
            _ => false,
        };
        if is_static {
            push_text(out, "-static");
        }
        proof {
            assert(views(out@) =~= o4 + when(self.static_ == Some(OptVal::Bool(true)), seq!["-static"@]));
            assert(views(out@) =~= o0 + link_mid(*self));
        }
    }

    fn fmt_tail(&self, out: &mut Vec<String>)
        ensures
            views(final(out)@) == views(old(out)@) + link_tail(*self),
    {
        let ghost o0 = views(out@);
        let fv = crate::options::FlagValues { flag: "-static-".to_owned(), sep: "".to_owned(), values: clone_vals(&self.statics) };
        crate::options::FormatArgs::fmt_args(&fv, out);
        push_list(out, "-Wl,", &self.opts);
        push_list(out, "", &self.flags);
        proof {
            assert(views(out@) =~= o0 + link_tail(*self));
        }
    }

    pub fn fmt_args(&self, out: &mut Vec<String>)
        ensures
            views(final(out)@) == views(old(out)@) + link_args(*self),
    {
        let ghost o0 = views(out@);
        self.fmt_head(out);
        self.fmt_mid(out);
        self.fmt_tail(out);
        proof {
            assert(views(out@) =~= o0 + link_args(*self));
        }
    }
}

/// A copy of a list of option values.
pub fn clone_vals(v: &Vec<OptVal>) -> (r: Vec<OptVal>)
    ensures
        r@ == v@,
{
    let mut out: Vec<OptVal> = Vec::new();
    let mut k: usize = 0;
    while k < v.len()
        invariant
            k <= v@.len(),
            out@ == v@.subrange(0, k as int),
        decreases v@.len() - k,
    {
        out.push(copy_val(&v[k]));
        k = k + 1;
        proof {
            assert(out@ =~= v@.subrange(0, k as int));
        }
    }
    proof {
        assert(v@.subrange(0, k as int) =~= v@);
    }
    out
}

/// Options for the object dumper.
#[derive(Debug, Default)]
pub struct DumpOpts {
    pub target: Option<String>,
    pub arch: Option<String>,
    pub disasm: Vec<OptVal>,
    pub flags: Vec<String>,
}

pub open spec fn dump_args(o: DumpOpts) -> Seq<Seq<char>> {
    str_args("-b"@, o.target) + str_args("-m"@, o.arch) + crate::options::set_args("-M"@, ""@, o.disasm@) + list_args(
        ""@,
        o.flags@,
    )
}

impl DumpOpts {
    pub fn fmt_args(&self, out: &mut Vec<String>)
        ensures
            views(final(out)@) == views(old(out)@) + dump_args(*self),
    {
        let ghost o0 = views(out@);
        push_str_opt(out, "-b", &self.target);
        push_str_opt(out, "-m", &self.arch);
        let fv = crate::options::FlagValues { flag: "-M".to_owned(), sep: "".to_owned(), values: clone_vals(&self.disasm) };
        crate::options::FormatArgs::fmt_args(&fv, out);
        push_list(out, "", &self.flags);
        proof {
            assert(views(out@) =~= o0 + dump_args(*self));
        }
    }
}

/// Options for the stripper.
#[derive(Debug, Default)]
pub struct StripOpts {
    /// `--strip-…` (all, debug, dwo, unneeded).
    pub strip: Vec<String>,
    /// `--keep-…` (file-symbols).
    pub keep: Vec<String>,
    /// `--discard-…` (all, local).
    pub discard: Vec<String>,
    /// Symbols to keep (`true`) or strip (`false`).
    pub symbols: Vec<(String, Option<bool>)>,
    pub flags: Vec<String>,
}

pub open spec fn symbol_item(e: (String, Option<bool>)) -> Seq<Seq<char>> {
    match e.1 {
        Some(b) => seq!["--"@ + (if b { "keep"@ } else { "strip"@ }) + "-symbol="@ + e.0@],
        None => Seq::empty(),
    }
}

pub open spec fn strip_args(o: StripOpts) -> Seq<Seq<char>> {
    list_args("--strip-"@, o.strip@) + list_args("--keep-"@, o.keep@) + list_args("--discard-"@, o.discard@) + fold_args(
        o.symbols@,
        |e: (String, Option<bool>)| symbol_item(e),
    ) + list_args(""@, o.flags@)
}

impl StripOpts {
    fn fmt_symbols(&self, out: &mut Vec<String>)
        ensures
            views(final(out)@) == views(old(out)@) + fold_args(self.symbols@, |e: (String, Option<bool>)| symbol_item(e)),
    {
        let ghost start = views(out@);
        let ghost f = |e: (String, Option<bool>)| symbol_item(e);
        let mut k: usize = 0;
        while k < self.symbols.len()
            invariant
                k <= self.symbols@.len(),
                f == (|e: (String, Option<bool>)| symbol_item(e)),
                views(out@) == start + fold_args(self.symbols@.subrange(0, k as int), f),
            decreases self.symbols@.len() - k,
        {
            let ghost before = views(out@);
            match self.symbols[k].1 {
                Some(b) => {
                    let mut cs = chars_of("--");
                    let w = if b { chars_of("keep") } else { chars_of("strip") };
                    push_all(&mut cs, &w);
                    let t = chars_of("-symbol=");
                    push_all(&mut cs, &t);
                    let n = chars_of(self.symbols[k].0.as_str());
                    push_all(&mut cs, &n);
                    push_chars(out, &cs);
                    proof {
                        assert(views(out@) =~= before + seq![cs@]);
                    }
                },
                None => {
                    proof {
                        assert(views(out@) =~= before + Seq::<Seq<char>>::empty());
                    }
                },
            }
            proof {
                let pre = self.symbols@.subrange(0, k as int + 1);
                assert(pre.drop_last() =~= self.symbols@.subrange(0, k as int));
                assert(pre.last() == self.symbols@[k as int]);
                assert(views(out@) =~= start + fold_args(pre, f));
            }
            k = k + 1;
        }
        proof {
            assert(self.symbols@.subrange(0, k as int) =~= self.symbols@);
        }
    }

    pub fn fmt_args(&self, out: &mut Vec<String>)
        ensures
            views(final(out)@) == views(old(out)@) + strip_args(*self),
    {
        let ghost o0 = views(out@);
        push_list(out, "--strip-", &self.strip);
        push_list(out, "--keep-", &self.keep);
        push_list(out, "--discard-", &self.discard);
        self.fmt_symbols(out);
        push_list(out, "", &self.flags);
        proof {
            assert(views(out@) =~= o0 + strip_args(*self));
        }
    }
}

/// A string entry `key` gives the prefix and the string.
pub open spec fn str_entry(m: Seq<(String, OptVal)>, key: Seq<char>, prefix: Seq<char>) -> Seq<Seq<char>> {
    match lookup(m, key) {
        Some(OptVal::Str(v)) => seq![prefix + v@],
        _ => Seq::empty(),
    }
}

/// An entry `key` that is `true` gives `on`; a string entry gives the prefix
/// and the string.
pub open spec fn switch_entry(m: Seq<(String, OptVal)>, key: Seq<char>, on: Seq<char>, prefix: Seq<char>) -> Seq<Seq<char>> {
    match lookup(m, key) {
        Some(OptVal::Bool(true)) => seq![on],
        Some(OptVal::Str(v)) => seq![prefix + v@],
        _ => Seq::empty(),
    }
}

fn push_str_entry(out: &mut Vec<String>, m: &Vec<(String, OptVal)>, key: &str, prefix: &str)
    ensures
        views(final(out)@) == views(old(out)@) + str_entry(m@, key@, prefix@),
{
    match lookup_opt(m, key) {
        Some(OptVal::Str(v)) => push_joined(out, prefix, v.as_str()),
        _ => {},
    }
    proof {
        assert(views(out@) =~= views(old(out)@) + str_entry(m@, key@, prefix@));
    }
}

fn push_switch_entry(out: &mut Vec<String>, m: &Vec<(String, OptVal)>, key: &str, on: &str, prefix: &str)
    ensures
        views(final(out)@) == views(old(out)@) + switch_entry(m@, key@, on@, prefix@),
{
    match lookup_opt(m, key) {
        Some(OptVal::Bool(true)) => push_text(out, on),
        Some(OptVal::Str(v)) => push_joined(out, prefix, v.as_str()),
        _ => {},
    }
    proof {
        assert(views(out@) =~= views(old(out)@) + switch_entry(m@, key@, on@, prefix@));
    }
}

/// An entry `key` that is `true` gives the flag.
pub open spec fn true_entry(m: Seq<(String, OptVal)>, key: Seq<char>, flag: Seq<char>) -> Seq<Seq<char>> {
    if lookup(m, key) == Some(OptVal::Bool(true)) { seq![flag] } else { Seq::empty() }
}

fn push_true_entry(out: &mut Vec<String>, m: &Vec<(String, OptVal)>, key: &str, flag: &str)
    ensures
        views(final(out)@) == views(old(out)@) + true_entry(m@, key@, flag@),
{
    match lookup_opt(m, key) {
        Some(OptVal::Bool(true)) => push_text(out, flag),
        _ => {},
    }
    proof {
        assert(views(out@) =~= views(old(out)@) + true_entry(m@, key@, flag@));
    }
}

/// The base options as GDC spells them.
pub open spec fn gdc_base_args(o: BaseOpts) -> Seq<Seq<char>> {
    val_args("-O"@, o.opt) + when(o.pic == Some(true), seq!["-fPIC"@, "-fpic"@]) + map_args("-g"@, o.dbg@) + map_args(
        "-m"@,
        o.mach@,
    ) + map_args("-f"@, o.feat@)
}

/// The base options as LDC spells them.
pub open spec fn ldc_base_args(o: BaseOpts) -> Seq<Seq<char>> {
    val_args("-O"@, o.opt) + switch_entry(o.feat@, "lto"@, "--flto=thin"@, "--flto="@) + when(
        o.dbg@.len() > 0,
        seq!["--gc"@],
    ) + true_entry(o.mach@, "32"@, "--m32"@) + true_entry(o.mach@, "64"@, "--m64"@) + str_entry(
        o.mach@,
        "arch"@,
        "--march="@,
    ) + str_entry(o.mach@, "cpu"@, "--mcpu="@) + str_entry(o.mach@, "attr"@, "--mattr="@) + switch_entry(
        o.mach@,
        "float_abi"@,
        "--float-abi=default"@,
        "--float-abi="@,
    )
}

/// The base options as a D compiler spells them.
pub open spec fn d_base_args(kind: crate::toolchain::DCompilerKind, o: BaseOpts) -> Seq<Seq<char>> {
    match kind {
        crate::toolchain::DCompilerKind::Gdc => gdc_base_args(o),
        crate::toolchain::DCompilerKind::Ldc => ldc_base_args(o),
    }
}

impl BaseOpts {
    #[verifier::rlimit(80)]
    fn fmt_gdc_args(&self, out: &mut Vec<String>)
        ensures
            views(final(out)@) == views(old(out)@) + gdc_base_args(*self),
    {
        let ghost o0 = views(out@);
        push_val(out, "-O", &self.opt);
        let ghost o1 = views(out@);
        if self.pic == Some(true) {
            push_text(out, "-fPIC");
            push_text(out, "-fpic");
        }
        proof {
            assert(views(out@) =~= o1 + when(self.pic == Some(true), seq!["-fPIC"@, "-fpic"@]));
        }
        push_map(out, "-g", &self.dbg);
        push_map(out, "-m", &self.mach);
        push_map(out, "-f", &self.feat);
        proof {
            assert(views(out@) =~= o0 + gdc_base_args(*self));
        }
    }

    #[verifier::rlimit(80)]
    fn fmt_ldc_args(&self, out: &mut Vec<String>)
        ensures
            views(final(out)@) == views(old(out)@) + ldc_base_args(*self),
    {
        let ghost o0 = views(out@);
        push_val(out, "-O", &self.opt);
        push_switch_entry(out, &self.feat, "lto", "--flto=thin", "--flto=");
        let ghost o1 = views(out@);
        if self.dbg.len() > 0 {
            push_text(out, "--gc");
        }
        proof {
            assert(views(out@) =~= o1 + when(self.dbg@.len() > 0, seq!["--gc"@]));
        }
        push_true_entry(out, &self.mach, "32", "--m32");
        push_true_entry(out, &self.mach, "64", "--m64");
        push_str_entry(out, &self.mach, "arch", "--march=");
        push_str_entry(out, &self.mach, "cpu", "--mcpu=");
        push_str_entry(out, &self.mach, "attr", "--mattr=");
        push_switch_entry(out, &self.mach, "float_abi", "--float-abi=default", "--float-abi=");
        proof {
            assert(views(out@) =~= o0 + ldc_base_args(*self));
        }
    }

    /// The base options as the D compiler `kind` spells them: LDC has its
    /// own flags for link-time optimisation, debug information and machine.
    pub fn fmt_d_args(&self, kind: crate::toolchain::DCompilerKind, out: &mut Vec<String>)
        ensures
            views(final(out)@) == views(old(out)@) + d_base_args(kind, *self),
    {
        match kind {
            crate::toolchain::DCompilerKind::Gdc => self.fmt_gdc_args(out),
            crate::toolchain::DCompilerKind::Ldc => self.fmt_ldc_args(out),
        }
    }
}

/// Options for compiling D sources.
#[derive(Debug, Default)]
pub struct DCompileOpts {
    pub release: Option<bool>,
    pub betterc: Option<bool>,
    /// `bounds` (a mode), `printf` (a switch), `action` (a mode).
    pub check: Vec<(String, OptVal)>,
    pub debug: Vec<(String, OptVal)>,
    pub version: Vec<(String, OptVal)>,
    pub preview: Vec<(String, String)>,
    pub feat: Vec<(String, OptVal)>,
    pub dirs: Vec<String>,
    pub no: Vec<String>,
    pub flags: Vec<String>,
}

/// The D options as the D compiler `kind` spells them.
pub open spec fn dcompile_args(kind: crate::toolchain::DCompilerKind, o: DCompileOpts) -> Seq<Seq<char>> {
    match kind {
        crate::toolchain::DCompilerKind::Gdc => bool_args("-frelease"@, o.release) + when(
            o.release == Some(false),
            seq!["-fassert"@],
        ) + when(o.betterc == Some(true), seq!["-fno-druntime"@]) + str_entry(o.check@, "bounds"@, "-fbounds-check="@)
            + switch_args("-fdebug"@, "="@, o.debug@) + map_args("-fversion"@, o.version@) + strmap_args(
            "-ftransition="@,
            o.preview@,
        ) + map_args("-f"@, o.feat@) + list_args("-I"@, o.dirs@) + list_args("-no"@, o.no@),
        crate::toolchain::DCompilerKind::Ldc => bool_args("--release"@, o.release) + bool_args("--betterC"@, o.betterc)
            + str_entry(o.check@, "bounds"@, "--boundscheck="@) + true_entry(o.check@, "printf"@, "--check-printf-calls"@)
            + str_entry(o.check@, "action"@, "--checkaction="@) + switch_args("--d-debug"@, "="@, o.debug@) + map_args(
            "--d-version="@,
            o.version@,
        ) + strmap_args("--preview="@, o.preview@) + switch_args("--enable-"@, "--disable-"@, o.feat@) + list_args(
            "-I="@,
            o.dirs@,
        ) + list_args("-J="@, o.dirs@) + list_args("-no"@, o.no@) + list_args(""@, o.flags@),
    }
}

impl DCompileOpts {
    #[verifier::rlimit(80)]
    fn fmt_gdc(&self, out: &mut Vec<String>)
        ensures
            views(final(out)@) == views(old(out)@) + dcompile_args(crate::toolchain::DCompilerKind::Gdc, *self),
    {
        let ghost o0 = views(out@);
        push_bool(out, "-frelease", self.release);
        let ghost o1 = views(out@);
        if self.release == Some(false) {
            push_text(out, "-fassert");
        }
        if self.betterc == Some(true) {
            push_text(out, "-fno-druntime");
        }
        proof {
            assert(views(out@) =~= o1 + when(self.release == Some(false), seq!["-fassert"@]) + when(
                self.betterc == Some(true),
                seq!["-fno-druntime"@],
            ));
        }
        push_str_entry(out, &self.check, "bounds", "-fbounds-check=");
        push_switches(out, "-fdebug", "=", &self.debug);
        push_map(out, "-fversion", &self.version);
        push_strmap(out, "-ftransition=", &self.preview);
        push_map(out, "-f", &self.feat);
        push_list(out, "-I", &self.dirs);
        push_list(out, "-no", &self.no);
        proof {
            assert(views(out@) =~= o0 + dcompile_args(crate::toolchain::DCompilerKind::Gdc, *self));
        }
    }

    #[verifier::rlimit(80)]
    fn fmt_ldc(&self, out: &mut Vec<String>)
        ensures
            views(final(out)@) == views(old(out)@) + dcompile_args(crate::toolchain::DCompilerKind::Ldc, *self),
    {
        let ghost o0 = views(out@);
        push_bool(out, "--release", self.release);
        push_bool(out, "--betterC", self.betterc);
        push_str_entry(out, &self.check, "bounds", "--boundscheck=");
        push_true_entry(out, &self.check, "printf", "--check-printf-calls");
        push_str_entry(out, &self.check, "action", "--checkaction=");
        push_switches(out, "--d-debug", "=", &self.debug);
        push_map(out, "--d-version=", &self.version);
        push_strmap(out, "--preview=", &self.preview);
        push_switches(out, "--enable-", "--disable-", &self.feat);
        push_list(out, "-I=", &self.dirs);
        push_list(out, "-J=", &self.dirs);
        push_list(out, "-no", &self.no);
        push_list(out, "", &self.flags);
        proof {
            assert(views(out@) =~= o0 + dcompile_args(crate::toolchain::DCompilerKind::Ldc, *self));
        }
    }

    /// The D options as the D compiler `kind` spells them.
    pub fn fmt_args(&self, kind: crate::toolchain::DCompilerKind, out: &mut Vec<String>)
        ensures
            views(final(out)@) == views(old(out)@) + dcompile_args(kind, *self),
    {
        match kind {
            crate::toolchain::DCompilerKind::Gdc => self.fmt_gdc(out),
            crate::toolchain::DCompilerKind::Ldc => self.fmt_ldc(out),
        }
    }
}

/// All option records of a toolchain.
#[derive(Debug, Default)]
pub struct ToolchainOpts {
    pub base: BaseOpts,
    /// For every C-family language.
    pub cc: CCompileOpts,
    pub c: CCompileOpts,
    pub cxx: CCompileOpts,
    pub d: DCompileOpts,
    pub link: LinkOpts,
    pub dump: DumpOpts,
    pub strip: StripOpts,
}

/// The options of the C driver for C and assembler sources.
pub open spec fn c_opts(o: ToolchainOpts) -> Seq<Seq<char>> {
    base_args(o.base) + ccompile_args(o.cc) + ccompile_args(o.c)
}

/// The options of the C driver for C++ sources.
pub open spec fn cxx_opts(o: ToolchainOpts) -> Seq<Seq<char>> {
    base_args(o.base) + ccompile_args(o.cc) + ccompile_args(o.cxx)
}

/// The options of the D compiler of family `kind`.
pub open spec fn d_opts(kind: crate::toolchain::CompilerKind, o: ToolchainOpts) -> Seq<Seq<char>> {
    let dk = match kind {
        crate::toolchain::CompilerKind::Gcc => crate::toolchain::DCompilerKind::Gdc,
        crate::toolchain::CompilerKind::Llvm => crate::toolchain::DCompilerKind::Ldc,
    };
    d_base_args(dk, o.base) + dcompile_args(dk, o.d)
}

/// The options of the linker driver.
pub open spec fn link_opts(o: ToolchainOpts) -> Seq<Seq<char>> {
    base_args(o.base) + link_args(o.link)
}

/// What the toolchain hash is computed from: the tools' properties, then,
/// after a marker each, the options of every kind of run as the tools
/// receive them. A change of options that changes any argument changes it.
pub open spec fn namespace_parts(props: Seq<String>, kind: crate::toolchain::CompilerKind, o: ToolchainOpts) -> Seq<Seq<char>> {
    views(props) + seq!["#c"@] + c_opts(o) + seq!["#cxx"@] + cxx_opts(o) + seq!["#d"@] + d_opts(kind, o) + seq!["#link"@]
        + link_opts(o) + seq!["#dump"@] + dump_args(o.dump) + seq!["#strip"@] + strip_args(o.strip)
}

impl ToolchainOpts {
    /// The options for compiling a C or assembler source.
    pub fn c_opts(&self) -> (r: Vec<String>)
        ensures
            views(r@) == c_opts(*self),
    {
        let mut out: Vec<String> = Vec::new();
        self.base.fmt_args(&mut out);
        self.cc.fmt_args(&mut out);
        self.c.fmt_args(&mut out);
        proof {
            assert(views(Seq::<String>::empty()) =~= Seq::<Seq<char>>::empty());
            assert(views(out@) =~= c_opts(*self));
        }
        out
    }

    /// The options for compiling a C++ source.
    pub fn cxx_opts(&self) -> (r: Vec<String>)
        ensures
            views(r@) == cxx_opts(*self),
    {
        let mut out: Vec<String> = Vec::new();
        self.base.fmt_args(&mut out);
        self.cc.fmt_args(&mut out);
        self.cxx.fmt_args(&mut out);
        proof {
            assert(views(Seq::<String>::empty()) =~= Seq::<Seq<char>>::empty());
            assert(views(out@) =~= cxx_opts(*self));
        }
        out
    }

    /// The options for compiling a D source with the D compiler of `kind`.
    pub fn d_opts(&self, kind: crate::toolchain::CompilerKind) -> (r: Vec<String>)
        ensures
            views(r@) == d_opts(kind, *self),
    {
        let dk = crate::toolchain::DCompilerKind::from_compiler(kind);
        let mut out: Vec<String> = Vec::new();
        self.base.fmt_d_args(dk, &mut out);
        self.d.fmt_args(dk, &mut out);
        proof {
            assert(views(Seq::<String>::empty()) =~= Seq::<Seq<char>>::empty());
            assert(views(out@) =~= d_opts(kind, *self));
        }
        out
    }

    /// The options for linking.
    pub fn link_opts(&self) -> (r: Vec<String>)
        ensures
            views(r@) == link_opts(*self),
    {
        let mut out: Vec<String> = Vec::new();
        self.base.fmt_args(&mut out);
        self.link.fmt_args(&mut out);
        proof {
            assert(views(Seq::<String>::empty()) =~= Seq::<Seq<char>>::empty());
            assert(views(out@) =~= link_opts(*self));
        }
        out
    }

    /// The options for compiling a source of language `input`.
    pub fn compile_opts(&self, input: crate::toolchain::CInputKind, kind: crate::toolchain::CompilerKind) -> (r: Vec<String>)
        ensures
            views(r@) == (match input {
                crate::toolchain::CInputKind::Cxx => cxx_opts(*self),
                crate::toolchain::CInputKind::D => d_opts(kind, *self),
                _ => c_opts(*self),
            }),
    {
        match input {
            crate::toolchain::CInputKind::Cxx => self.cxx_opts(),
            crate::toolchain::CInputKind::D => self.d_opts(kind),
            _ => self.c_opts(),
        }
    }

    /// What the toolchain hash of tools with properties `props` (paths,
    /// version, target, platform) and these options is computed from.
    #[verifier::rlimit(80)]
    pub fn namespace_parts(&self, props: &Vec<String>, kind: crate::toolchain::CompilerKind) -> (r: Vec<String>)
        ensures
            views(r@) == namespace_parts(props@, kind, *self),
    {
        let mut out: Vec<String> = Vec::new();
        push_list(&mut out, "", props);
        push_text(&mut out, "#c");
        let a = self.c_opts();
        push_list(&mut out, "", &a);
        push_text(&mut out, "#cxx");
        let b = self.cxx_opts();
        push_list(&mut out, "", &b);
        push_text(&mut out, "#d");
        let c = self.d_opts(kind);
        push_list(&mut out, "", &c);
        push_text(&mut out, "#link");
        let d = self.link_opts();
        push_list(&mut out, "", &d);
        push_text(&mut out, "#dump");
        self.dump.fmt_args(&mut out);
        push_text(&mut out, "#strip");
        self.strip.fmt_args(&mut out);
        proof {
            reveal_strlit("");
            assert(views(Seq::<String>::empty()) =~= Seq::<Seq<char>>::empty());
            lemma_list_plain(props@);
            lemma_list_plain(a@);
            lemma_list_plain(b@);
            lemma_list_plain(c@);
            lemma_list_plain(d@);
            assert(views(out@) =~= namespace_parts(props@, kind, *self));
        }
        out
    }
}

/// Without a prefix, a list gives its strings.
proof fn lemma_list_plain(v: Seq<String>)
    ensures
        list_args(""@, v) == views(v),
    decreases v.len(),
{
    reveal_strlit("");
    if v.len() > 0 {
        lemma_list_plain(v.drop_last());
        assert(v.drop_last().push(v.last()) =~= v);
        assert(views(v) =~= views(v.drop_last()).push(v.last()@));
        assert(""@ + v.last()@ =~= v.last()@);
        assert(list_args(""@, v) =~= list_args(""@, v.drop_last()) + seq![v.last()@]);
    } else {
        assert(views(v) =~= Seq::<Seq<char>>::empty());
    }
}

} // verus!
