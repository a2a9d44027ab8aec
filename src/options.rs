//! Toolchain options: a small dynamic value type and its command-line form.

use vstd::prelude::*;
use crate::text::{chars_of, dec, push_all, push_decimal, string_of};
use crate::toolchain::{CInputKind, COutputKind};

verus! {

/// The value of an option.
#[derive(Debug, Clone, PartialEq, Eq, Hash)]
pub enum OptVal {
    Off,
    Bool(bool),
    Int(i32),
    Str(String),
}

impl Default for OptVal {
    fn default() -> (r: Self)
        ensures
            r is Off,
    {
        OptVal::Off
    }
}

/// Decimal notation of a signed number.
pub open spec fn int_text(v: i32) -> Seq<char> {
    if v < 0 {
        seq!['-'] + dec((-(v as int)) as nat)
    } else {
        dec(v as nat)
    }
}

/// What follows the flag for a value that takes one.
pub open spec fn value_text(v: OptVal) -> Option<Seq<char>> {
    match v {
        OptVal::Int(i) => Some(int_text(i)),
        OptVal::Str(s) => Some(s@),
        _ => None,
    }
}

/// The arguments that a flag with a value stands for: the bare flag for
/// `true`, the flag, the separator and the value for a number or a string,
/// nothing for `false` or off.
pub open spec fn opt_args(flag: Seq<char>, sep: Seq<char>, v: OptVal) -> Seq<Seq<char>> {
    match value_text(v) {
        Some(t) => seq![flag + sep + t],
        None => if v == OptVal::Bool(true) {
            seq![flag]
        } else {
            Seq::empty()
        },
    }
}

pub open spec fn views(v: Seq<String>) -> Seq<Seq<char>> {
    v.map_values(|s: String| s@)
}

/// The arguments of all values of an option, in order.
pub open spec fn set_args(flag: Seq<char>, sep: Seq<char>, vals: Seq<OptVal>) -> Seq<Seq<char>>
    decreases vals.len(),
{
    if vals.len() == 0 {
        Seq::empty()
    } else {
        set_args(flag, sep, vals.drop_last()) + opt_args(flag, sep, vals.last())
    }
}

/// Something that turns into command-line arguments.
pub trait FormatArgs {
    spec fn args(&self) -> Seq<Seq<char>>;

    /// Appends the arguments to `out`.
    fn fmt_args(&self, out: &mut Vec<String>)
        ensures
            views(final(out)@) == views(old(out)@) + self.args(),
    ;
}

/// One flag and one value: `-O` with `Int(2)` gives `-O2`.
#[derive(Debug, Clone)]
pub struct FlagValue {
    pub flag: String,
    pub value: OptVal,
}

/// One flag for each of several values, with a separator between flag and
/// value: `-D` and `=`.
#[derive(Debug, Clone)]
pub struct FlagValues {
    pub flag: String,
    pub sep: String,
    pub values: Vec<OptVal>,
}

pub(crate) fn push_int(out: &mut Vec<char>, v: i32)
    ensures
        final(out)@ == old(out)@ + int_text(v),
{
    if v < 0 {
        out.push('-');
        let m: u64 = if v == i32::MIN { 0x8000_0000 } else { (-v) as u64 };
        push_decimal(out, m);
        proof {
            assert(out@ =~= old(out)@ + int_text(v));
        }
    } else {
        push_decimal(out, v as u64);
    }
}

pub(crate) proof fn lemma_views_push(v: Seq<String>, s: String)
    ensures
        views(v.push(s)) == views(v).push(s@),
{
    assert(views(v.push(s)) =~= views(v).push(s@));
}

pub(crate) fn push_opt(out: &mut Vec<String>, flag: &str, sep: &str, v: &OptVal)
    ensures
        views(final(out)@) == views(old(out)@) + opt_args(flag@, sep@, *v),
{
    match v {
        OptVal::Bool(true) => {
            let s = flag.to_owned();
            proof {
                lemma_views_push(out@, s);
            }
            out.push(s);
            proof {
                assert(views(out@) =~= views(old(out)@) + opt_args(flag@, sep@, *v));
            }
        },
        OptVal::Int(i) => {
            let mut cs = chars_of(flag);
            let sc = chars_of(sep);
            push_all(&mut cs, &sc);
            push_int(&mut cs, *i);
            let s = string_of(&cs);
            proof {
                lemma_views_push(out@, s);
            }
            out.push(s);
            proof {
                assert(views(out@) =~= views(old(out)@) + opt_args(flag@, sep@, *v));
            }
        },
        OptVal::Str(t) => {
            let mut cs = chars_of(flag);
            let sc = chars_of(sep);
            push_all(&mut cs, &sc);
            let tc = chars_of(t.as_str());
            push_all(&mut cs, &tc);
            let s = string_of(&cs);
            proof {
                lemma_views_push(out@, s);
            }
            out.push(s);
            proof {
                assert(views(out@) =~= views(old(out)@) + opt_args(flag@, sep@, *v));
            }
        },
        _ => {
            proof {
                assert(views(out@) =~= views(old(out)@) + opt_args(flag@, sep@, *v));
            }
        },
    }
}

impl FormatArgs for FlagValue {
    open spec fn args(&self) -> Seq<Seq<char>> {
        opt_args(self.flag@, Seq::empty(), self.value)
    }

    fn fmt_args(&self, out: &mut Vec<String>) {
        proof {
            reveal_strlit("");
        }
        push_opt(out, self.flag.as_str(), "", &self.value);
    }
}

impl FormatArgs for FlagValues {
    open spec fn args(&self) -> Seq<Seq<char>> {
        set_args(self.flag@, self.sep@, self.values@)
    }

    fn fmt_args(&self, out: &mut Vec<String>) {
        let ghost start = views(out@);
        let mut k: usize = 0;
        while k < self.values.len()
            invariant
                k <= self.values@.len(),
                start == views(old(out)@),
                views(out@) == start + set_args(self.flag@, self.sep@, self.values@.subrange(0, k as int)),
            decreases self.values@.len() - k,
        {
            push_opt(out, self.flag.as_str(), self.sep.as_str(), &self.values[k]);
            proof {
                let pre = self.values@.subrange(0, k as int + 1);
                assert(pre.drop_last() =~= self.values@.subrange(0, k as int));
            }
            k = k + 1;
            proof {
                assert(views(out@) =~= start + set_args(self.flag@, self.sep@, self.values@.subrange(0, k as int)));
            }
        }
        proof {
            assert(self.values@.subrange(0, k as int) =~= self.values@);
        }
    }
}

/// An option's name as a flag spells it: each `_` becomes `-`.
pub open spec fn flag_name(name: Seq<char>) -> Seq<char> {
    name.map_values(|c: char| if c == '_' { '-' } else { c })
}

/// An option name.
#[derive(Debug, Clone)]
pub struct OptName(pub String);

impl OptName {
    /// The name as a flag spells it.
    pub fn to_text(&self) -> (r: String)
        ensures
            r@ == flag_name(self.0@),
    {
        let cs = chars_of(self.0.as_str());
        let mut out: Vec<char> = Vec::new();
        let mut k: usize = 0;
        while k < cs.len()
            invariant
                k <= cs@.len(),
                cs@ == self.0@,
                out@ == flag_name(cs@.subrange(0, k as int)),
            decreases cs@.len() - k,
        {
            let c = cs[k];
            out.push(if c == '_' { '-' } else { c });
            k = k + 1;
            proof {
                assert(out@ =~= flag_name(cs@.subrange(0, k as int)));
            }
        }
        proof {
            assert(cs@.subrange(0, k as int) =~= cs@);
        }
        string_of(&out)
    }
}

/// Which compiler to look for: a name or path, and a target triple; either
/// may be empty.
#[derive(Debug, Clone, Default)]
pub struct DetectOpts {
    pub compiler: String,
    pub target: String,
}

/// The executables to try, in order.
pub open spec fn candidates_of(compiler: Seq<char>, target: Seq<char>) -> Seq<Seq<char>> {
    if compiler.len() == 0 {
        if target.len() == 0 {
            seq!["gcc"@, "clang"@]
        } else {
            seq![target + "-gcc"@, target + "-clang"@, "clang"@]
        }
    } else if target.len() == 0 {
        seq![compiler, compiler]
    } else {
        seq![target + seq!['-'] + compiler, compiler]
    }
}

fn joined(a: &str, b: &str) -> (r: String)
    ensures
        r@ == a@ + b@,
{
    let mut cs = chars_of(a);
    let bs = chars_of(b);
    push_all(&mut cs, &bs);
    string_of(&cs)
}

impl DetectOpts {
    /// The executables to try when looking for the compiler, in order: the
    /// target-prefixed name first, then the bare one.
    pub fn candidates(&self) -> (r: Vec<String>)
        ensures
            views(r@) == candidates_of(self.compiler@, self.target@),
    {
        let mut out: Vec<String> = Vec::new();
        let no_target = self.target.as_str().is_empty();
        proof {
            reveal_strlit("-");
        }
        if self.compiler.as_str().is_empty() {
            if no_target {
                let a = "gcc".to_owned();
                let b = "clang".to_owned();
                out.push(a);
                out.push(b);
                proof {
                    assert(views(out@) =~= seq![a@, b@]);
                }
            } else {
                let a = joined(self.target.as_str(), "-gcc");
                let b = joined(self.target.as_str(), "-clang");
                let c = "clang".to_owned();
                out.push(a);
                out.push(b);
                out.push(c);
                proof {
                    assert(views(out@) =~= seq![a@, b@, c@]);
                }
            }
        } else {
            let b = self.compiler.clone();
            if no_target {
                let a = self.compiler.clone();
                out.push(a);
                out.push(b);
                proof {
                    assert(views(out@) =~= seq![a@, b@]);
                }
            } else {
                let t = joined(self.target.as_str(), "-");
                let a = joined(t.as_str(), self.compiler.as_str());
                out.push(a);
                out.push(b);
                proof {
                    assert(views(out@) =~= seq![a@, b@]);
                    assert(a@ =~= self.target@ + seq!['-'] + self.compiler@);
                }
            }
        }
        out
    }

    /// Takes the fields of `other` that are not empty.
    pub fn extend(&mut self, other: DetectOpts)
        ensures
            final(self).compiler@ == (if other.compiler@.len() == 0 {
                old(self).compiler@
            } else {
                other.compiler@
            }),
            final(self).target@ == (if other.target@.len() == 0 {
                old(self).target@
            } else {
                other.target@
            }),
    {
        let DetectOpts { compiler, target } = other;
        if !compiler.as_str().is_empty() {
            self.compiler = compiler;
        }
        if !target.as_str().is_empty() {
            self.target = target;
        }
    }
}

/// What a compile rule is asked for: the source language, when the extension
/// should not decide it, and the output kind.
#[derive(Debug, Clone, Copy, Default, PartialEq, Eq)]
pub struct CompileOptions {
    pub input: Option<CInputKind>,
    pub output: COutputKind,
}

/// Which symbols a symbol listing shows.
#[derive(Debug, Clone, Default, PartialEq, Eq)]
pub struct NmOptions {
    /// Only debug symbols.
    pub debug: bool,
    /// Demangle symbols, in this style.
    pub demangle: Option<String>,
    /// Dynamic symbols.
    pub dynamic: bool,
    /// Only defined symbols.
    pub defined: bool,
    /// Only undefined symbols.
    pub undefined: bool,
    /// Only external symbols.
    pub external: bool,
    /// Also special symbols.
    pub special: bool,
    /// Also synthetic symbols.
    pub synthetic: bool,
}

} // verus!
