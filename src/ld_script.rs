//! Linker scripts: the record a build script fills in, and its text.

use vstd::prelude::*;
use crate::text::{chars_of, dec, push_all, push_decimal, string_of};

verus! {

/// The lower-case hexadecimal digit of `d`.
pub open spec fn hex_char(d: nat) -> char {
    if d < 10 {
        crate::text::digit_char(d)
    } else if d == 10 {
        'a'
    } else if d == 11 {
        'b'
    } else if d == 12 {
        'c'
    } else if d == 13 {
        'd'
    } else if d == 14 {
        'e'
    } else {
        'f'
    }
}

/// Hexadecimal notation, lower case, without leading zeros.
pub open spec fn hex(n: nat) -> Seq<char>
    decreases n,
{
    if n < 16 {
        seq![hex_char(n)]
    } else {
        hex(n / 16).push(hex_char(n % 16))
    }
}

fn hex_digit(d: u64) -> (c: char)
    requires
        d < 16,
    ensures
        c == hex_char(d as nat),
{
    if d < 10 {
        if d == 0 { '0' }
        else if d == 1 { '1' }
        else if d == 2 { '2' }
        else if d == 3 { '3' }
        else if d == 4 { '4' }
        else if d == 5 { '5' }
        else if d == 6 { '6' }
        else if d == 7 { '7' }
        else if d == 8 { '8' }
        else { '9' }
    } else if d == 10 {
        'a'
    } else if d == 11 {
        'b'
    } else if d == 12 {
        'c'
    } else if d == 13 {
        'd'
    } else if d == 14 {
        'e'
    } else {
        'f'
    }
}

/// Appends the hexadecimal notation of `n`.
pub fn push_hex(out: &mut Vec<char>, n: u64)
    ensures
        final(out)@ == old(out)@ + hex(n as nat),
    decreases n,
{
    if n < 16 {
        out.push(hex_digit(n));
    } else {
        push_hex(out, n / 16);
        out.push(hex_digit(n % 16));
    }
}

/// A memory region: where it starts, how long it is, and what it allows.
#[derive(Debug, Clone, Copy, PartialEq, Eq, Default, Structural)]
pub struct LdRegion {
    pub address: u64,
    pub size: u64,
    pub read: bool,
    pub write: bool,
    pub execute: bool,
}

pub open spec fn flag(b: bool, c: char) -> Seq<char> {
    if b { seq![c] } else { Seq::empty() }
}

/// `(rwx) : ORIGIN = 0x…, LENGTH = 0x…` and a line feed.
pub open spec fn region_text(r: LdRegion) -> Seq<char> {
    seq!['('] + flag(r.read, 'r') + flag(r.write, 'w') + flag(r.execute, 'x') + ") : ORIGIN = 0x"@
        + hex(r.address as nat) + ", LENGTH = 0x"@ + hex(r.size as nat) + seq!['\n']
}

impl LdRegion {
    /// The region as the `MEMORY` block of a linker script writes it.
    pub fn push_text(&self, out: &mut Vec<char>)
        ensures
            final(out)@ == old(out)@ + region_text(*self),
    {
        out.push('(');
        if self.read {
            out.push('r');
        }
        if self.write {
            out.push('w');
        }
        if self.execute {
            out.push('x');
        }
        let a = chars_of(") : ORIGIN = 0x");
        push_all(out, &a);
        push_hex(out, self.address);
        let b = chars_of(", LENGTH = 0x");
        push_all(out, &b);
        push_hex(out, self.size);
        out.push('\n');
        proof {
            assert(out@ =~= old(out)@ + region_text(*self));
        }
    }
}

/// An expression that a `PROVIDE` assigns.
#[derive(Debug, PartialEq, Eq)]
pub enum LdProvideExpr {
    Int(i64),
    Neg(Box<LdProvideExpr>),
    Sum(Vec<LdProvideExpr>),
    /// Start of a memory region.
    Start(String),
    /// End of a memory region.
    End(String),
    /// Length of a memory region.
    Size(String),
}

/// Decimal notation of a signed number.
pub open spec fn signed_dec(v: i64) -> Seq<char> {
    if v < 0 {
        seq!['-'] + dec((-(v as int)) as nat)
    } else {
        dec(v as nat)
    }
}

pub open spec fn expr_text(e: LdProvideExpr) -> Seq<char>
    decreases e,
{
    match e {
        LdProvideExpr::Int(v) => signed_dec(v),
        LdProvideExpr::Neg(b) => "-("@ + expr_text(*b) + ")"@,
        LdProvideExpr::Sum(v) => if v@.len() == 0 {
            "0"@
        } else {
            sum_text(v@, v@.len() as int)
        },
        LdProvideExpr::Start(n) => "ORIGIN("@ + n@ + ")"@,
        LdProvideExpr::End(n) => "ORIGIN("@ + n@ + ") + LENGTH("@ + n@ + ")"@,
        LdProvideExpr::Size(n) => "LENGTH("@ + n@ + ")"@,
    }
}

/// The first `k` terms of a sum, joined by ` + `.
pub open spec fn sum_text(v: Seq<LdProvideExpr>, k: int) -> Seq<char>
    decreases v, k,
{
    if k <= 0 || k > v.len() {
        Seq::empty()
    } else if k == 1 {
        expr_text(v[0])
    } else {
        sum_text(v, k - 1) + " + "@ + expr_text(v[k - 1])
    }
}

fn push_signed(out: &mut Vec<char>, v: i64)
    ensures
        final(out)@ == old(out)@ + signed_dec(v),
{
    if v < 0 {
        out.push('-');
        let m: u64 = if v == i64::MIN { 0x8000_0000_0000_0000 } else { (-v) as u64 };
        push_decimal(out, m);
        proof {
            assert(out@ =~= old(out)@ + signed_dec(v));
        }
    } else {
        push_decimal(out, v as u64);
    }
}

fn push_str(out: &mut Vec<char>, s: &str)
    ensures
        final(out)@ == old(out)@ + s@,
{
    let cs = chars_of(s);
    push_all(out, &cs);
}

impl LdProvideExpr {
    /// Appends the expression in linker-script syntax.
    pub fn push_text(&self, out: &mut Vec<char>)
        ensures
            final(out)@ == old(out)@ + expr_text(*self),
        decreases self,
    {
        match self {
            LdProvideExpr::Int(v) => push_signed(out, *v),
            LdProvideExpr::Neg(b) => {
                push_str(out, "-(");
                b.push_text(out);
                push_str(out, ")");
                proof {
                    assert(out@ =~= old(out)@ + expr_text(*self));
                }
            },
            LdProvideExpr::Sum(v) => {
                if v.len() == 0 {
                    push_str(out, "0");
                } else {
                    let mut k: usize = 0;
                    while k < v.len()
                        invariant
                            k <= v@.len(),
                            v@.len() > 0,
                            *self == LdProvideExpr::Sum(*v),
                            out@ == old(out)@ + sum_text(v@, k as int),
                        decreases v@.len() - k,
                    {
                        if k > 0 {
                            push_str(out, " + ");
                        }
                        proof {
                            assert((*self)->Sum_0 == *v);
                            assert(decreases_to!(*self => (*self)->Sum_0));
                            assert(decreases_to!(*v => v@));
                            assert(decreases_to!(v@ => v@[k as int]));
                            assert(decreases_to!(*self => v@[k as int]));
                        }
                        v[k].push_text(out);
                        k = k + 1;
                        proof {
                            if k == 1 {
                                assert(sum_text(v@, 0) =~= Seq::<char>::empty());
                                assert(out@ =~= old(out)@ + sum_text(v@, 1));
                            } else {
                                assert(out@ =~= old(out)@ + sum_text(v@, k as int));
                            }
                        }
                    }
                }
            },
            LdProvideExpr::Start(n) => {
                push_str(out, "ORIGIN(");
                push_str(out, n.as_str());
                push_str(out, ")");
                proof {
                    assert(out@ =~= old(out)@ + expr_text(*self));
                }
            },
            LdProvideExpr::End(n) => {
                push_str(out, "ORIGIN(");
                push_str(out, n.as_str());
                push_str(out, ") + LENGTH(");
                push_str(out, n.as_str());
                push_str(out, ")");
                proof {
                    assert(out@ =~= old(out)@ + expr_text(*self));
                }
            },
            LdProvideExpr::Size(n) => {
                push_str(out, "LENGTH(");
                push_str(out, n.as_str());
                push_str(out, ")");
                proof {
                    assert(out@ =~= old(out)@ + expr_text(*self));
                }
            },
        }
    }
}

/// The texts of the items of `v`, one after another.
pub open spec fn concat_map<T>(v: Seq<T>, f: spec_fn(T) -> Seq<char>) -> Seq<char>
    decreases v.len(),
{
    if v.len() == 0 {
        Seq::empty()
    } else {
        concat_map(v.drop_last(), f) + f(v.last())
    }
}

/// A linker script, as a build script describes it. Each list keeps the
/// order in which its entries were given.
#[derive(Debug, Default)]
pub struct LdScript {
    pub entry: Option<String>,
    pub memory: Vec<(String, LdRegion)>,
    pub externs: Vec<String>,
    pub provides: Vec<(String, LdProvideExpr)>,
    pub sections: Vec<String>,
    pub includes: Vec<String>,
}

pub open spec fn memory_line(m: (String, LdRegion)) -> Seq<char> {
    "    "@ + m.0@ + seq![' '] + region_text(m.1) + seq!['\n']
}

pub open spec fn extern_line(n: String) -> Seq<char> {
    "EXTERN("@ + n@ + ");\n"@
}

pub open spec fn provide_line(p: (String, LdProvideExpr)) -> Seq<char> {
    "PROVIDE("@ + p.0@ + " = "@ + expr_text(p.1) + ");\n"@
}

pub open spec fn include_line(n: String) -> Seq<char> {
    "INCLUDE "@ + n@ + seq!['\n']
}

pub open spec fn section_text(n: String) -> Seq<char> {
    n@
}

/// The text of a linker script: `MEMORY`, `ENTRY`, `EXTERN`, `PROVIDE`,
/// `INCLUDE` and `SECTIONS`, in this order; an empty block is left out.
pub open spec fn script_text(s: &LdScript) -> Seq<char> {
    let memory = if s.memory@.len() == 0 {
        Seq::empty()
    } else {
        "MEMORY {\n"@ + concat_map(s.memory@, |m: (String, LdRegion)| memory_line(m)) + "}\n"@
    };
    let entry = match &s.entry {
        Some(e) => "ENTRY("@ + e@ + ");\n"@,
        None => Seq::empty(),
    };
    let sections = if s.sections@.len() == 0 {
        Seq::empty()
    } else {
        "SECTIONS {\n"@ + concat_map(s.sections@, |n: String| section_text(n)) + "}\n"@
    };
    memory + entry + concat_map(s.externs@, |n: String| extern_line(n)) + concat_map(
        s.provides@,
        |p: (String, LdProvideExpr)| provide_line(p),
    ) + concat_map(s.includes@, |n: String| include_line(n)) + sections
}

impl LdScript {
    /// The script's text.
    pub fn to_text(&self) -> (r: String)
        ensures
            r@ == script_text(self),
    {
        let mut out: Vec<char> = Vec::new();
        if self.memory.len() > 0 {
            push_str(&mut out, "MEMORY {\n");
            let ghost start = out@;
            let mut k: usize = 0;
            while k < self.memory.len()
                invariant
                    k <= self.memory@.len(),
                    out@ == start + concat_map(self.memory@.subrange(0, k as int), |m: (String, LdRegion)| memory_line(m)),
                decreases self.memory@.len() - k,
            {
                let m = &self.memory[k];
                push_str(&mut out, "    ");
                push_str(&mut out, m.0.as_str());
                out.push(' ');
                m.1.push_text(&mut out);
                out.push('\n');
                proof {
                    let pre = self.memory@.subrange(0, k as int + 1);
                    assert(pre.drop_last() =~= self.memory@.subrange(0, k as int));
                }
                k = k + 1;
                proof {
                    assert(out@ =~= start + concat_map(self.memory@.subrange(0, k as int), |m: (String, LdRegion)| memory_line(m)));
                }
            }
            proof {
                assert(self.memory@.subrange(0, k as int) =~= self.memory@);
            }
            push_str(&mut out, "}\n");
        }
        let ghost after_memory = out@;
        match &self.entry {
            Some(e) => {
                push_str(&mut out, "ENTRY(");
                push_str(&mut out, e.as_str());
                push_str(&mut out, ");\n");
            },
            None => {},
        }
        let ghost s1 = out@;
        let mut k: usize = 0;
        while k < self.externs.len()
            invariant
                k <= self.externs@.len(),
                out@ == s1 + concat_map(self.externs@.subrange(0, k as int), |n: String| extern_line(n)),
            decreases self.externs@.len() - k,
        {
            push_str(&mut out, "EXTERN(");
            push_str(&mut out, self.externs[k].as_str());
            push_str(&mut out, ");\n");
            proof {
                let pre = self.externs@.subrange(0, k as int + 1);
                assert(pre.drop_last() =~= self.externs@.subrange(0, k as int));
            }
            k = k + 1;
            proof {
                assert(out@ =~= s1 + concat_map(self.externs@.subrange(0, k as int), |n: String| extern_line(n)));
            }
        }
        proof {
            assert(self.externs@.subrange(0, k as int) =~= self.externs@);
        }
        let ghost s2 = out@;
        let mut k: usize = 0;
        while k < self.provides.len()
            invariant
                k <= self.provides@.len(),
                out@ == s2 + concat_map(self.provides@.subrange(0, k as int), |p: (String, LdProvideExpr)| provide_line(p)),
            decreases self.provides@.len() - k,
        {
            let p = &self.provides[k];
            push_str(&mut out, "PROVIDE(");
            push_str(&mut out, p.0.as_str());
            push_str(&mut out, " = ");
            p.1.push_text(&mut out);
            push_str(&mut out, ");\n");
            proof {
                let pre = self.provides@.subrange(0, k as int + 1);
                assert(pre.drop_last() =~= self.provides@.subrange(0, k as int));
            }
            k = k + 1;
            proof {
                assert(out@ =~= s2 + concat_map(self.provides@.subrange(0, k as int), |p: (String, LdProvideExpr)| provide_line(p)));
            }
        }
        proof {
            assert(self.provides@.subrange(0, k as int) =~= self.provides@);
        }
        let ghost s3 = out@;
        let mut k: usize = 0;
        while k < self.includes.len()
            invariant
                k <= self.includes@.len(),
                out@ == s3 + concat_map(self.includes@.subrange(0, k as int), |n: String| include_line(n)),
            decreases self.includes@.len() - k,
        {
            push_str(&mut out, "INCLUDE ");
            push_str(&mut out, self.includes[k].as_str());
            out.push('\n');
            proof {
                let pre = self.includes@.subrange(0, k as int + 1);
                assert(pre.drop_last() =~= self.includes@.subrange(0, k as int));
            }
            k = k + 1;
            proof {
                assert(out@ =~= s3 + concat_map(self.includes@.subrange(0, k as int), |n: String| include_line(n)));
            }
        }
        proof {
            assert(self.includes@.subrange(0, k as int) =~= self.includes@);
        }
        let ghost s4 = out@;
        if self.sections.len() > 0 {
            push_str(&mut out, "SECTIONS {\n");
            let ghost start = out@;
            let mut k: usize = 0;
            while k < self.sections.len()
                invariant
                    k <= self.sections@.len(),
                    out@ == start + concat_map(self.sections@.subrange(0, k as int), |n: String| section_text(n)),
                decreases self.sections@.len() - k,
            {
                push_str(&mut out, self.sections[k].as_str());
                proof {
                    let pre = self.sections@.subrange(0, k as int + 1);
                    assert(pre.drop_last() =~= self.sections@.subrange(0, k as int));
                }
                k = k + 1;
                proof {
                    assert(out@ =~= start + concat_map(self.sections@.subrange(0, k as int), |n: String| section_text(n)));
                }
            }
            proof {
                assert(self.sections@.subrange(0, k as int) =~= self.sections@);
            }
            push_str(&mut out, "}\n");
        }
        proof {
            assert(out@ =~= script_text(self));
        }
        string_of(&out)
    }
}

impl LdScript {
    /// What the linker-script rule writes: the script, then an `INCLUDE` of
    /// each script that the rule reads.
    pub fn rule_text(&self, includes: &Vec<String>) -> (r: String)
        ensures
            r@ == script_text(self) + concat_map(includes@, |n: String| include_line(n)),
    {
        let head = self.to_text();
        let mut out = chars_of(head.as_str());
        let ghost start = out@;
        let mut k: usize = 0;
        while k < includes.len()
            invariant
                k <= includes@.len(),
                out@ == start + concat_map(includes@.subrange(0, k as int), |n: String| include_line(n)),
            decreases includes@.len() - k,
        {
            push_str(&mut out, "INCLUDE ");
            push_str(&mut out, includes[k].as_str());
            out.push('\n');
            proof {
                let pre = includes@.subrange(0, k as int + 1);
                assert(pre.drop_last() =~= includes@.subrange(0, k as int));
            }
            k = k + 1;
            proof {
                assert(out@ =~= start + concat_map(includes@.subrange(0, k as int), |n: String| include_line(n)));
            }
        }
        proof {
            assert(includes@.subrange(0, k as int) =~= includes@);
        }
        string_of(&out)
    }
}

} // verus!
