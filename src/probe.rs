//! What the compiler probe computes from the tools' answers: the version
//! and target that clang reports, the places where GCC's companion tools may
//! be, and the names of the companion tools of each family.

use vstd::prelude::*;
use crate::diag_parser::{trim_range, trimmed};
use crate::options::views;
use crate::scan::{find_char, find_from, lemma_find_from};
use crate::text::{chars_of, matches_at, occurs_at, push_all, string_of};
use crate::toolchain::CompilerKind;

verus! {

/// `s` without its line feeds.
pub open spec fn drop_lf(s: Seq<char>) -> Seq<char>
    decreases s.len(),
{
    if s.len() == 0 {
        s
    } else if s.last() == '\n' {
        drop_lf(s.drop_last())
    } else {
        drop_lf(s.drop_last()).push(s.last())
    }
}

/// A tool's answer without its line feeds.
pub fn strip_newlines(s: &str) -> (r: String)
    ensures
        r@ == drop_lf(s@),
{
    let cs = chars_of(s);
    let mut out: Vec<char> = Vec::new();
    let mut k: usize = 0;
    while k < cs.len()
        invariant
            k <= cs@.len(),
            out@ == drop_lf(cs@.subrange(0, k as int)),
        decreases cs@.len() - k,
    {
        if cs[k] != '\n' {
            out.push(cs[k]);
        }
        k = k + 1;
        proof {
            assert(cs@.subrange(0, k as int).drop_last() =~= cs@.subrange(0, k as int - 1));
        }
    }
    proof {
        assert(cs@.subrange(0, k as int) =~= cs@);
    }
    string_of(&out)
}

/// Where GCC's companion tool `name` may be: beside the compiler (its path
/// with the final `gcc` or `g++` replaced by `name`), under the target's
/// prefix, and by its bare name unless the compiler's own name is prefixed
/// (its path minus those three characters ends in `-`).
pub open spec fn gcc_candidates(cc: Seq<char>, target: Seq<char>, name: Seq<char>) -> Seq<Seq<char>> {
    let pre = cc.subrange(0, cc.len() - 3);
    let two = seq![pre + name, target + seq!['-'] + name];
    if pre.len() > 0 && pre.last() == '-' {
        two
    } else {
        two.push(name)
    }
}

fn joined(a: &Vec<char>, b: &str) -> (r: String)
    ensures
        r@ == a@ + b@,
{
    let mut cs = a.clone();
    proof {
        assert(cs@ == a@);
    }
    let bs = chars_of(b);
    push_all(&mut cs, &bs);
    string_of(&cs)
}

/// The paths to try for GCC's companion tool `name`, in order.
pub fn gcc_tool_candidates(cc: &str, target: &str, name: &str) -> (r: Vec<String>)
    requires
        cc@.len() >= 3,
    ensures
        views(r@) == gcc_candidates(cc@, target@, name@),
{
    let cs = chars_of(cc);
    let pre = crate::deps::copy_range(&cs, 0, cs.len() - 3);
    let mut out: Vec<String> = Vec::new();
    let a = joined(&pre, name);
    let mut t = chars_of(target);
    t.push('-');
    let b = joined(&t, name);
    let ghost av = a@;
    let ghost bv = b@;
    proof {
        assert(av =~= cc@.subrange(0, cc@.len() - 3) + name@);
        assert(bv =~= target@ + seq!['-'] + name@);
    }
    out.push(a);
    out.push(b);
    let prefixed = pre.len() > 0 && pre[pre.len() - 1] == '-';
    if !prefixed {
        let c = name.to_owned();
        out.push(c);
        proof {
            assert(views(out@) =~= seq![av, bv, c@]);
            assert(views(out@) =~= gcc_candidates(cc@, target@, name@));
        }
    } else {
        proof {
            assert(views(out@) =~= seq![av, bv]);
            assert(views(out@) =~= gcc_candidates(cc@, target@, name@));
        }
    }
    out
}

pub open spec fn companion_names(kind: CompilerKind) -> Seq<Seq<char>> {
    match kind {
        CompilerKind::Gcc => seq!["gcc-ar"@, "gcc-nm"@, "size"@, "strip"@, "objcopy"@, "objdump"@, "readelf"@],
        CompilerKind::Llvm => seq![
            "llvm-ar"@,
            "llvm-nm"@,
            "llvm-size"@,
            "llvm-strip"@,
            "llvm-objcopy"@,
            "llvm-objdump"@,
            "llvm-readelf"@,
        ],
    }
}

/// The companion tools of a compiler family: archiver, `nm`, `size`,
/// `strip`, `objcopy`, `objdump` and `readelf`, in this order.
pub fn companion_tools(kind: CompilerKind) -> (r: Vec<&'static str>)
    ensures
        r@.map_values(|t: &'static str| t@) == companion_names(kind),
{
    let v: Vec<&'static str> = match kind {
        CompilerKind::Gcc => vec!["gcc-ar", "gcc-nm", "size", "strip", "objcopy", "objdump", "readelf"],
        CompilerKind::Llvm => vec![
            "llvm-ar",
            "llvm-nm",
            "llvm-size",
            "llvm-strip",
            "llvm-objcopy",
            "llvm-objdump",
            "llvm-readelf",
        ],
    };
    proof {
        assert(v@.map_values(|t: &'static str| t@) =~= companion_names(kind));
    }
    v
}

/// The D compiler that goes with a compiler family.
pub fn d_compiler_name(kind: CompilerKind) -> (r: &'static str)
    ensures
        r@ == (match kind {
            CompilerKind::Gcc => "gdc"@,
            CompilerKind::Llvm => "ldc2"@,
        }),
{
    match kind {
        CompilerKind::Gcc => "gdc",
        CompilerKind::Llvm => "ldc2",
    }
}

/// The first index in `[i, hi]` at which `p` occurs within `s[..hi]`, or `hi`.
pub open spec fn first_occ(s: Seq<char>, p: Seq<char>, i: int, hi: int) -> int
    decreases hi - i,
{
    if i < 0 || i >= hi || i + p.len() > hi {
        hi
    } else if occurs_at(s, i, p) {
        i
    } else {
        first_occ(s, p, i + 1, hi)
    }
}

pub open spec fn min_of(a: int, b: int) -> int {
    if a <= b { a } else { b }
}

/// The version and target in clang's `--version` answer: the version is
/// the word after the first `clang version ` of the first line; the target is
/// the rest of a second line that starts with `Target:`, trimmed.
pub open spec fn clang_version_of(s: Seq<char>) -> Option<(Seq<char>, Seq<char>)> {
    let e0 = find_from(s, '\n', 0);
    let p = first_occ(s, "clang version "@, 0, e0);
    let v0 = p + 14;
    let q = first_occ(s, "clang version "@, v0, e0);
    let end = min_of(find_from(s, ' ', v0), q);
    let e1 = find_from(s, '\n', e0 + 1);
    if p < e0 && e0 < s.len() && occurs_at(s, e0 + 1, "Target:"@) && e0 + 8 <= e1 {
        Some((s.subrange(v0, end), trimmed(s, e0 + 8, e1)))
    } else {
        None
    }
}

proof fn lemma_first_occ(s: Seq<char>, p: Seq<char>, i: int, hi: int)
    requires
        0 <= i,
        hi <= s.len(),
    ensures
        first_occ(s, p, i, hi) == hi || (i <= first_occ(s, p, i, hi) && first_occ(s, p, i, hi) + p.len() <= hi),
        i <= hi ==> i <= first_occ(s, p, i, hi) <= hi,
    decreases hi - i,
{
    if i < hi && i + p.len() <= hi && !occurs_at(s, i, p) {
        lemma_first_occ(s, p, i + 1, hi);
    }
}

fn find_text(s: &Vec<char>, p: &Vec<char>, from: usize, hi: usize) -> (r: usize)
    requires
        from <= hi <= s@.len(),
    ensures
        r as int == first_occ(s@, p@, from as int, hi as int),
        from <= r <= hi,
{
    let mut i = from;
    while i < hi && hi - i >= p.len()
        invariant
            from <= i <= hi <= s@.len(),
            first_occ(s@, p@, from as int, hi as int) == first_occ(s@, p@, i as int, hi as int),
        decreases hi - i,
    {
        if matches_at(s, i, p) {
            return i;
        }
        i = i + 1;
    }
    hi
}

/// Reads clang's `--version` answer.
pub fn parse_clang_version(out: &str) -> (r: Option<(String, String)>)
    ensures
        match clang_version_of(out@) {
            Some((v, t)) => r is Some && (r->0).0@ == v && (r->0).1@ == t,
            None => r is None,
        },
{
    let s = chars_of(out);
    let n = s.len();
    let marker = chars_of("clang version ");
    let target_tag = chars_of("Target:");
    proof {
        reveal_strlit("clang version ");
        reveal_strlit("Target:");
        lemma_find_from(s@, '\n', 0);
    }
    let e0 = find_char(&s, '\n', 0);
    let p = find_text(&s, &marker, 0, e0);
    if !(p < e0 && e0 < n) {
        return None;
    }
    proof {
        lemma_first_occ(s@, marker@, 0, e0 as int);
        lemma_find_from(s@, '\n', e0 + 1);
    }
    let e1 = find_char(&s, '\n', e0 + 1);
    if !(matches_at(&s, e0 + 1, &target_tag) && e0 + 8 <= e1) {
        return None;
    }
    let v0 = p + 14;
    proof {
        lemma_find_from(s@, ' ', v0 as int);
    }
    let q = find_text(&s, &marker, v0, e0);
    let sp = find_char(&s, ' ', v0);
    let end = if sp <= q { sp } else { q };
    let version = crate::deps::copy_range(&s, v0, end);
    let target = trim_range(&s, e0 + 8, e1);
    Some((string_of(&version), string_of(&target)))
}

} // verus!
