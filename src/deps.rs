//! Dependency files that compilers write: Make rules and D module lists.

use vstd::prelude::*;
use crate::artifact::{ArtifactKind, ArtifactStore, ArtifactType};
use crate::caret::last_in;
use crate::options::views;
use crate::scan::{find_char, find_from, lemma_find_from};
use crate::text::{chars_of, string_of};

verus! {

pub open spec fn cviews(v: Seq<Vec<char>>) -> Seq<Seq<char>> {
    v.map_values(|x: Vec<char>| x@)
}

pub open spec fn flush(deps: bool, tok: Seq<char>) -> Seq<Seq<char>> {
    if deps && tok.len() > 0 {
        seq![tok]
    } else {
        Seq::empty()
    }
}

/// The dependency tokens of a Make rule file from `i` on. `deps` tells
/// whether the scan is right of a rule's `:`, `comment` whether it is in a
/// comment, and `tok` holds the token read so far. A backslash before a line
/// feed continues the line; a backslash before a space puts the space in the
/// token; `#` starts a comment.
pub open spec fn make_scan(s: Seq<char>, i: int, deps: bool, comment: bool, tok: Seq<char>) -> Seq<Seq<char>>
    decreases s.len() - i,
{
    if i < 0 || i >= s.len() {
        flush(deps, tok)
    } else {
        let c = s[i];
        if comment {
            if c == '\n' {
                make_scan(s, i + 1, false, false, Seq::empty())
            } else {
                make_scan(s, i + 1, deps, true, tok)
            }
        } else if c == '\\' && i + 1 < s.len() && s[i + 1] == '\n' {
            flush(deps, tok) + make_scan(s, i + 2, deps, false, Seq::empty())
        } else if c == '\\' && i + 1 < s.len() && s[i + 1] == ' ' {
            make_scan(s, i + 2, deps, false, tok.push(' '))
        } else if c == '#' {
            flush(deps, tok) + make_scan(s, i + 1, deps, true, Seq::empty())
        } else if c == ':' && !deps {
            make_scan(s, i + 1, true, false, Seq::empty())
        } else if c == ' ' || c == '\t' || c == '\r' {
            flush(deps, tok) + make_scan(s, i + 1, deps, false, Seq::empty())
        } else if c == '\n' {
            flush(deps, tok) + make_scan(s, i + 1, false, false, Seq::empty())
        } else {
            make_scan(s, i + 1, deps, false, tok.push(c))
        }
    }
}

/// The items of `v` without repeats, each where it first occurs.
pub open spec fn dedup(v: Seq<Seq<char>>) -> Seq<Seq<char>>
    decreases v.len(),
{
    if v.len() == 0 {
        Seq::empty()
    } else {
        let d = dedup(v.drop_last());
        if d.contains(v.last()) {
            d
        } else {
            d.push(v.last())
        }
    }
}

/// The dependencies that a Make rule file names: the union of the right-hand
/// sides of its rules.
pub open spec fn make_deps(s: Seq<char>) -> Seq<Seq<char>> {
    dedup(make_scan(s, 0, false, false, Seq::empty()))
}

fn same_chars(a: &Vec<char>, b: &Vec<char>) -> (r: bool)
    ensures
        r == (a@ == b@),
{
    if a.len() != b.len() {
        return false;
    }
    let r = crate::text::matches_at(a, 0, b);
    proof {
        assert(a@ =~= a@.subrange(0, b@.len() as int));
    }
    r
}

fn holds(v: &Vec<Vec<char>>, t: &Vec<char>) -> (r: bool)
    ensures
        r == cviews(v@).contains(t@),
{
    let ghost vs = cviews(v@);
    let mut k: usize = 0;
    while k < v.len()
        invariant
            k <= v@.len(),
            vs == cviews(v@),
            forall|j: int| 0 <= j < k ==> vs[j] != t@,
        decreases v@.len() - k,
    {
        if same_chars(&v[k], t) {
            proof {
                assert(vs[k as int] == t@);
            }
            return true;
        }
        k = k + 1;
    }
    false
}

/// Appends the token to `out` unless it is empty, outside a rule's right-hand
/// side, or already there.
fn emit(out: &mut Vec<Vec<char>>, deps: bool, tok: Vec<char>, ghost_all: Ghost<Seq<Seq<char>>>) -> (r_all: Ghost<Seq<Seq<char>>>)
    requires
        cviews(old(out)@) == dedup(ghost_all@),
    ensures
        r_all@ == ghost_all@ + flush(deps, tok@),
        cviews(final(out)@) == dedup(r_all@),
{
    let ghost all = ghost_all@;
    if deps && tok.len() > 0 {
        let ghost next = all.push(tok@);
        proof {
            assert(next.drop_last() =~= all);
            assert(all + flush(deps, tok@) =~= next);
        }
        if !holds(out, &tok) {
            let ghost before = out@;
            out.push(tok);
            proof {
                assert(cviews(out@) =~= cviews(before).push(
                    next.last(),
                ));
            }
        }
        Ghost(next)
    } else {
        proof {
            assert(all + flush(deps, tok@) =~= all);
        }
        Ghost(all)
    }
}

/// The dependencies that a Make rule file names, each once.
pub fn parse_make_deps(text: &str) -> (r: Vec<String>)
    ensures
        views(r@) == make_deps(text@),
{
    let s = chars_of(text);
    let n = s.len();
    let mut out: Vec<Vec<char>> = Vec::new();
    let mut all: Ghost<Seq<Seq<char>>> = Ghost(Seq::empty());
    let mut deps = false;
    let mut comment = false;
    let mut tok: Vec<char> = Vec::new();
    let mut i: usize = 0;
    proof {
        assert(cviews(out@) =~= dedup(all@));
    }
    while i < n
        invariant
            n == s@.len(),
            i <= n,
            cviews(out@) == dedup(all@),
            all@ + make_scan(s@, i as int, deps, comment, tok@) == make_scan(s@, 0, false, false, Seq::empty()),
            comment ==> tok@.len() == 0,
        decreases n - i,
    {
        let c = s[i];
        let ghost before = all@ + make_scan(s@, i as int, deps, comment, tok@);
        if comment {
            proof {
                assert(tok@ =~= Seq::<char>::empty());
            }
            if c == '\n' {
                deps = false;
                comment = false;
            }
            i = i + 1;
            proof {
                assert(all@ + make_scan(s@, i as int, deps, comment, tok@) == before);
            }
        } else if c == '\\' && i + 1 < n && s[i + 1] == '\n' {
            let t = tok;
            tok = Vec::new();
            all = emit(&mut out, deps, t, all);
            proof {
                assert(all@ + make_scan(s@, i + 2, deps, false, Seq::empty()) =~= before);
            }
            i = i + 2;
        } else if c == '\\' && i + 1 < n && s[i + 1] == ' ' {
            let ghost t0 = tok@;
            tok.push(' ');
            i = i + 2;
            proof {
                assert(make_scan(s@, i - 2, deps, false, t0) == make_scan(s@, i as int, deps, false, tok@));
            }
        } else if c == '#' {
            let t = tok;
            tok = Vec::new();
            all = emit(&mut out, deps, t, all);
            proof {
                assert(all@ + make_scan(s@, i + 1, deps, true, Seq::empty()) =~= before);
            }
            comment = true;
            i = i + 1;
        } else if c == ':' && !deps {
            let ghost t0 = tok@;
            tok = Vec::new();
            deps = true;
            i = i + 1;
            proof {
                assert(make_scan(s@, i - 1, false, false, t0) == make_scan(s@, i as int, true, false, tok@));
            }
        } else if c == ' ' || c == '\t' || c == '\r' {
            let t = tok;
            tok = Vec::new();
            all = emit(&mut out, deps, t, all);
            proof {
                assert(all@ + make_scan(s@, i + 1, deps, false, Seq::empty()) =~= before);
            }
            i = i + 1;
        } else if c == '\n' {
            let t = tok;
            tok = Vec::new();
            all = emit(&mut out, deps, t, all);
            proof {
                assert(all@ + make_scan(s@, i + 1, false, false, Seq::empty()) =~= before);
            }
            deps = false;
            i = i + 1;
        } else {
            let ghost t0 = tok@;
            tok.push(c);
            i = i + 1;
            proof {
                assert(make_scan(s@, i - 1, deps, false, t0) == make_scan(s@, i as int, deps, false, tok@));
            }
        }
    }
    let t = tok;
            tok = Vec::new();
    all = emit(&mut out, deps, t, all);
    proof {
        assert(all@ =~= make_scan(s@, 0, false, false, Seq::empty()));
    }
    let mut r: Vec<String> = Vec::new();
    let mut k: usize = 0;
    while k < out.len()
        invariant
            k <= out@.len(),
            r@.len() == k,
            views(r@) == cviews(out@).subrange(0, k as int),
        decreases out@.len() - k,
    {
        let st = string_of(&out[k]);
        let ghost r0 = r@;
        r.push(st);
        k = k + 1;
        proof {
            assert(r@ == r0.push(st));
            assert(views(r@).len() == k);
            assert(st@ == out@[k - 1]@);
            assert(views(r@)[k - 1] == r@[k - 1]@);
            assert(cviews(out@)[k - 1] == out@[k - 1]@);
            assert forall|j: int| 0 <= j < k implies #[trigger] views(r@)[j] == cviews(out@).subrange(0, k as int)[j] by {
                if j < k - 1 {
                    assert(views(r0)[j] == cviews(out@).subrange(0, k - 1)[j]);
                    assert(views(r@)[j] == r@[j]@);
                    assert(views(r0)[j] == r0[j]@);
                }
            }
            assert(views(r@) =~= cviews(out@).subrange(0, k as int));
        }
    }
    proof {
        assert(cviews(out@).subrange(0, k as int) =~= cviews(out@));
    }
    r
}

/// The dependency that the line `s[lo..hi]` of a D dependency file names:
/// the path in the last parentheses, after a `:`.
pub open spec fn d_line_dep(s: Seq<char>, lo: int, hi: int) -> Option<Seq<char>> {
    let p = last_in(s, '(', lo, hi);
    let q = find_from(s, ')', p + 1);
    if p < hi && q < hi && p + 1 < q && find_from(s, ':', lo) < p {
        Some(s.subrange(p + 1, q))
    } else {
        None
    }
}

/// The dependencies that the lines of a D dependency file from `i` on name.
pub open spec fn d_scan(s: Seq<char>, i: int) -> Seq<Seq<char>>
    decreases s.len() - i,
{
    if i < 0 || i >= s.len() {
        Seq::empty()
    } else {
        let e = find_from(s, '\n', i);
        let rest = if i <= e < s.len() { d_scan(s, e + 1) } else { Seq::empty() };
        match d_line_dep(s, i, e) {
            Some(d) => seq![d] + rest,
            None => rest,
        }
    }
}

/// The dependencies that a D dependency file names, each once.
pub open spec fn d_deps(s: Seq<char>) -> Seq<Seq<char>> {
    dedup(d_scan(s, 0))
}

pub(crate) fn copy_range(s: &Vec<char>, lo: usize, hi: usize) -> (r: Vec<char>)
    requires
        lo <= hi <= s@.len(),
    ensures
        r@ == s@.subrange(lo as int, hi as int),
{
    let mut out: Vec<char> = Vec::new();
    let mut k = lo;
    while k < hi
        invariant
            lo <= k <= hi <= s@.len(),
            out@ == s@.subrange(lo as int, k as int),
        decreases hi - k,
    {
        out.push(s[k]);
        k = k + 1;
        proof {
            assert(out@ =~= s@.subrange(lo as int, k as int));
        }
    }
    out
}

fn to_strings(out: &Vec<Vec<char>>) -> (r: Vec<String>)
    ensures
        views(r@) == cviews(out@),
{
    let mut r: Vec<String> = Vec::new();
    let mut k: usize = 0;
    while k < out.len()
        invariant
            k <= out@.len(),
            r@.len() == k,
            views(r@) == cviews(out@).subrange(0, k as int),
        decreases out@.len() - k,
    {
        let st = string_of(&out[k]);
        let ghost r0 = r@;
        r.push(st);
        k = k + 1;
        proof {
            assert(r@ == r0.push(st));
            assert(st@ == out@[k - 1]@);
            assert(views(r@)[k - 1] == r@[k - 1]@);
            assert(cviews(out@)[k - 1] == out@[k - 1]@);
            assert forall|j: int| 0 <= j < k implies #[trigger] views(r@)[j] == cviews(out@).subrange(0, k as int)[j] by {
                if j < k - 1 {
                    assert(views(r0)[j] == cviews(out@).subrange(0, k - 1)[j]);
                    assert(views(r@)[j] == r@[j]@);
                    assert(views(r0)[j] == r0[j]@);
                }
            }
            assert(views(r@) =~= cviews(out@).subrange(0, k as int));
        }
    }
    proof {
        assert(cviews(out@).subrange(0, k as int) =~= cviews(out@));
    }
    r
}

/// The dependencies that a D dependency file names, each once.
pub fn parse_d_deps(text: &str) -> (r: Vec<String>)
    ensures
        views(r@) == d_deps(text@),
{
    let s = chars_of(text);
    let n = s.len();
    let mut out: Vec<Vec<char>> = Vec::new();
    let mut all: Ghost<Seq<Seq<char>>> = Ghost(Seq::empty());
    let mut i: usize = 0;
    proof {
        assert(cviews(out@) =~= dedup(all@));
    }
    while i < n
        invariant
            n == s@.len(),
            i <= n,
            cviews(out@) == dedup(all@),
            all@ + d_scan(s@, i as int) == d_scan(s@, 0),
        decreases n - i,
    {
        proof {
            lemma_find_from(s@, '\n', i as int);
        }
        let e = find_char(&s, '\n', i);
        let ghost rest = if e < n { d_scan(s@, e + 1) } else { Seq::empty() };
        let ghost before = all@;
        let p = crate::caret::last_index(&s, '(', i, e);
        let mut found = false;
        if p < e {
            proof {
                lemma_find_from(s@, ')', p + 1);
                lemma_find_from(s@, ':', i as int);
            }
            let q = find_char(&s, ')', p + 1);
            let colon = find_char(&s, ':', i);
            if q < e && p + 1 < q && colon < p {
                let d = copy_range(&s, p + 1, q);
                all = emit(&mut out, true, d, all);
                found = true;
                proof {
                    assert(d_line_dep(s@, i as int, e as int) == Some(s@.subrange(p + 1, q as int)));
                    assert(all@ + rest =~= before + d_scan(s@, i as int));
                }
            }
        }
        proof {
            if !found {
                assert(d_line_dep(s@, i as int, e as int) is None);
                assert(d_scan(s@, i as int) == rest);
            }
        }
        if e < n {
            i = e + 1;
        } else {
            i = n;
            proof {
                assert(all@ + Seq::<Seq<char>>::empty() =~= all@);
            }
        }
    }
    proof {
        assert(all@ + Seq::<Seq<char>>::empty() =~= all@);
    }
    to_strings(&out)
}

impl ArtifactStore {
    /// Artifact `a` is the actual artifact of one of `names`.
    pub open spec fn named_in(&self, names: Seq<String>, a: usize) -> bool {
        exists|m: int| 0 <= m < names.len() && self.lookup((#[trigger] names[m])@, ArtifactKind::Actual) == Some(a)
    }

    /// Interns each dependency but `skip` (the compiled source itself) as a
    /// source file; gives their artifacts.
    pub fn intern_deps(&mut self, deps: &Vec<String>, skip: &str) -> (r: Vec<usize>)
        requires
            old(self).wf(),
        ensures
            final(self).wf(),
            final(self).rule_seq() == old(self).rule_seq(),
            forall|k: int| 0 <= k < r@.len() ==> #[trigger] r@[k] < final(self).arts().len(),
            forall|j: int| 0 <= j < deps@.len() && (#[trigger] deps@[j])@ != skip@ ==> (exists|k: int|
                0 <= k < r@.len() && final(self).lookup(deps@[j]@, ArtifactKind::Actual) == Some(r@[k])),
            forall|k: int| 0 <= k < r@.len() ==> final(self).named_in(deps@, #[trigger] r@[k]),
            forall|k: int| 0 <= k < r@.len() ==> final(self).arts()[#[trigger] r@[k] as int].name@ != skip@,
            final(self).arts().len() >= old(self).arts().len(),
            forall|i: int| 0 <= i < old(self).arts().len() ==> #[trigger] final(self).arts()[i] == old(self).arts()[i],
            forall|n: Seq<char>, k: ArtifactKind| #[trigger] final(self).lookup(n, k) != old(self).lookup(n, k) ==> (
                k == ArtifactKind::Actual && n != skip@),
    {
        let mut out: Vec<usize> = Vec::new();
        let mut j: usize = 0;
        let sk = skip.to_owned();
        while j < deps.len()
            invariant
                self.wf(),
                self.rule_seq() == old(self).rule_seq(),
                j <= deps@.len(),
                sk@ == skip@,
                forall|k: int| 0 <= k < out@.len() ==> #[trigger] out@[k] < self.arts().len(),
                forall|m: int| 0 <= m < j && (#[trigger] deps@[m])@ != skip@ ==> (exists|k: int|
                    0 <= k < out@.len() && self.lookup(deps@[m]@, ArtifactKind::Actual) == Some(out@[k])),
                forall|k: int| 0 <= k < out@.len() ==> self.named_in(deps@, #[trigger] out@[k]),
                forall|k: int| 0 <= k < out@.len() ==> self.arts()[#[trigger] out@[k] as int].name@ != skip@,
                self.arts().len() >= old(self).arts().len(),
                forall|i: int| 0 <= i < old(self).arts().len() ==> #[trigger] self.arts()[i] == old(self).arts()[i],
                forall|n: Seq<char>, k: ArtifactKind| #[trigger] self.lookup(n, k) != old(self).lookup(n, k) ==> (
                    k == ArtifactKind::Actual && n != skip@),
            decreases deps@.len() - j,
        {
            if deps[j] != sk {
                let ghost before = *self;
                let ghost out0 = out@;
                match self.intern(deps[j].as_str(), ArtifactKind::Actual, ArtifactType::Source, "") {
                    Ok(a) => {
                        out.push(a);
                        proof {
                            assert forall|i: int| 0 <= i < before.arts().len() implies #[trigger] self.arts()[i] == before.arts()[i] by {
                                if self.arts() != before.arts() {
                                    assert(self.arts().subrange(0, before.arts().len() as int)[i] == self.arts()[i]);
                                }
                            }
                            assert forall|i: int| 0 <= i < old(self).arts().len() implies #[trigger] self.arts()[i] == old(self).arts()[i] by {
                                assert(self.arts()[i] == before.arts()[i]);
                            }
                            self.lemma_lookup_found(deps@[j as int]@, ArtifactKind::Actual);
                            assert forall|k: int| 0 <= k < out@.len() implies self.arts()[#[trigger] out@[k] as int].name@ != skip@ by {
                                if k < out0.len() {
                                    assert(out@[k] == out0[k]);
                                    assert(out0[k] < before.arts().len());
                                    if self.arts() != before.arts() {
                                        assert(self.arts().subrange(0, before.arts().len() as int)[out0[k] as int] == self.arts()[out0[k] as int]);
                                    }
                                    assert(self.arts()[out0[k] as int] == before.arts()[out0[k] as int]);
                                } else {
                                    assert(out@[k] == a);
                                }
                            }
                            assert forall|n: Seq<char>, k: ArtifactKind| #[trigger] self.lookup(n, k) != old(self).lookup(n, k) implies (
                                k == ArtifactKind::Actual && n != skip@) by {
                                if !(n == deps@[j as int]@ && k == ArtifactKind::Actual) {
                                    assert(self.lookup(n, k) == before.lookup(n, k));
                                }
                            }
                            assert forall|k: int| 0 <= k < out@.len() implies #[trigger] out@[k] < self.arts().len() by {
                                if k < out0.len() {
                                    assert(out0[k] < before.arts().len());
                                }
                            }
                            assert forall|m: int| 0 <= m < j + 1 && (#[trigger] deps@[m])@ != skip@ implies (exists|k: int|
                                0 <= k < out@.len() && self.lookup(deps@[m]@, ArtifactKind::Actual) == Some(out@[k])) by {
                                if m < j {
                                    let k = choose|k: int| 0 <= k < out0.len() && before.lookup(deps@[m]@, ArtifactKind::Actual) == Some(out0[k]);
                                    if deps@[m]@ != deps@[j as int]@ {
                                        assert(self.lookup(deps@[m]@, ArtifactKind::Actual) == before.lookup(deps@[m]@, ArtifactKind::Actual));
                                    }
                                    assert(out@[k] == out0[k]);
                                } else {
                                    assert(out@[out0.len() as int] == a);
                                }
                            }
                            assert forall|k: int| 0 <= k < out@.len() implies self.named_in(deps@, #[trigger] out@[k]) by {
                                if k < out0.len() {
                                    assert(before.named_in(deps@, out0[k]));
                                    let m = choose|m: int| 0 <= m < deps@.len() && before.lookup((#[trigger] deps@[m])@, ArtifactKind::Actual) == Some(out0[k]);
                                    if deps@[m]@ != deps@[j as int]@ {
                                        assert(self.lookup(deps@[m]@, ArtifactKind::Actual) == before.lookup(deps@[m]@, ArtifactKind::Actual));
                                    } else {
                                        before.lemma_lookup_found(deps@[m]@, ArtifactKind::Actual);
                                    }
                                    assert(out@[k] == out0[k]);
                                } else {
                                    assert(self.lookup(deps@[j as int]@, ArtifactKind::Actual) == Some(out@[k]));
                                    assert(self.named_in(deps@, out@[k]));
                                }
                            }
                        }
                    },
                    Err(_) => {
                        proof {
                            assert(false);
                        }
                    },
                }
            }
            j = j + 1;
        }
        out
    }
}

} // verus!
