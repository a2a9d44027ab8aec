//! What the build does when files change while it watches them.

use vstd::prelude::*;
use crate::artifact::{ArtifactKind, ArtifactStore};

verus! {

/// What to do after a batch of file changes.
#[derive(Debug, Clone, Copy, PartialEq, Eq, Structural)]
pub enum WatchAction {
    /// A rules file changed or vanished: load the rules anew.
    Reload,
    /// Sources changed: build the goals again.
    Rebuild,
    /// Nothing the build depends on changed.
    Nothing,
}

/// A touched path is a rules file that is newer than when it was read, or gone.
pub open spec fn reload_needed(touched: Seq<(String, u64, u64)>, rules: Seq<(String, u64, Option<u64>)>) -> bool {
    exists|i: int, j: int|
        0 <= i < touched.len() && 0 <= j < rules.len() && (#[trigger] touched[i]).0@ == (#[trigger] rules[j]).0@
            && match rules[j].2 {
            Some(now) => now > rules[j].1,
            None => true,
        }
}

/// The artifact times after `update_source` for each touched path in turn:
/// `(name, seen, given)` sets a source's time to `given` when `seen` is newer.
pub open spec fn times_after(s: ArtifactStore, t: Seq<u64>, touched: Seq<(String, u64, u64)>) -> Seq<u64>
    decreases touched.len(),
{
    if touched.len() == 0 {
        t
    } else {
        let prev = times_after(s, t, touched.drop_last());
        let e = touched.last();
        match s.lookup(e.0@, ArtifactKind::Actual) {
            Some(i) => if i < prev.len() && s.arts()[i as int].rule is None && e.1 > prev[i as int] {
                prev.update(i as int, e.2)
            } else {
                prev
            },
            None => prev,
        }
    }
}

/// Whether one of those updates changed a source.
pub open spec fn any_update(s: ArtifactStore, t: Seq<u64>, touched: Seq<(String, u64, u64)>) -> bool
    decreases touched.len(),
{
    if touched.len() == 0 {
        false
    } else {
        let prev = times_after(s, t, touched.drop_last());
        let e = touched.last();
        any_update(s, t, touched.drop_last()) || match s.lookup(e.0@, ArtifactKind::Actual) {
            Some(i) => i < prev.len() && s.arts()[i as int].rule is None && e.1 > prev[i as int],
            None => false,
        }
    }
}

pub open spec fn times_of(s: ArtifactStore) -> Seq<u64> {
    Seq::new(s.arts().len(), |i: int| s.time_of(i))
}

proof fn lemma_same_lookup(a: ArtifactStore, b: ArtifactStore, n: Seq<char>, k: ArtifactKind)
    requires
        a.wf(),
        b.wf(),
        a.same_graph(&b),
    ensures
        a.lookup(n, k) == b.lookup(n, k),
{
    if b.lookup(n, k) is Some {
        b.lemma_lookup_found(n, k);
        let i = b.lookup(n, k)->0;
        assert(crate::artifact::same_but_time(a.arts()[i as int], b.arts()[i as int]));
        a.lemma_lookup_unique(n, k, i);
    } else if a.lookup(n, k) is Some {
        a.lemma_lookup_found(n, k);
        let i = a.lookup(n, k)->0;
        assert(crate::artifact::same_but_time(a.arts()[i as int], b.arts()[i as int]));
        b.lemma_lookup_unique(n, k, i);
    }
}

fn names_match(touched: &Vec<(String, u64, u64)>, rules: &Vec<(String, u64, Option<u64>)>) -> (r: bool)
    ensures
        r == reload_needed(touched@, rules@),
{
    let mut i: usize = 0;
    while i < touched.len()
        invariant
            i <= touched@.len(),
            forall|a: int, b: int|
                0 <= a < i && 0 <= b < rules@.len() && (#[trigger] touched@[a]).0@ == (#[trigger] rules@[b]).0@ ==> !match rules@[b].2 {
                    Some(now) => now > rules@[b].1,
                    None => true,
                },
        decreases touched@.len() - i,
    {
        let mut j: usize = 0;
        while j < rules.len()
            invariant
                i < touched@.len(),
                j <= rules@.len(),
                forall|a: int, b: int|
                    0 <= a < i && 0 <= b < rules@.len() && (#[trigger] touched@[a]).0@ == (#[trigger] rules@[b]).0@ ==> !match rules@[b].2 {
                        Some(now) => now > rules@[b].1,
                        None => true,
                    },
                forall|b: int|
                    0 <= b < j && touched@[i as int].0@ == (#[trigger] rules@[b]).0@ ==> !match rules@[b].2 {
                        Some(now) => now > rules@[b].1,
                        None => true,
                    },
            decreases rules@.len() - j,
        {
            if touched[i].0 == rules[j].0 {
                let changed = match rules[j].2 {
                    Some(now) => now > rules[j].1,
                    None => true,
                };
                if changed {
                    proof {
                        assert(touched@[i as int].0@ == rules@[j as int].0@);
                    }
                    return true;
                }
            }
            j = j + 1;
        }
        i = i + 1;
    }
    false
}

impl ArtifactStore {
    /// Decides what a batch of changes calls for. `touched` holds, per path,
    /// its time on disk and the time of the change; `rules` holds, per rules
    /// file, the time it had when read and its time now (`None` if gone).
    /// A changed rules file asks for a reload, and the store is left alone;
    /// otherwise each touched source is updated as `update_source` does, and
    /// the goals are rebuilt when one was.
    pub fn on_changes(&mut self, touched: &Vec<(String, u64, u64)>, rules: &Vec<(String, u64, Option<u64>)>) -> (r: WatchAction)
        requires
            old(self).wf(),
        ensures
            final(self).wf(),
            final(self).same_graph(old(self)),
            final(self).rule_seq() == old(self).rule_seq(),
            reload_needed(touched@, rules@) ==> r == WatchAction::Reload && final(self).arts() == old(self).arts(),
            !reload_needed(touched@, rules@) ==> times_of(*final(self)) == times_after(*old(self), times_of(*old(self)), touched@)
                && (r == (if any_update(*old(self), times_of(*old(self)), touched@) {
                    WatchAction::Rebuild
                } else {
                    WatchAction::Nothing
                })),
    {
        if names_match(touched, rules) {
            proof {
                assert(self.same_graph(old(self))) by {
                    assert forall|i: int| 0 <= i < self.arts().len() implies #[trigger] crate::artifact::same_but_time(self.arts()[i], old(self).arts()[i]) by {
                    }
                }
            }
            return WatchAction::Reload;
        }
        let ghost s0 = *old(self);
        let ghost t0 = times_of(s0);
        let mut any = false;
        let mut k: usize = 0;
        proof {
            assert(touched@.subrange(0, 0) =~= Seq::<(String, u64, u64)>::empty());
            assert(times_of(*self) =~= t0);
            assert(self.same_graph(old(self))) by {
                assert forall|i: int| 0 <= i < self.arts().len() implies #[trigger] crate::artifact::same_but_time(self.arts()[i], old(self).arts()[i]) by {
                }
            }
        }
        while k < touched.len()
            invariant
                s0 == *old(self),
                t0 == times_of(s0),
                s0.wf(),
                self.wf(),
                self.same_graph(&s0),
                self.rule_seq() == s0.rule_seq(),
                k <= touched@.len(),
                times_of(*self) == times_after(s0, t0, touched@.subrange(0, k as int)),
                any == any_update(s0, t0, touched@.subrange(0, k as int)),
            decreases touched@.len() - k,
        {
            let ghost before = *self;
            let e = &touched[k];
            let changed = self.update_source(e.0.as_str(), e.1, Some(e.2));
            proof {
                let pre = touched@.subrange(0, k as int + 1);
                assert(pre.drop_last() =~= touched@.subrange(0, k as int));
                assert(pre.last() == touched@[k as int]);
                lemma_same_lookup(before, s0, e.0@, ArtifactKind::Actual);
                let prev = times_of(before);
                match s0.lookup(e.0@, ArtifactKind::Actual) {
                    Some(i) => {
                        before.lemma_lookup_found(e.0@, ArtifactKind::Actual);
                        assert(crate::artifact::same_but_time(before.arts()[i as int], s0.arts()[i as int]));
                        assert(prev[i as int] == before.time_of(i as int));
                    },
                    None => {},
                }
                assert(self.same_graph(&s0)) by {
                    assert forall|i: int| 0 <= i < self.arts().len() implies #[trigger] crate::artifact::same_but_time(self.arts()[i], s0.arts()[i]) by {
                        assert(crate::artifact::same_but_time(self.arts()[i], before.arts()[i]));
                        assert(crate::artifact::same_but_time(before.arts()[i], s0.arts()[i]));
                    }
                    assert forall|x: int| 0 <= x < self.rule_seq().len() implies #[trigger] self.ins(x) == s0.ins(x)
                        && self.outs(x) == s0.outs(x) && self.rule_seq()[x].id == s0.rule_seq()[x].id by {
                        assert(before.ins(x) == s0.ins(x));
                    }
                }
                assert(times_of(*self) =~= times_after(s0, t0, pre));
            }
            any = any || changed;
            k = k + 1;
        }
        proof {
            assert(touched@.subrange(0, k as int) =~= touched@);
        }
        if any {
            WatchAction::Rebuild
        } else {
            WatchAction::Nothing
        }
    }
}

} // verus!
