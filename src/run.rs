//! What the build loop decides: the diagnostics of a tool run, the inputs of
//! a compile rule after the compiler listed its headers, and the result of
//! the whole build.

use vstd::prelude::*;
use crate::artifact::{ArtifactKind, ArtifactStore, StoreError};
use crate::deps::{d_deps, make_deps, parse_d_deps, parse_make_deps};
use crate::diag_parser::{diags_from, is_line_diag};
use crate::diagnostic::{worst, Diagnostic, Diagnostics, Severity};
use crate::options::views;
use crate::toolchain::DepKind;

verus! {

/// Why a build did not succeed.
#[derive(Debug, Clone, Copy, PartialEq, Eq, Structural)]
pub enum BuildError {
    /// Rules were left in the queue: their inputs never became ready.
    CannotBeBuilt,
    /// Every rule ran, but some failed.
    RuleFailed,
}

/// The result of a build, once nothing runs any more: `pending` rules were
/// left in the queue and `failed` rules failed.
pub fn build_outcome(pending: usize, failed: usize) -> (r: Result<(), BuildError>)
    ensures
        r == (if pending > 0 {
            Err::<(), BuildError>(BuildError::CannotBeBuilt)
        } else if failed > 0 {
            Err(BuildError::RuleFailed)
        } else {
            Ok(())
        }),
{
    if pending > 0 {
        Err(BuildError::CannotBeBuilt)
    } else if failed > 0 {
        Err(BuildError::RuleFailed)
    } else {
        Ok(())
    }
}

/// The diagnostics of a tool run: those its error output holds and, when
/// the tool did not exit successfully, a fatal one carrying that output, so
/// that the run counts as failed even when the output names no error.
pub fn tool_diagnostics(success: bool, stderr: &str) -> (r: Diagnostics)
    ensures
        r.0@.len() == diags_from(stderr@, 0).len() + (if success { 0int } else { 1int }),
        forall|k: int| 0 <= k < diags_from(stderr@, 0).len() ==> is_line_diag(#[trigger] r.0@[k], diags_from(stderr@, 0)[k]),
        !success ==> r.0@.last().severity == Severity::Fatal && r.0@.last().message@ == stderr@,
        !success ==> r.spec_is_failed(),
{
    let mut d = Diagnostics::parse(stderr);
    if !success {
        let ghost before = d.0@;
        let message = stderr.to_owned();
        d.0.push(
            Diagnostic {
                severity: Severity::Fatal,
                message,
                locations: Vec::new(),
                children: Diagnostics::empty(),
                fixits: Vec::new(),
            },
        );
        proof {
            assert(d.0@.drop_last() =~= before);
            assert(worst(d.0@).rank() == 0);
        }
    }
    d
}

/// The dependencies that a dependency file of format `kind` names.
pub open spec fn deps_of(text: Seq<char>, kind: DepKind) -> Seq<Seq<char>> {
    match kind {
        DepKind::Make => make_deps(text),
        DepKind::D => d_deps(text),
    }
}

impl ArtifactStore {
    /// Makes the inputs of compile rule `x` its source `src` followed by the
    /// dependencies that the freshly written dependency file `text` names,
    /// but the source itself; each is interned as a source file.
    pub fn reload_deps(&mut self, x: usize, src: usize, text: &str, kind: DepKind) -> (r: Result<Vec<usize>, StoreError>)
        requires
            old(self).wf(),
            x < old(self).rule_seq().len(),
            src < old(self).arts().len(),
        ensures
            final(self).wf(),
            final(self).rule_seq().len() == old(self).rule_seq().len(),
            final(self).arts()[src as int].name@ == old(self).arts()[src as int].name@,
            ({
                let deps = deps_of(text@, kind);
                let skip = old(self).arts()[src as int].name@;
                match r {
                    Ok(found) => final(self).ins(x as int) == seq![src] + found@
                        && (forall|k: int| 0 <= k < found@.len() ==> #[trigger] found@[k] < final(self).arts().len()
                            && final(self).arts()[found@[k] as int].name@ != skip
                            && deps.contains(final(self).arts()[found@[k] as int].name@))
                        && (forall|j: int| 0 <= j < deps.len() && #[trigger] deps[j] != skip ==> exists|k: int|
                            0 <= k < found@.len() && final(self).lookup(deps[j], ArtifactKind::Actual) == Some(found@[k])),
                    Err(e) => e == StoreError::Cycle && final(self).rule_seq() == old(self).rule_seq(),
                }
            }),
            ({
                let deps = deps_of(text@, kind);
                let skip = old(self).arts()[src as int].name@;
                r is Ok <==> (final(self).feeds(src, x as int) && forall|j: int|
                    0 <= j < deps.len() && #[trigger] deps[j] != skip ==> final(self).feeds(
                        final(self).lookup(deps[j], ArtifactKind::Actual)->0,
                        x as int,
                    ))
            }),
    {
        let deps = match kind {
            DepKind::Make => parse_make_deps(text),
            DepKind::D => parse_d_deps(text),
        };
        let ghost dv = views(deps@);
        let skip = self.artifact(src).name.clone();
        let ghost before = *self;
        let found = self.intern_deps(&deps, skip.as_str());
        proof {
            assert(self.arts()[src as int] == before.arts()[src as int]);
            assert forall|k: int| 0 <= k < found@.len() implies dv.contains(self.arts()[#[trigger] found@[k] as int].name@) by {
                assert(self.named_in(deps@, found@[k]));
                let m = choose|m: int| 0 <= m < deps@.len() && self.lookup((#[trigger] deps@[m])@, ArtifactKind::Actual) == Some(found@[k]);
                self.lemma_lookup_found(deps@[m]@, ArtifactKind::Actual);
                assert(dv[m] == deps@[m]@);
            }
            assert forall|j: int| 0 <= j < dv.len() && #[trigger] dv[j] != skip@ implies exists|k: int|
                0 <= k < found@.len() && self.lookup(dv[j], ArtifactKind::Actual) == Some(found@[k]) by {
                assert(dv[j] == deps@[j]@);
            }
        }
        let mut inputs: Vec<usize> = Vec::new();
        inputs.push(src);
        let mut k: usize = 0;
        while k < found.len()
            invariant
                k <= found@.len(),
                inputs@ == seq![src] + found@.subrange(0, k as int),
            decreases found@.len() - k,
        {
            inputs.push(found[k]);
            k = k + 1;
            proof {
                assert(inputs@ =~= seq![src] + found@.subrange(0, k as int));
            }
        }
        proof {
            assert(found@.subrange(0, k as int) =~= found@);
            assert forall|k: int| 0 <= k < inputs@.len() implies #[trigger] inputs@[k] < self.arts().len() by {
                if k > 0 {
                    assert(inputs@[k] == found@[k - 1]);
                }
            }
        }
        let ghost mid = *self;
        proof {
            let dvs = dv;
            assert(dvs == deps_of(text@, kind));
            let all_feed = forall|k: int| 0 <= k < inputs@.len() ==> mid.feeds(#[trigger] inputs@[k], x as int);
            let cond = mid.feeds(src, x as int) && forall|j: int|
                0 <= j < dvs.len() && #[trigger] dvs[j] != skip@ ==> mid.feeds(
                    mid.lookup(dvs[j], ArtifactKind::Actual)->0,
                    x as int,
                );
            if all_feed {
                assert(inputs@[0] == src);
                assert forall|j: int| 0 <= j < dvs.len() && #[trigger] dvs[j] != skip@ implies mid.feeds(
                    mid.lookup(dvs[j], ArtifactKind::Actual)->0,
                    x as int,
                ) by {
                    let k = choose|k: int| 0 <= k < found@.len() && mid.lookup(dvs[j], ArtifactKind::Actual) == Some(found@[k]);
                    assert(inputs@[k + 1] == found@[k]);
                }
            }
            if cond {
                assert forall|k: int| 0 <= k < inputs@.len() implies mid.feeds(#[trigger] inputs@[k], x as int) by {
                    if k > 0 {
                        let f = found@[k - 1];
                        assert(inputs@[k] == f);
                        assert(mid.named_in(deps@, f));
                        let m = choose|m: int| 0 <= m < deps@.len() && mid.lookup((#[trigger] deps@[m])@, ArtifactKind::Actual) == Some(f);
                        mid.lemma_lookup_found(deps@[m]@, ArtifactKind::Actual);
                        assert(dvs[m] == deps@[m]@);
                        assert(mid.arts()[f as int].name@ != skip@);
                        assert(dvs[m] != skip@);
                    }
                }
            }
            assert(all_feed == cond);
        }
        let ghost iv = inputs@;
        let res = self.set_inputs(x, inputs);
        proof {
            assert(self.arts() == mid.arts());
            assert(forall|i: usize| #[trigger] self.feeds(i, x as int) == mid.feeds(i, x as int));
            assert(forall|n: Seq<char>| #[trigger] self.lookup(n, ArtifactKind::Actual) == mid.lookup(n, ArtifactKind::Actual));
            assert((res is Ok) == (forall|k: int| 0 <= k < iv.len() ==> mid.feeds(#[trigger] iv[k], x as int)));
            assert(skip@ == old(self).arts()[src as int].name@);
            assert((res is Ok) == (mid.feeds(src, x as int) && forall|j: int|
                0 <= j < dv.len() && #[trigger] dv[j] != skip@ ==> mid.feeds(
                    mid.lookup(dv[j], ArtifactKind::Actual)->0,
                    x as int,
                )));
            assert((res is Ok) == (self.feeds(src, x as int) && forall|j: int|
                0 <= j < dv.len() && #[trigger] dv[j] != skip@ ==> self.feeds(
                    self.lookup(dv[j], ArtifactKind::Actual)->0,
                    x as int,
                )));
        }
        match res {
            Ok(()) => Ok(found),
            Err(e) => Err(e),
        }
    }
}

/// The state of one build between tool runs: the rules still queued, those
/// running, and how many failed. The loop that runs the tools asks it what
/// to start next and tells it what finished.
pub struct BuildRun {
    pub queue: Vec<usize>,
    pub running: Vec<usize>,
    pub failed: usize,
    pub jobs: usize,
}

proof fn lemma_ready_part(s: &ArtifactStore, q: Seq<usize>)
    ensures
        forall|k: int| 0 <= k < s.ready_part(q).len() ==> s.ready(#[trigger] s.ready_part(q)[k] as int),
    decreases q.len(),
{
    if q.len() > 0 {
        lemma_ready_part(s, q.drop_last());
        assert forall|k: int| 0 <= k < s.ready_part(q).len() implies s.ready(#[trigger] s.ready_part(q)[k] as int) by {
            if k < s.ready_part(q.drop_last()).len() {
                assert(s.ready_part(q)[k] == s.ready_part(q.drop_last())[k]);
            }
        }
    }
}

impl BuildRun {
    /// Rules are known to the store, and no more than `jobs` run.
    pub open spec fn inv(&self, s: &ArtifactStore) -> bool {
        &&& self.running@.len() <= self.jobs
        &&& forall|k: int| 0 <= k < self.queue@.len() ==> #[trigger] self.queue@[k] < s.rule_seq().len()
        &&& forall|k: int| 0 <= k < self.running@.len() ==> #[trigger] self.running@[k] < s.rule_seq().len()
    }

    /// Starts a build of `goals`: the rules it schedules are queued and
    /// marked scheduled; nothing runs yet.
    pub fn new(store: &mut ArtifactStore, goals: &Vec<usize>, jobs: usize) -> (r: BuildRun)
        requires
            old(store).wf(),
            forall|k: int| 0 <= k < goals@.len() ==> #[trigger] goals@[k] < old(store).arts().len(),
        ensures
            final(store).wf(),
            final(store).same_graph(old(store)),
            final(store).arts() == old(store).arts(),
            r.inv(final(store)),
            r.jobs == jobs,
            r.running@.len() == 0,
            r.failed == 0,
            r.queue@.no_duplicates(),
            forall|x: usize| #[trigger] r.queue@.contains(x) <==> old(store).scheduled_set(goals@).contains(x),
    {
        let queue = store.schedule(goals);
        proof {
            assert forall|k: int| 0 <= k < queue@.len() implies #[trigger] queue@[k] < store.rule_seq().len() by {
                assert(queue@.contains(queue@[k]));
                assert(store.scheduled_set(goals@).contains(queue@[k]));
                let g = choose|j: int| 0 <= j < goals@.len() && store.schedules(#[trigger] goals@[j] as int, queue@[k]);
                crate::schedule::lemma_schedules_known(store, goals@[g] as int, queue@[k]);
            }
        }
        store.mark_scheduled(&queue);
        BuildRun { queue, running: Vec::new(), failed: 0, jobs }
    }

    /// Starts what may start: the rules `pick` takes, while fewer than
    /// `jobs` run. Each is marked as processing and joins the running ones.
    pub fn top_up(&mut self, store: &mut ArtifactStore) -> (r: Vec<usize>)
        requires
            old(store).wf(),
            old(self).inv(old(store)),
        ensures
            final(store).wf(),
            final(store).same_graph(old(store)),
            final(store).arts() == old(store).arts(),
            final(self).inv(final(store)),
            final(self).jobs == old(self).jobs,
            final(self).failed == old(self).failed,
            final(self).running@ == old(self).running@ + r@,
            forall|k: int| 0 <= k < r@.len() ==> old(store).ready(#[trigger] r@[k] as int),
            forall|k: int| 0 <= k < r@.len() ==> final(store).rule_seq()[#[trigger] r@[k] as int].state == crate::artifact::RuleState::Processing,
            exists|m: int|
                0 <= m <= old(self).queue@.len() && (m == old(self).queue@.len() || final(self).running@.len() >= final(self).jobs)
                    && r@ == old(store).ready_part(old(self).queue@.subrange(0, m))
                    && final(self).queue@ == old(self).queue@.subrange(m, old(self).queue@.len() as int)
                    + old(store).waiting_part(old(self).queue@.subrange(0, m)),
    {
        let ghost s0 = *old(store);
        let picked = store.pick(&mut self.queue, self.running.len(), self.jobs);
        assert(self.jobs == old(self).jobs);
        assert(self.running@.len() + picked@.len() <= self.jobs);
        proof {
            lemma_ready_part(&s0, picked@);
            let m = choose|m: int|
                0 <= m <= old(self).queue@.len() && (m == old(self).queue@.len() || self.running@.len() + picked@.len() >= self.jobs)
                    && picked@ == s0.ready_part(old(self).queue@.subrange(0, m))
                    && self.queue@ == old(self).queue@.subrange(m, old(self).queue@.len() as int)
                    + s0.waiting_part(old(self).queue@.subrange(0, m));
            lemma_ready_part(&s0, old(self).queue@.subrange(0, m));
            crate::schedule::lemma_ready_part_known(&s0, old(self).queue@.subrange(0, m));
        }
        let mut k: usize = 0;
        while k < picked.len()
            invariant
                s0.wf(),
                store.wf(),
                store.same_graph(&s0),
                store.arts() == s0.arts(),
                k <= picked@.len(),
                forall|j: int| 0 <= j < picked@.len() ==> #[trigger] picked@[j] < s0.rule_seq().len(),
                forall|j: int| 0 <= j < k ==> store.rule_seq()[#[trigger] picked@[j] as int].state == crate::artifact::RuleState::Processing,
            decreases picked@.len() - k,
        {
            let ghost before = *store;
            store.set_state(picked[k], crate::artifact::RuleState::Processing);
            proof {
                assert forall|j: int| 0 <= j < k + 1 implies store.rule_seq()[#[trigger] picked@[j] as int].state == crate::artifact::RuleState::Processing by {
                    if picked@[j] != picked@[k as int] {
                        assert(store.rule_seq()[picked@[j] as int] == before.rule_seq()[picked@[j] as int]);
                    }
                }
                assert(store.same_graph(&s0)) by {
                    assert forall|x: int| 0 <= x < store.rule_seq().len() implies #[trigger] store.ins(x) == s0.ins(x)
                        && store.outs(x) == s0.outs(x) && store.rule_seq()[x].id == s0.rule_seq()[x].id by {
                        assert(before.ins(x) == s0.ins(x));
                    }
                    assert forall|i: int| 0 <= i < store.arts().len() implies #[trigger] crate::artifact::same_but_time(store.arts()[i], s0.arts()[i]) by {
                    }
                }
            }
            k = k + 1;
        }
        let mut j: usize = 0;
        let ghost r0 = self.running@;
        let ghost q1 = self.queue@;
        while j < picked.len()
            invariant
                j <= picked@.len(),
                self.jobs == old(self).jobs,
                self.failed == old(self).failed,
                self.queue@ == q1,
                self.running@ == r0 + picked@.subrange(0, j as int),
            decreases picked@.len() - j,
        {
            self.running.push(picked[j]);
            j = j + 1;
            proof {
                assert(self.running@ =~= r0 + picked@.subrange(0, j as int));
            }
        }
        proof {
            assert(picked@.subrange(0, j as int) =~= picked@);
            assert forall|k: int| 0 <= k < self.running@.len() implies #[trigger] self.running@[k] < store.rule_seq().len() by {
                if k >= r0.len() {
                    assert(self.running@[k] == picked@[k - r0.len()]);
                }
            }
        }
        picked
    }

    /// Records that the `k`-th running rule finished with `diagnostics` at
    /// `now`: it leaves the running ones, `finish_rule` applies, and a
    /// failure is counted.
    pub fn complete(&mut self, store: &mut ArtifactStore, k: usize, diagnostics: Diagnostics, now: u64) -> (r: Result<(), StoreError>)
        requires
            old(store).wf(),
            old(self).inv(old(store)),
            k < old(self).running@.len(),
        ensures
            final(store).wf(),
            final(store).same_graph(old(store)),
            final(self).inv(final(store)),
            final(self).running@ == old(self).running@.remove(k as int),
            final(self).queue@ == old(self).queue@,
            final(self).jobs == old(self).jobs,
            r is Err <==> diagnostics.spec_is_failed(),
            final(self).failed == (if r is Err && old(self).failed < usize::MAX { old(self).failed + 1 } else { old(self).failed as int }),
            final(store).rule_seq()[old(self).running@[k as int] as int].state == crate::artifact::RuleState::Processed,
            forall|i: usize| i < final(store).arts().len() ==> #[trigger] final(store).time_of(i as int) == (
                if !diagnostics.spec_is_failed() && old(store).outs(old(self).running@[k as int] as int).contains(i) {
                    now
                } else {
                    old(store).time_of(i as int)
                }),
    {
        let x = self.running.remove(k);
        let r = store.finish_rule(x, diagnostics, now);
        if r.is_err() && self.failed < usize::MAX {
            self.failed = self.failed + 1;
        }
        proof {
            assert forall|j: int| 0 <= j < self.running@.len() implies #[trigger] self.running@[j] < store.rule_seq().len() by {
                if j < k {
                    assert(self.running@[j] == old(self).running@[j]);
                } else {
                    assert(self.running@[j] == old(self).running@[j + 1]);
                }
            }
        }
        r
    }

    /// The result of the build once nothing runs, `None` before.
    pub fn outcome(&self) -> (r: Option<Result<(), BuildError>>)
        ensures
            self.running@.len() > 0 ==> r is None,
            self.running@.len() == 0 ==> r == Some(if self.queue@.len() > 0 {
                Err::<(), BuildError>(BuildError::CannotBeBuilt)
            } else if self.failed > 0 {
                Err(BuildError::RuleFailed)
            } else {
                Ok(())
            }),
    {
        if self.running.len() > 0 {
            None
        } else {
            Some(build_outcome(self.queue.len(), self.failed))
        }
    }
}

} // verus!
