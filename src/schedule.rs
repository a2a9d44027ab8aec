//! The scheduler's decisions: which rules a build runs, which of them may
//! start, and what a finished rule changes. Running the tools and waiting for
//! them is left to the caller, which reports back through these functions.

use vstd::prelude::*;
use crate::artifact::{has, ArtifactKind, ArtifactStore, RuleState, StoreError};
use crate::diagnostic::Diagnostics;
use crate::seqs::{lemma_drop_first, lemma_push};

verus! {

impl ArtifactStore {
    /// Walking the graph from `a` schedules rule `x`: `x` is the rule of `a`
    /// and `a` is outdated, or the walk from an input of that rule schedules it.
    pub open spec fn schedules(&self, a: int, x: usize) -> bool
        decreases self.rank_of(a),
    {
        if 0 <= a < self.arts().len() {
            match self.arts()[a].rule {
                Some(y) => y < self.rule_seq().len() && ((x == y && self.outdated(a)) || exists|k: int|
                    0 <= k < self.ins(y as int).len() && {
                        let i = #[trigger] self.ins(y as int)[k] as int;
                        self.rank_of(i) < self.rank_of(a) && self.schedules(i, x)
                    }),
                None => false,
            }
        } else {
            false
        }
    }

    /// The rules that a build of the goals `goals` schedules.
    pub open spec fn scheduled_set(&self, goals: Seq<usize>) -> Set<usize> {
        Set::new(|x: usize| exists|k: int| 0 <= k < goals.len() && self.schedules(#[trigger] goals[k] as int, x))
    }

    /// Rule `x` may start: none of its inputs is outdated.
    pub open spec fn ready(&self, x: int) -> bool {
        forall|k: int| 0 <= k < self.ins(x).len() ==> !self.outdated(#[trigger] self.ins(x)[k] as int)
    }

    /// Walks the graph from `a`: appends to `queue` each rule it schedules that
    /// is not there yet, inputs before the rules that read them; tells whether
    /// `a` is outdated.
    pub fn visit(&self, a: usize, queue: &mut Vec<usize>) -> (r: bool)
        requires
            self.wf(),
            a < self.arts().len(),
            old(queue)@.no_duplicates(),
        ensures
            r == self.outdated(a as int),
            final(queue)@.no_duplicates(),
            forall|x: usize| #[trigger] final(queue)@.contains(x) <==> old(queue)@.contains(x) || self.schedules(a as int, x),
        decreases self.rank_of(a as int),
    {
        match self.artifacts_rule(a) {
            None => false,
            Some(x) => {
                let mut changed = self.is_phony(a);
                let ins = self.rule_inputs(x);
                let mut k: usize = 0;
                while k < ins.len()
                    invariant
                        self.wf(),
                        a < self.arts().len(),
                        self.arts()[a as int].rule == Some(x),
                        x < self.rule_seq().len(),
                        ins@ == self.ins(x as int),
                        k <= ins@.len(),
                        queue@.no_duplicates(),
                        changed == (self.arts()[a as int].kind == ArtifactKind::Phony || exists|j: int|
                            0 <= j < k && #[trigger] self.stale_input(a as int, ins@[j] as int)),
                        forall|y: usize| #[trigger] queue@.contains(y) <==> old(queue)@.contains(y) || exists|j: int|
                            0 <= j < k && self.schedules(#[trigger] ins@[j] as int, y),
                    decreases ins@.len() - k,
                {
                    let i = ins[k];
                    proof {
                        self.lemma_input_rank(a as int, k as int);
                    }
                    let ghost before = queue@;
                    let c = self.visit(i, queue);
                    if c || self.time(i) > self.time(a) {
                        changed = true;
                    }
                    k = k + 1;
                    proof {
                        assert(self.stale_input(a as int, ins@[k - 1] as int) == (c || self.time_of(i as int) > self.time_of(a as int)));
                        if !changed {
                            assert forall|j: int| 0 <= j < k implies !#[trigger] self.stale_input(a as int, ins@[j] as int) by {
                                if j < k - 1 {
                                }
                            }
                        }
                        assert forall|y: usize| #[trigger] queue@.contains(y) <==> old(queue)@.contains(y) || exists|j: int|
                            0 <= j < k && self.schedules(#[trigger] ins@[j] as int, y) by {
                            if self.schedules(i as int, y) {
                                assert(self.schedules(ins@[k - 1] as int, y));
                            }
                            if exists|j: int| 0 <= j < k && self.schedules(#[trigger] ins@[j] as int, y) {
                                let j = choose|j: int| 0 <= j < k && self.schedules(#[trigger] ins@[j] as int, y);
                                if j < k - 1 {
                                    assert(before.contains(y));
                                }
                            }
                        }
                    }
                }
                let ghost mid = queue@;
                let present = has(queue, x);
                if changed && !present {
                    queue.push(x);
                }
                proof {
                    assert forall|j: int| 0 <= j < ins@.len() implies self.rank_of(#[trigger] ins@[j] as int) < self.rank_of(a as int) by {
                        self.lemma_input_rank(a as int, j);
                    }
                    if changed {
                        if self.arts()[a as int].kind != ArtifactKind::Phony {
                            let j = choose|j: int| 0 <= j < ins@.len() && #[trigger] self.stale_input(a as int, ins@[j] as int);
                            assert(self.ins(x as int)[j] == ins@[j]);
                        }
                    } else {
                        assert forall|j: int| 0 <= j < self.ins(x as int).len() implies !self.stale_input(
                            a as int,
                            #[trigger] self.ins(x as int)[j] as int,
                        ) by {
                            assert(!self.stale_input(a as int, ins@[j] as int));
                        }
                    }
                    assert(changed == self.outdated(a as int));
                    assert forall|y: usize| #[trigger] queue@.contains(y) <==> old(queue)@.contains(y) || self.schedules(a as int, y) by {
                        if changed && !present {
                            assert(queue@ == mid.push(x));
                            if y == x {
                                assert(queue@[mid.len() as int] == x);
                            }
                            if mid.contains(y) {
                                let j = choose|j: int| 0 <= j < mid.len() && mid[j] == y;
                                assert(queue@[j] == y);
                            }
                            if queue@.contains(y) {
                                let j = choose|j: int| 0 <= j < queue@.len() && queue@[j] == y;
                                if j < mid.len() {
                                    assert(mid[j] == y);
                                }
                            }
                        }
                        assert(queue@.contains(y) <==> mid.contains(y) || (changed && y == x));
                        assert(mid.contains(y) <==> old(queue)@.contains(y) || exists|j: int|
                            0 <= j < ins@.len() && self.schedules(#[trigger] ins@[j] as int, y));
                        if exists|j: int| 0 <= j < ins@.len() && self.schedules(#[trigger] ins@[j] as int, y) {
                            let j = choose|j: int| 0 <= j < ins@.len() && self.schedules(#[trigger] ins@[j] as int, y);
                            assert(self.ins(x as int)[j] == ins@[j]);
                        }
                        if self.schedules(a as int, y) && y != x {
                            let j = choose|j: int| 0 <= j < self.ins(x as int).len() && {
                                let i = #[trigger] self.ins(x as int)[j] as int;
                                self.rank_of(i) < self.rank_of(a as int) && self.schedules(i, y)
                            };
                            assert(self.schedules(ins@[j] as int, y));
                        }
                    }
                }
                changed
            },
        }
    }

    /// The inputs of the rule of artifact `a`; none for a source.
    pub fn inputs_of(&self, a: usize) -> (r: Vec<usize>)
        requires
            self.wf(),
            a < self.arts().len(),
        ensures
            r@ == (match self.arts()[a as int].rule {
                Some(x) => self.ins(x as int),
                None => Seq::empty(),
            }),
    {
        match self.artifacts_rule(a) {
            Some(x) => self.rule_inputs(x).clone(),
            None => Vec::new(),
        }
    }

    /// The rules that a build of `goals` runs, each once.
    pub fn schedule(&self, goals: &Vec<usize>) -> (r: Vec<usize>)
        requires
            self.wf(),
            forall|k: int| 0 <= k < goals@.len() ==> #[trigger] goals@[k] < self.arts().len(),
        ensures
            r@.no_duplicates(),
            forall|x: usize| #[trigger] r@.contains(x) <==> self.scheduled_set(goals@).contains(x),
    {
        let mut queue: Vec<usize> = Vec::new();
        let mut k: usize = 0;
        while k < goals.len()
            invariant
                self.wf(),
                forall|j: int| 0 <= j < goals@.len() ==> #[trigger] goals@[j] < self.arts().len(),
                k <= goals@.len(),
                queue@.no_duplicates(),
                forall|x: usize| #[trigger] queue@.contains(x) <==> exists|j: int|
                    0 <= j < k && self.schedules(#[trigger] goals@[j] as int, x),
            decreases goals@.len() - k,
        {
            let ghost before = queue@;
            self.visit(goals[k], &mut queue);
            k = k + 1;
            proof {
                assert forall|x: usize| #[trigger] queue@.contains(x) <==> exists|j: int|
                    0 <= j < k && self.schedules(#[trigger] goals@[j] as int, x) by {
                    if exists|j: int| 0 <= j < k && self.schedules(#[trigger] goals@[j] as int, x) {
                        let j = choose|j: int| 0 <= j < k && self.schedules(#[trigger] goals@[j] as int, x);
                        if j < k - 1 {
                            assert(before.contains(x));
                        }
                    }
                }
            }
        }
        queue
    }

    /// The phony artifacts named in `names`; names of no phony artifact are skipped.
    pub fn goals_by_name(&self, names: &Vec<String>) -> (r: Vec<usize>)
        requires
            self.wf(),
        ensures
            forall|k: int| 0 <= k < r@.len() ==> #[trigger] r@[k] < self.arts().len(),
            forall|i: usize| #[trigger] r@.contains(i) <==> exists|k: int|
                0 <= k < names@.len() && self.lookup((#[trigger] names@[k])@, ArtifactKind::Phony) == Some(i),
    {
        let mut out: Vec<usize> = Vec::new();
        let mut k: usize = 0;
        while k < names.len()
            invariant
                self.wf(),
                k <= names@.len(),
                forall|j: int| 0 <= j < out@.len() ==> #[trigger] out@[j] < self.arts().len(),
                forall|i: usize| #[trigger] out@.contains(i) <==> exists|j: int|
                    0 <= j < k && self.lookup((#[trigger] names@[j])@, ArtifactKind::Phony) == Some(i),
            decreases names@.len() - k,
        {
            let ghost before = out@;
            let found = self.get(names[k].as_str(), ArtifactKind::Phony);
            match found {
                Some(i) => {
                    proof {
                        self.lemma_lookup_found(names@[k as int]@, ArtifactKind::Phony);
                    }
                    out.push(i);
                },
                None => {},
            }
            k = k + 1;
            proof {
                assert forall|i: usize| #[trigger] out@.contains(i) <==> exists|j: int|
                    0 <= j < k && self.lookup((#[trigger] names@[j])@, ArtifactKind::Phony) == Some(i) by {
                    if out@.contains(i) {
                        let j = choose|j: int| 0 <= j < out@.len() && out@[j] == i;
                        if j < before.len() {
                            assert(before[j] == i);
                            assert(before.contains(i));
                        } else {
                            assert(self.lookup((names@[k - 1])@, ArtifactKind::Phony) == Some(i));
                        }
                    }
                    if exists|j: int| 0 <= j < k && self.lookup((#[trigger] names@[j])@, ArtifactKind::Phony) == Some(i) {
                        let j = choose|j: int| 0 <= j < k && self.lookup((#[trigger] names@[j])@, ArtifactKind::Phony) == Some(i);
                        if j < k - 1 {
                            assert(before.contains(i));
                            let m = choose|m: int| 0 <= m < before.len() && before[m] == i;
                            assert(out@[m] == i);
                        } else {
                            assert(out@[out@.len() - 1] == i);
                        }
                    }
                }
            }
        }
        out
    }

    /// Whether rule `x` may start: none of its inputs is outdated.
    pub fn ready_inputs(&self, x: usize) -> (r: bool)
        requires
            self.wf(),
            x < self.rule_seq().len(),
        ensures
            r == self.ready(x as int),
    {
        let ins = self.rule_inputs(x);
        let mut k: usize = 0;
        while k < ins.len()
            invariant
                self.wf(),
                x < self.rule_seq().len(),
                ins@ == self.ins(x as int),
                k <= ins@.len(),
                forall|j: int| 0 <= j < k ==> !self.outdated(#[trigger] ins@[j] as int),
            decreases ins@.len() - k,
        {
            proof {
                assert(self.rule_wf(x as int));
                assert(self.feeds(ins@[k as int], x as int));
            }
            if self.outdated_exec(ins[k]) {
                return false;
            }
            k = k + 1;
        }
        true
    }

    /// The rules of `q` that may start, in order.
    pub open spec fn ready_part(&self, q: Seq<usize>) -> Seq<usize>
        decreases q.len(),
    {
        if q.len() == 0 {
            Seq::empty()
        } else if self.ready(q.last() as int) {
            self.ready_part(q.drop_last()).push(q.last())
        } else {
            self.ready_part(q.drop_last())
        }
    }

    /// The rules of `q` that may not start yet, in order.
    pub open spec fn waiting_part(&self, q: Seq<usize>) -> Seq<usize>
        decreases q.len(),
    {
        if q.len() == 0 {
            Seq::empty()
        } else if self.ready(q.last() as int) {
            self.waiting_part(q.drop_last())
        } else {
            self.waiting_part(q.drop_last()).push(q.last())
        }
    }

    /// Makes one pass over `queue` from its front: each rule that may start is
    /// taken, while fewer than `jobs` rules run (`running` of them already do);
    /// each other rule goes to the back. The pass ends early when the jobs are
    /// all taken. So, for the `m` rules visited: the ready ones are returned,
    /// in order, and the queue is the unvisited rest followed by the waiting ones.
    pub fn pick(&self, queue: &mut Vec<usize>, running: usize, jobs: usize) -> (r: Vec<usize>)
        requires
            self.wf(),
            forall|k: int| 0 <= k < old(queue)@.len() ==> #[trigger] old(queue)@[k] < self.rule_seq().len(),
        ensures
            running >= jobs ==> r@.len() == 0 && final(queue)@ == old(queue)@,
            running < jobs ==> running + r@.len() <= jobs,
            exists|m: int|
                0 <= m <= old(queue)@.len() && (m == old(queue)@.len() || running + r@.len() >= jobs)
                    && r@ == self.ready_part(old(queue)@.subrange(0, m))
                    && final(queue)@ == old(queue)@.subrange(m, old(queue)@.len() as int) + self.waiting_part(
                        old(queue)@.subrange(0, m),
                    ),
            forall|k: int| 0 <= k < final(queue)@.len() ==> #[trigger] final(queue)@[k] < self.rule_seq().len(),
    {
        let mut picked: Vec<usize> = Vec::new();
        if running >= jobs {
            proof {
                assert(old(queue)@.subrange(0, 0) =~= Seq::<usize>::empty());
                assert(old(queue)@.subrange(0, old(queue)@.len() as int) =~= old(queue)@);
                assert(queue@ =~= old(queue)@.subrange(0, old(queue)@.len() as int) + self.waiting_part(old(queue)@.subrange(0, 0)));
                assert(picked@ =~= self.ready_part(old(queue)@.subrange(0, 0)));
            }
            return picked;
        }
        let room = jobs - running;
        let total = queue.len();
        let ghost q0 = queue@;
        let mut rotated: Vec<usize> = Vec::new();
        let mut i: usize = 0;
        proof {
            assert(q0.subrange(0, 0) =~= Seq::<usize>::empty());
            assert(q0.subrange(0, total as int) =~= q0);
        }
        while i < total && picked.len() < room
            invariant
                self.wf(),
                q0 == old(queue)@,
                total == q0.len(),
                i <= total,
                room + running == jobs,
                picked@.len() <= room,
                forall|k: int| 0 <= k < q0.len() ==> #[trigger] q0[k] < self.rule_seq().len(),
                picked@ == self.ready_part(q0.subrange(0, i as int)),
                queue@ == q0.subrange(i as int, total as int) + self.waiting_part(q0.subrange(0, i as int)),
            decreases total - i,
        {
            let ghost pre = q0.subrange(0, i as int + 1);
            proof {
                assert(pre.drop_last() =~= q0.subrange(0, i as int));
                assert(pre.last() == q0[i as int]);
                assert(queue@[0] == q0[i as int]);
            }
            let x = queue.remove(0);
            if self.ready_inputs(x) {
                picked.push(x);
                proof {
                    assert(queue@ =~= q0.subrange(i + 1, total as int) + self.waiting_part(pre));
                }
            } else {
                queue.push(x);
                proof {
                    assert(queue@ =~= q0.subrange(i + 1, total as int) + self.waiting_part(pre));
                }
            }
            i = i + 1;
        }
        proof {
            lemma_parts_bounded(self, q0.subrange(0, i as int));
            assert forall|k: int| 0 <= k < queue@.len() implies #[trigger] queue@[k] < self.rule_seq().len() by {
                let rest = q0.subrange(i as int, total as int);
                if k < rest.len() {
                    assert(queue@[k] == q0[i + k]);
                } else {
                    assert(queue@[k] == self.waiting_part(q0.subrange(0, i as int))[k - rest.len()]);
                }
            }
        }
        picked
    }

    /// Marks each rule of `queue` as scheduled.
    pub fn mark_scheduled(&mut self, queue: &Vec<usize>)
        requires
            old(self).wf(),
            forall|k: int| 0 <= k < queue@.len() ==> #[trigger] queue@[k] < old(self).rule_seq().len(),
        ensures
            final(self).wf(),
            final(self).same_graph(old(self)),
            final(self).arts() == old(self).arts(),
            forall|x: usize| x < final(self).rule_seq().len() ==> (#[trigger] final(self).rule_seq()[x as int]).state == (
                if queue@.contains(x) {
                    RuleState::Scheduled
                } else {
                    old(self).rule_seq()[x as int].state
                }),
    {
        let mut k: usize = 0;
        while k < queue.len()
            invariant
                self.wf(),
                self.same_graph(old(self)),
                self.arts() == old(self).arts(),
                k <= queue@.len(),
                forall|j: int| 0 <= j < queue@.len() ==> #[trigger] queue@[j] < old(self).rule_seq().len(),
                forall|x: usize| x < self.rule_seq().len() ==> (#[trigger] self.rule_seq()[x as int]).state == (
                    if queue@.subrange(0, k as int).contains(x) {
                        RuleState::Scheduled
                    } else {
                        old(self).rule_seq()[x as int].state
                    }),
            decreases queue@.len() - k,
        {
            let ghost before = *self;
            let x = queue[k];
            self.set_state(x, RuleState::Scheduled);
            proof {
                assert(self.same_graph(old(self))) by {
                    assert forall|y: int| 0 <= y < self.rule_seq().len() implies #[trigger] self.ins(y) == old(self).ins(y)
                        && self.outs(y) == old(self).outs(y) && self.rule_seq()[y].id == old(self).rule_seq()[y].id by {
                        assert(self.ins(y) == before.ins(y));
                        assert(before.ins(y) == old(self).ins(y));
                    }
                    assert forall|i: int| 0 <= i < self.arts().len() implies #[trigger] crate::artifact::same_but_time(self.arts()[i], old(self).arts()[i]) by {
                    }
                }
                let s1 = queue@.subrange(0, k as int + 1);
                let s0 = queue@.subrange(0, k as int);
                assert(s1 =~= s0.push(x));
                lemma_push(s0, x);
                assert forall|y: usize| y < self.rule_seq().len() implies (#[trigger] self.rule_seq()[y as int]).state == (
                    if s1.contains(y) {
                        RuleState::Scheduled
                    } else {
                        old(self).rule_seq()[y as int].state
                    }) by {
                    if y != x {
                        assert(self.rule_seq()[y as int] == before.rule_seq()[y as int]);
                    }
                }
            }
            k = k + 1;
        }
        proof {
            assert(queue@.subrange(0, k as int) =~= queue@);
        }
    }

    /// Records the end of a run of rule `x`: keeps its diagnostics and, unless
    /// they report an error, stamps every output with `now`. The rule is
    /// processed either way; a failure leaves every time as it was.
    pub fn finish_rule(&mut self, x: usize, diagnostics: Diagnostics, now: u64) -> (r: Result<(), StoreError>)
        requires
            old(self).wf(),
            x < old(self).rule_seq().len(),
        ensures
            final(self).wf(),
            final(self).same_graph(old(self)),
            final(self).rule_seq()[x as int].state == RuleState::Processed,
            final(self).rule_seq()[x as int].diagnostics == diagnostics,
            r is Err <==> diagnostics.spec_is_failed(),
            r is Err ==> r == Err::<(), StoreError>(StoreError::Failed),
            forall|i: usize| i < final(self).arts().len() ==> #[trigger] final(self).time_of(i as int) == (
                if !diagnostics.spec_is_failed() && old(self).outs(x as int).contains(i) {
                    now
                } else {
                    old(self).time_of(i as int)
                }),
    {
        let failed = diagnostics.is_failed();
        let ghost d = diagnostics;
        self.set_diagnostics(x, diagnostics);
        let ghost s1 = *self;
        if !failed {
            let outs = self.rule_outputs(x).clone();
            proof {
                assert(s1.rule_wf(x as int));
            }
            let mut k: usize = 0;
            while k < outs.len()
                invariant
                    self.wf(),
                    self.same_graph(&s1),
                    self.rule_seq() == s1.rule_seq(),
                    x < self.rule_seq().len(),
                    outs@ == s1.outs(x as int),
                    forall|j: int| 0 <= j < outs@.len() ==> #[trigger] outs@[j] < s1.arts().len(),
                    k <= outs@.len(),
                    forall|i: usize| i < self.arts().len() ==> #[trigger] self.time_of(i as int) == (
                        if outs@.subrange(0, k as int).contains(i) {
                            now
                        } else {
                            s1.time_of(i as int)
                        }),
                decreases outs@.len() - k,
            {
                let ghost before = *self;
                let a = outs[k];
                self.set_time(a, now);
                proof {
                    assert forall|i: int| 0 <= i < self.arts().len() implies #[trigger] crate::artifact::same_but_time(self.arts()[i], s1.arts()[i]) by {
                        assert(crate::artifact::same_but_time(self.arts()[i], before.arts()[i]));
                        assert(crate::artifact::same_but_time(before.arts()[i], s1.arts()[i]));
                    }
                    let q1 = outs@.subrange(0, k as int + 1);
                    let q0 = outs@.subrange(0, k as int);
                    assert(q1 =~= q0.push(a));
                    lemma_push(q0, a);
                    assert forall|i: usize| i < self.arts().len() implies #[trigger] self.time_of(i as int) == (
                        if q1.contains(i) {
                            now
                        } else {
                            s1.time_of(i as int)
                        }) by {
                        assert(q1.contains(i) == (q0.contains(i) || i == a));
                        if i != a {
                            assert(self.arts()[i as int] == before.arts()[i as int]);
                            assert(before.time_of(i as int) == (if q0.contains(i) {
                                now
                            } else {
                                s1.time_of(i as int)
                            }));
                        }
                    }
                }
                k = k + 1;
            }
            proof {
                assert(outs@.subrange(0, k as int) =~= outs@);
            }
        }
        let ghost s2 = *self;
        self.set_state(x, RuleState::Processed);
        proof {
            assert(self.same_graph(old(self))) by {
                assert forall|y: int| 0 <= y < self.rule_seq().len() implies #[trigger] self.ins(y) == old(self).ins(y)
                    && self.outs(y) == old(self).outs(y) && self.rule_seq()[y].id == old(self).rule_seq()[y].id by {
                    assert(self.ins(y) == s2.ins(y));
                    assert(s2.ins(y) == s1.ins(y));
                    assert(s1.ins(y) == old(self).ins(y));
                }
                assert forall|i: int| 0 <= i < self.arts().len() implies #[trigger] crate::artifact::same_but_time(self.arts()[i], old(self).arts()[i]) by {
                    assert(crate::artifact::same_but_time(s2.arts()[i], s1.arts()[i]));
                }
            }
            assert(s1.ins(x as int) == old(self).ins(x as int));
            assert(s1.outs(x as int) == old(self).outs(x as int));
            assert forall|i: usize| i < self.arts().len() implies #[trigger] self.time_of(i as int) == (
                if !d.spec_is_failed() && old(self).outs(x as int).contains(i) {
                    now
                } else {
                    old(self).time_of(i as int)
                }) by {
                assert(self.time_of(i as int) == s2.time_of(i as int));
                assert(s1.time_of(i as int) == old(self).time_of(i as int));
            }
        }
        if failed {
            Err(StoreError::Failed)
        } else {
            Ok(())
        }
    }

    /// A change seen on disk: if `name` is a source artifact and the file's
    /// time `seen` is newer than the artifact's, the artifact takes `given`, or
    /// `seen` when none is given. Tells whether it changed.
    pub fn update_source(&mut self, name: &str, seen: u64, given: Option<u64>) -> (r: bool)
        requires
            old(self).wf(),
        ensures
            final(self).wf(),
            final(self).same_graph(old(self)),
            final(self).rule_seq() == old(self).rule_seq(),
            match old(self).lookup(name@, ArtifactKind::Actual) {
                Some(i) => if old(self).arts()[i as int].rule is None && seen > old(self).time_of(i as int) {
                    r && final(self).time_of(i as int) == (match given {
                        Some(t) => t,
                        None => seen,
                    }) && forall|j: int| 0 <= j < final(self).arts().len() && j != i ==> #[trigger] final(self).arts()[j] == old(self).arts()[j]
                } else {
                    !r && final(self).arts() == old(self).arts()
                },
                None => !r && final(self).arts() == old(self).arts(),
            },
    {
        match self.get(name, ArtifactKind::Actual) {
            Some(i) => {
                proof {
                    self.lemma_lookup_found(name@, ArtifactKind::Actual);
                }
                if self.is_source(i) && seen > self.time(i) {
                    let t = match given {
                        Some(t) => t,
                        None => seen,
                    };
                    self.set_time(i, t);
                    true
                } else {
                    proof {
                        assert(self.same_graph(old(self))) by {
                            assert forall|i: int| 0 <= i < self.arts().len() implies #[trigger] crate::artifact::same_but_time(self.arts()[i], old(self).arts()[i]) by {
                            }
                        }
                    }
                    false
                }
            },
            None => {
                proof {
                    assert(self.same_graph(old(self))) by {
                        assert forall|i: int| 0 <= i < self.arts().len() implies #[trigger] crate::artifact::same_but_time(self.arts()[i], old(self).arts()[i]) by {
                        }
                    }
                }
                false
            },
        }
    }
}

/// The waiting part of a queue of known rules holds known rules.
proof fn lemma_parts_bounded(s: &ArtifactStore, q: Seq<usize>)
    requires
        forall|k: int| 0 <= k < q.len() ==> #[trigger] q[k] < s.rule_seq().len(),
    ensures
        forall|k: int| 0 <= k < s.waiting_part(q).len() ==> #[trigger] s.waiting_part(q)[k] < s.rule_seq().len(),
    decreases q.len(),
{
    if q.len() > 0 {
        lemma_parts_bounded(s, q.drop_last());
        assert forall|k: int| 0 <= k < s.waiting_part(q).len() implies #[trigger] s.waiting_part(q)[k] < s.rule_seq().len() by {
            if k < s.waiting_part(q.drop_last()).len() {
                assert(s.waiting_part(q)[k] == s.waiting_part(q.drop_last())[k]);
            } else {
                assert(q[q.len() - 1] < s.rule_seq().len());
            }
        }
    }
}

/// The ready part of a queue of known rules holds known rules.
pub proof fn lemma_ready_part_known(s: &ArtifactStore, q: Seq<usize>)
    requires
        forall|k: int| 0 <= k < q.len() ==> #[trigger] q[k] < s.rule_seq().len(),
    ensures
        forall|k: int| 0 <= k < s.ready_part(q).len() ==> #[trigger] s.ready_part(q)[k] < s.rule_seq().len(),
    decreases q.len(),
{
    if q.len() > 0 {
        assert forall|k: int| 0 <= k < q.drop_last().len() implies #[trigger] q.drop_last()[k] < s.rule_seq().len() by {
            assert(q.drop_last()[k] == q[k]);
        }
        lemma_ready_part_known(s, q.drop_last());
        assert forall|k: int| 0 <= k < s.ready_part(q).len() implies #[trigger] s.ready_part(q)[k] < s.rule_seq().len() by {
            if k < s.ready_part(q.drop_last()).len() {
                assert(s.ready_part(q)[k] == s.ready_part(q.drop_last())[k]);
            } else {
                assert(q[q.len() - 1] < s.rule_seq().len());
            }
        }
    }
}

/// A rule that a walk schedules is a rule of the store.
pub proof fn lemma_schedules_known(s: &ArtifactStore, a: int, x: usize)
    requires
        s.wf(),
        s.schedules(a, x),
    ensures
        x < s.rule_seq().len(),
    decreases s.rank_of(a),
{
    let y = s.arts()[a].rule->0;
    if !(x == y && s.outdated(a)) {
        let k = choose|k: int| 0 <= k < s.ins(y as int).len() && {
            let i = #[trigger] s.ins(y as int)[k] as int;
            s.rank_of(i) < s.rank_of(a) && s.schedules(i, x)
        };
        lemma_schedules_known(s, s.ins(y as int)[k] as int, x);
    }
}

} // verus!
