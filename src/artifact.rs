//! The build graph: artifacts (nodes) and rules (edges), held in one store.
//!
//! Artifacts and rules are addressed by their index in the store. Every rule
//! is the rule of each of its outputs, and an artifact's rule is never
//! replaced. Each input of a rule is a source or the output of an earlier
//! rule, so the graph has no cycle.

use vstd::prelude::*;
use crate::diagnostic::Diagnostics;

verus! {

/// The role an artifact was created for.
#[derive(Debug, Clone, Copy, PartialEq, Eq, Hash, Structural)]
pub enum ArtifactType {
    /// Consumed by rules; never produced.
    Source,
    /// May be produced by a rule.
    Product,
}

impl ArtifactType {
    pub fn as_str(&self) -> (r: &'static str)
        ensures
            r@ == (match self {
                ArtifactType::Source => "source"@,
                ArtifactType::Product => "product"@,
            }),
    {
        match self {
            ArtifactType::Source => "source",
            ArtifactType::Product => "product",
        }
    }
}

/// Whether an artifact stands for a file or for a logical target.
#[derive(Debug, Clone, Copy, PartialEq, Eq, Hash, Structural)]
pub enum ArtifactKind {
    Actual,
    Phony,
}

impl ArtifactKind {
    pub fn as_str(&self) -> (r: &'static str)
        ensures
            r@ == (match self {
                ArtifactKind::Actual => "actual"@,
                ArtifactKind::Phony => "phony"@,
            }),
    {
        match self {
            ArtifactKind::Actual => "actual",
            ArtifactKind::Phony => "phony",
        }
    }
}

/// Where a rule stands in a build.
#[derive(Debug, Clone, Copy, PartialEq, Eq, Hash, Structural)]
pub enum RuleState {
    Processed,
    Scheduled,
    Processing,
}

impl Default for RuleState {
    fn default() -> (r: Self)
        ensures
            r == RuleState::Processed,
    {
        RuleState::Processed
    }
}

impl RuleState {
    pub fn as_str(&self) -> (r: &'static str)
        ensures
            r@ == (match self {
                RuleState::Processed => "processed"@,
                RuleState::Scheduled => "scheduled"@,
                RuleState::Processing => "processing"@,
            }),
    {
        match self {
            RuleState::Processed => "processed",
            RuleState::Scheduled => "scheduled",
            RuleState::Processing => "processing",
        }
    }
}

/// Why the store refused an operation.
#[derive(Debug, Clone, Copy, PartialEq, Eq, Structural)]
pub enum StoreError {
    /// The artifact exists and cannot take the requested role.
    Reuse,
    /// No artifact has that index.
    NoSuchArtifact,
    /// No rule has that index.
    NoSuchRule,
    /// A rule needs at least one output.
    NoOutputs,
    /// An output is a source, or already has a rule.
    Produced,
    /// An output is already consumed by a rule, or an input does not rank
    /// below the outputs: the rule would close a cycle.
    Cycle,
    /// The rule's diagnostics report an error.
    Failed,
}

/// A node of the build graph.
#[derive(Debug)]
pub struct Artifact {
    pub name: String,
    pub description: String,
    pub type_: ArtifactType,
    pub kind: ArtifactKind,
    /// Modification time; 0 is the epoch, the time of an artifact never seen on disk.
    pub time: u64,
    /// The rule that produces this artifact.
    pub rule: Option<usize>,
}

/// An edge of the build graph: what it reads and what it writes.
#[derive(Debug)]
pub struct Rule {
    /// Hash of the names of the outputs, in order.
    pub id: u64,
    pub inputs: Vec<usize>,
    pub outputs: Vec<usize>,
    pub state: RuleState,
    pub diagnostics: Diagnostics,
}

/// The fxhash (64-bit) of a sequence of names, each hashed as `str` hashes.
pub uninterp spec fn fx_hash_names(names: Seq<Seq<char>>) -> u64;

/// Relies on `fxhash::FxHasher64` fed through `Hash for str`: a 64-bit hash
/// that depends on the names alone.
#[verifier::external_body]
fn hash_names(names: &Vec<String>) -> (r: u64)
    ensures
        r == fx_hash_names(names@.map_values(|n: String| n@)),
{
    let mut hasher = fxhash::FxHasher64::default();
    for name in names.iter() {
        std::hash::Hash::hash(name.as_str(), &mut hasher);
    }
    std::hash::Hasher::finish(&hasher)
}

/// The names of the artifacts at the given indices.
pub open spec fn names_of(arts: Seq<Artifact>, ids: Seq<usize>) -> Seq<Seq<char>> {
    ids.map_values(|i: usize| arts[i as int].name@)
}

/// Interning tables for actual and phony artifacts, and the rules between them.
pub struct ArtifactStore {
    artifacts: Vec<Artifact>,
    rules: Vec<Rule>,
}

impl ArtifactStore {
    pub closed spec fn arts(&self) -> Seq<Artifact> {
        self.artifacts@
    }

    pub closed spec fn rule_seq(&self) -> Seq<Rule> {
        self.rules@
    }

    /// 0 for a source, one more than the index of its rule otherwise: the
    /// inputs of a rule rank below its outputs.
    pub open spec fn rank_of(&self, a: int) -> nat {
        if 0 <= a < self.arts().len() {
            match self.arts()[a].rule {
                Some(x) => x as nat + 1,
                None => 0,
            }
        } else {
            0
        }
    }

    /// `i` may be an input of rule `x`: a source, or made by an earlier rule.
    pub open spec fn feeds(&self, i: usize, x: int) -> bool {
        i < self.arts().len() && match self.arts()[i as int].rule {
            Some(y) => y < x,
            None => true,
        }
    }

    pub open spec fn ins(&self, x: int) -> Seq<usize> {
        self.rule_seq()[x].inputs@
    }

    pub open spec fn outs(&self, x: int) -> Seq<usize> {
        self.rule_seq()[x].outputs@
    }

    pub open spec fn rule_wf(&self, x: int) -> bool {
        let a = self.arts();
        &&& self.outs(x).len() > 0
        &&& forall|k: int|
            0 <= k < self.outs(x).len() ==> #[trigger] self.outs(x)[k] < a.len() && a[self.outs(
                x,
            )[k] as int].rule == Some(x as usize)
        &&& forall|k: int| 0 <= k < self.ins(x).len() ==> self.feeds(#[trigger] self.ins(x)[k], x)
        &&& self.rule_seq()[x].id == fx_hash_names(names_of(a, self.outs(x)))
    }

    /// The store's invariant.
    pub open spec fn wf(&self) -> bool {
        let a = self.arts();
        let r = self.rule_seq();
        &&& forall|i: int|
            0 <= i < a.len() ==> match (#[trigger] a[i]).rule {
                Some(x) => x < r.len() && a[i].type_ == ArtifactType::Product && self.outs(
                    x as int,
                ).contains(i as usize),
                None => true,
            }
        &&& forall|x: int| 0 <= x < r.len() ==> #[trigger] self.rule_wf(x)
        &&& forall|i: int, j: int|
            0 <= i < a.len() && 0 <= j < a.len() && i != j ==> !((#[trigger] a[i]).name@ == (
            #[trigger] a[j]).name@ && a[i].kind == a[j].kind)
    }

    /// The index of the live artifact with this name and kind.
    pub open spec fn lookup(&self, name: Seq<char>, kind: ArtifactKind) -> Option<usize> {
        if exists|i: usize|
            i < self.arts().len() && (#[trigger] self.arts()[i as int]).name@ == name
                && self.arts()[i as int].kind == kind {
            Some(
                choose|i: usize|
                    i < self.arts().len() && (#[trigger] self.arts()[i as int]).name@ == name
                        && self.arts()[i as int].kind == kind,
            )
        } else {
            None
        }
    }

    /// An empty store.
    pub fn new() -> (r: Self)
        ensures
            r.wf(),
            r.arts().len() == 0,
            r.rule_seq().len() == 0,
    {
        ArtifactStore { artifacts: Vec::new(), rules: Vec::new() }
    }

    /// Number of artifacts ever interned.
    pub fn len(&self) -> (r: usize)
        ensures
            r == self.arts().len(),
    {
        self.artifacts.len()
    }

    /// Number of rules ever constructed.
    pub fn rule_count(&self) -> (r: usize)
        ensures
            r == self.rule_seq().len(),
    {
        self.rules.len()
    }

    /// The artifact at index `a`.
    pub fn artifact(&self, a: usize) -> (r: &Artifact)
        requires
            a < self.arts().len(),
        ensures
            *r == self.arts()[a as int],
    {
        &self.artifacts[a]
    }

    /// The rule at index `x`.
    pub fn rule(&self, x: usize) -> (r: &Rule)
        requires
            x < self.rule_seq().len(),
        ensures
            *r == self.rule_seq()[x as int],
    {
        &self.rules[x]
    }

    /// The index of the artifact with this name and kind, if there is one.
    pub fn get(&self, name: &str, kind: ArtifactKind) -> (r: Option<usize>)
        requires
            self.wf(),
        ensures
            r == self.lookup(name@, kind),
    {
        let n = name.to_owned();
        let mut i: usize = 0;
        while i < self.artifacts.len()
            invariant
                self.wf(),
                i <= self.arts().len(),
                n@ == name@,
                forall|j: int|
                    0 <= j < i ==> !((#[trigger] self.arts()[j]).name@ == name@ && self.arts()[j].kind
                        == kind),
            decreases self.arts().len() - i,
        {
            if self.artifacts[i].name == n && self.artifacts[i].kind == kind {
                proof {
                    assert(self.arts()[i as int].name@ == name@);
                    self.lemma_lookup_unique(name@, kind, i);
                }
                return Some(i);
            }
            i = i + 1;
        }
        None
    }

    /// Interns an artifact: the live one of that name and kind, when it can
    /// take the role `usage`; a new one, at the epoch and without a rule,
    /// when there is none.
    pub fn intern(&mut self, name: &str, kind: ArtifactKind, usage: ArtifactType, description: &str) -> (r: Result<usize, StoreError>)
        requires
            old(self).wf(),
        ensures
            final(self).wf(),
            final(self).rule_seq() == old(self).rule_seq(),
            match old(self).lookup(name@, kind) {
                Some(i) => final(self).arts() == old(self).arts() && r == (if reusable(
                    old(self).arts()[i as int],
                    usage,
                ) {
                    Ok::<usize, StoreError>(i)
                } else {
                    Err(StoreError::Reuse)
                }),
                None => r == Ok::<usize, StoreError>(old(self).arts().len() as usize)
                    && final(self).arts().len() == old(self).arts().len() + 1
                    && final(self).arts().subrange(0, old(self).arts().len() as int) == old(self).arts()
                    && is_new_artifact(final(self).arts().last(), name@, kind, usage, description@),
            },
            r matches Ok(i) ==> final(self).lookup(name@, kind) == Some(i),
            forall|n: Seq<char>, k: ArtifactKind|
                !(n == name@ && k == kind) ==> #[trigger] final(self).lookup(n, k) == old(self).lookup(n, k),
    {
        match self.get(name, kind) {
            Some(i) => {
                let a = &self.artifacts[i];
                if usage == ArtifactType::Product && (a.type_ == ArtifactType::Source || a.rule.is_some()) {
                    Err(StoreError::Reuse)
                } else {
                    Ok(i)
                }
            },
            None => {
                let ghost prev = self.arts();
                let i = self.artifacts.len();
                self.artifacts.push(
                    Artifact {
                        name: name.to_owned(),
                        description: description.to_owned(),
                        type_: usage,
                        kind,
                        time: 0,
                        rule: None,
                    },
                );
                proof {
                    assert(self.arts().subrange(0, prev.len() as int) =~= prev);
                    assert forall|x: int| 0 <= x < self.rule_seq().len() implies #[trigger] self.rule_wf(x) by {
                        assert(old(self).rule_wf(x));
                        assert forall|k: int| 0 <= k < self.outs(x).len() implies #[trigger] self.outs(x)[k] < self.arts().len()
                            && self.arts()[self.outs(x)[k] as int].rule == Some(x as usize) by {
                            assert(old(self).outs(x)[k] < prev.len());
                        }
                        assert forall|k: int| 0 <= k < self.ins(x).len() implies self.feeds(#[trigger] self.ins(x)[k], x) by {
                            assert(old(self).feeds(old(self).ins(x)[k], x));
                        }
                        assert forall|k: int| 0 <= k < self.outs(x).len() implies #[trigger] names_of(self.arts(), self.outs(x))[k]
                            == names_of(prev, self.outs(x))[k] by {
                            assert(old(self).outs(x)[k] < prev.len());
                        }
                        assert(names_of(self.arts(), self.outs(x)) =~= names_of(prev, self.outs(x)));
                    }
                    self.lemma_lookup_unique(name@, kind, i);
                    assert forall|n: Seq<char>, k: ArtifactKind|
                        !(n == name@ && k == kind) implies #[trigger] self.lookup(n, k) == old(self).lookup(n, k) by {
                        if old(self).lookup(n, k) is Some {
                            let j = old(self).lookup(n, k)->0;
                            old(self).lemma_lookup_found(n, k);
                            self.lemma_lookup_unique(n, k, j);
                        } else {
                            old(self).lemma_lookup_none(n, k);
                            if self.lookup(n, k) is Some {
                                self.lemma_lookup_found(n, k);
                                let j = self.lookup(n, k)->0;
                                assert(self.arts()[j as int] == prev[j as int]);
                            }
                        }
                    }
                }
                Ok(i)
            },
        }
    }

    pub proof fn lemma_lookup_found(&self, n: Seq<char>, k: ArtifactKind)
        requires
            self.lookup(n, k) is Some,
        ensures
            self.lookup(n, k)->0 < self.arts().len(),
            self.arts()[self.lookup(n, k)->0 as int].name@ == n,
            self.arts()[self.lookup(n, k)->0 as int].kind == k,
    {
    }

    pub proof fn lemma_lookup_none(&self, n: Seq<char>, k: ArtifactKind)
        requires
            self.lookup(n, k) is None,
        ensures
            forall|i: usize| i < self.arts().len() ==> !((#[trigger] self.arts()[i as int]).name@ == n && self.arts()[i as int].kind == k),
    {
    }

    /// In a well-formed store, the artifact of a name and kind is the one that has them.
    pub proof fn lemma_lookup_unique(&self, n: Seq<char>, k: ArtifactKind, i: usize)
        requires
            self.wf(),
            i < self.arts().len(),
            self.arts()[i as int].name@ == n,
            self.arts()[i as int].kind == k,
        ensures
            self.lookup(n, k) == Some(i),
    {
        assert(self.arts()[i as int].name@ == n);
        let c = self.lookup(n, k)->0;
        self.lemma_lookup_found(n, k);
        if c != i {
            assert(!((self.arts()[c as int]).name@ == (self.arts()[i as int]).name@
                && self.arts()[c as int].kind == self.arts()[i as int].kind));
        }
    }

    /// Some rule reads artifact `a`.
    pub open spec fn consumed(&self, a: usize) -> bool {
        exists|x: int, k: int|
            0 <= x < self.rule_seq().len() && 0 <= k < self.ins(x).len() && #[trigger] self.ins(x)[k] == a
    }

    /// Why a rule with these inputs and outputs cannot be added, if it cannot.
    pub open spec fn rule_error(&self, ins: Seq<usize>, outs: Seq<usize>) -> Option<StoreError> {
        let n = self.arts().len();
        if outs.len() == 0 {
            Some(StoreError::NoOutputs)
        } else if exists|k: int| 0 <= k < outs.len() && #[trigger] outs[k] >= n {
            Some(StoreError::NoSuchArtifact)
        } else if exists|k: int| 0 <= k < ins.len() && #[trigger] ins[k] >= n {
            Some(StoreError::NoSuchArtifact)
        } else if exists|k: int|
            0 <= k < outs.len() && !(self.arts()[#[trigger] outs[k] as int].type_ == ArtifactType::Product
                && self.arts()[outs[k] as int].rule is None) {
            Some(StoreError::Produced)
        } else if exists|k: int| 0 <= k < outs.len() && (self.consumed(#[trigger] outs[k]) || ins.contains(outs[k])) {
            Some(StoreError::Cycle)
        } else {
            None
        }
    }

    fn all_known(&self, v: &Vec<usize>) -> (r: bool)
        ensures
            r == forall|k: int| 0 <= k < v@.len() ==> #[trigger] v@[k] < self.arts().len(),
    {
        let mut k: usize = 0;
        while k < v.len()
            invariant
                k <= v@.len(),
                forall|j: int| 0 <= j < k ==> #[trigger] v@[j] < self.arts().len(),
            decreases v@.len() - k,
        {
            if v[k] >= self.artifacts.len() {
                return false;
            }
            k = k + 1;
        }
        true
    }

    fn all_free(&self, outs: &Vec<usize>) -> (r: bool)
        requires
            forall|k: int| 0 <= k < outs@.len() ==> #[trigger] outs@[k] < self.arts().len(),
        ensures
            r == forall|k: int|
                0 <= k < outs@.len() ==> self.arts()[#[trigger] outs@[k] as int].type_ == ArtifactType::Product
                    && self.arts()[outs@[k] as int].rule is None,
    {
        let mut k: usize = 0;
        while k < outs.len()
            invariant
                k <= outs@.len(),
                forall|j: int| 0 <= j < outs@.len() ==> #[trigger] outs@[j] < self.arts().len(),
                forall|j: int|
                    0 <= j < k ==> self.arts()[#[trigger] outs@[j] as int].type_ == ArtifactType::Product
                        && self.arts()[outs@[j] as int].rule is None,
            decreases outs@.len() - k,
        {
            let a = &self.artifacts[outs[k]];
            if a.type_ != ArtifactType::Product || a.rule.is_some() {
                return false;
            }
            k = k + 1;
        }
        true
    }

    /// Whether some rule reads artifact `a`.
    pub fn is_consumed(&self, a: usize) -> (r: bool)
        ensures
            r == self.consumed(a),
    {
        let mut x: usize = 0;
        while x < self.rules.len()
            invariant
                x <= self.rule_seq().len(),
                forall|y: int, k: int| 0 <= y < x && 0 <= k < self.ins(y).len() ==> #[trigger] self.ins(y)[k] != a,
            decreases self.rule_seq().len() - x,
        {
            if has(&self.rules[x].inputs, a) {
                proof {
                    let k = choose|k: int| 0 <= k < self.ins(x as int).len() && self.ins(x as int)[k] == a;
                    assert(self.ins(x as int)[k] == a);
                }
                return true;
            }
            x = x + 1;
        }
        false
    }

    fn any_cycle(&self, ins: &Vec<usize>, outs: &Vec<usize>) -> (r: bool)
        ensures
            r == exists|k: int| 0 <= k < outs@.len() && (self.consumed(#[trigger] outs@[k]) || ins@.contains(outs@[k])),
    {
        let mut k: usize = 0;
        while k < outs.len()
            invariant
                k <= outs@.len(),
                forall|j: int| 0 <= j < k ==> !(self.consumed(#[trigger] outs@[j]) || ins@.contains(outs@[j])),
            decreases outs@.len() - k,
        {
            if self.is_consumed(outs[k]) || has(ins, outs[k]) {
                return true;
            }
            k = k + 1;
        }
        false
    }

    /// Adds a rule that makes `outputs` from `inputs`, and makes it the rule of
    /// each output. Refused without outputs, with an unknown artifact, with an
    /// output that is a source or has a rule, and with an output that some rule
    /// reads.
    pub fn add_rule(&mut self, inputs: Vec<usize>, outputs: Vec<usize>) -> (r: Result<usize, StoreError>)
        requires
            old(self).wf(),
        ensures
            final(self).wf(),
            match old(self).rule_error(inputs@, outputs@) {
                Some(e) => r == Err::<usize, StoreError>(e) && final(self).arts() == old(self).arts()
                    && final(self).rule_seq() == old(self).rule_seq(),
                None => r == Ok::<usize, StoreError>(old(self).rule_seq().len() as usize) && added_rule(
                    *old(self),
                    *final(self),
                    inputs@,
                    outputs@,
                    old(self).rule_seq().len() as usize,
                ),
            },
    {
        if outputs.len() == 0 {
            return Err(StoreError::NoOutputs);
        }
        if !self.all_known(&outputs) {
            return Err(StoreError::NoSuchArtifact);
        }
        if !self.all_known(&inputs) {
            return Err(StoreError::NoSuchArtifact);
        }
        if !self.all_free(&outputs) {
            return Err(StoreError::Produced);
        }
        if self.any_cycle(&inputs, &outputs) {
            return Err(StoreError::Cycle);
        }
        let ghost ins_v = inputs@;
        let ghost outs_v = outputs@;
        assert(old(self).rule_error(ins_v, outs_v) is None);
        let x = self.rules.len();
        let ghost prev = self.arts();
        let mut names: Vec<String> = Vec::new();
        let mut j: usize = 0;
        while j < outputs.len()
            invariant
                j <= outputs@.len(),
                names@.len() == j,
                self.arts() == prev,
                forall|m: int| 0 <= m < outputs@.len() ==> #[trigger] outputs@[m] < prev.len(),
                forall|m: int| 0 <= m < j ==> (#[trigger] names@[m])@ == prev[outputs@[m] as int].name@,
            decreases outputs@.len() - j,
        {
            let n = self.artifacts[outputs[j]].name.clone();
            names.push(n);
            j = j + 1;
        }
        proof {
            assert(names@.map_values(|n: String| n@) =~= names_of(prev, outputs@));
        }
        let mut k: usize = 0;
        while k < outputs.len()
            invariant
                k <= outputs@.len(),
                x == self.rule_seq().len(),
                self.rule_seq() == old(self).rule_seq(),
                self.arts().len() == prev.len(),
                prev == old(self).arts(),
                forall|j: int| 0 <= j < outputs@.len() ==> #[trigger] outputs@[j] < prev.len(),
                forall|i: int|
                    0 <= i < prev.len() ==> #[trigger] same_but_rule(self.arts()[i], prev[i])
                        && self.arts()[i].rule == (if in_outs(outputs@.subrange(0, k as int), i) {
                            Some(x)
                        } else {
                            prev[i].rule
                        }),
            decreases outputs@.len() - k,
        {
            let o = outputs[k];
            let ghost before = self.arts();
            self.artifacts[o].rule = Some(x);
            proof {
                assert(self.arts().len() == before.len());
                assert(forall|i: int| 0 <= i < before.len() && i != o ==> self.arts()[i] == before[i]);
                assert(same_but_rule(self.arts()[o as int], before[o as int]));
                assert(self.arts()[o as int].rule == Some(x));
            }
            k = k + 1;
            proof {
                assert forall|i: int| 0 <= i < prev.len() implies #[trigger] same_but_rule(self.arts()[i], prev[i])
                    && self.arts()[i].rule == (if in_outs(outputs@.subrange(0, k as int), i) {
                        Some(x)
                    } else {
                        prev[i].rule
                    }) by {
                    assert(same_but_rule(before[i], prev[i]));
                    let s1 = outputs@.subrange(0, k as int);
                    let s0 = outputs@.subrange(0, k as int - 1);
                    assert(s1 =~= s0.push(o));
                    if in_outs(s0, i) {
                        let m = choose|m: int| 0 <= m < s0.len() && s0[m] as int == i;
                        assert(s1[m] == s0[m]);
                    }
                    if i == o as int {
                        assert(s1[k - 1] == o);
                    } else if in_outs(s1, i) {
                        let m = choose|m: int| 0 <= m < s1.len() && s1[m] as int == i;
                        assert(m != k - 1);
                        assert(s0[m] == s1[m]);
                    }
                }
            }
        }
        proof {
            assert(outputs@.subrange(0, k as int) =~= outputs@);
            assert forall|i: int| 0 <= i < prev.len() implies #[trigger] same_but_rule(self.arts()[i], prev[i])
                && self.arts()[i].rule == (if in_outs(outputs@, i) {
                    Some(x)
                } else {
                    prev[i].rule
                }) by {
                assert(same_but_rule(self.arts()[i], prev[i]));
                assert(in_outs(outputs@.subrange(0, k as int), i) == in_outs(outputs@, i));
            }
        }
        let id = hash_names(&names);
        let ghost mid = self.arts();
        self.rules.push(
            Rule { id, inputs, outputs, state: RuleState::Processed, diagnostics: Diagnostics::empty() },
        );
        proof {
            assert(self.arts() == mid);
            assert(prev == old(self).arts());
            assert(outs_v == outputs@);
            assert forall|i: int| 0 <= i < prev.len() implies #[trigger] same_but_rule(self.arts()[i], prev[i])
                && self.arts()[i].rule == (if in_outs(outs_v, i) {
                    Some(x)
                } else {
                    prev[i].rule
                }) by {
                assert(same_but_rule(mid[i], prev[i]));
            }
            assert(self.rule_seq().subrange(0, x as int) =~= old(self).rule_seq());
            self.lemma_added_rule_wf(*old(self), x);
            assert(self.ins(x as int) == ins_v);
            assert(self.outs(x as int) == outs_v);
            assert(self.rule_seq()[x as int].diagnostics.0@.len() == 0);
            assert(self.rule_seq()[x as int].id == fx_hash_names(names_of(old(self).arts(), outs_v)));
            assert(self.arts().len() == old(self).arts().len());
            assert forall|i: int|
                0 <= i < old(self).arts().len() implies #[trigger] same_but_rule(self.arts()[i], old(self).arts()[i])
                    && self.arts()[i].rule == (if in_outs(outs_v, i) {
                        Some(x)
                    } else {
                        old(self).arts()[i].rule
                    }) by {
                assert(same_but_rule(self.arts()[i], prev[i]));
            }
            assert(added_rule(*old(self), *self, ins_v, outs_v, x));
        }
        Ok(x)
    }

    proof fn lemma_added_rule_wf(&self, old: ArtifactStore, x: usize)
        requires
            old.wf(),
            old.rule_error(self.ins(x as int), self.outs(x as int)) is None,
            x == old.rule_seq().len(),
            self.rule_seq().len() == x + 1,
            self.rule_seq().subrange(0, x as int) == old.rule_seq(),
            self.rule_seq()[x as int].id == fx_hash_names(names_of(old.arts(), self.outs(x as int))),
            self.arts().len() == old.arts().len(),
            forall|i: int|
                0 <= i < old.arts().len() ==> #[trigger] same_but_rule(self.arts()[i], old.arts()[i])
                    && self.arts()[i].rule == (if in_outs(self.outs(x as int), i) {
                        Some(x)
                    } else {
                        old.arts()[i].rule
                    }),
        ensures
            self.wf(),
    {
        let a = self.arts();
        let oa = old.arts();
        let outs = self.outs(x as int);
        let ins = self.ins(x as int);
        assert forall|y: int| 0 <= y < x implies self.rule_seq()[y] == old.rule_seq()[y] by {
            assert(self.rule_seq().subrange(0, x as int)[y] == self.rule_seq()[y]);
        }
        assert forall|y: int| 0 <= y < self.rule_seq().len() implies #[trigger] self.rule_wf(y) by {
            if y < x {
                assert(old.rule_wf(y));
                assert(self.outs(y) == old.outs(y));
                assert(self.ins(y) == old.ins(y));
                assert forall|k: int| 0 <= k < self.outs(y).len() implies #[trigger] self.outs(y)[k] < a.len()
                    && a[self.outs(y)[k] as int].rule == Some(y as usize) by {
                    let o = old.outs(y)[k];
                    assert(old.rule_wf(y));
                    assert(o < oa.len() && oa[o as int].rule == Some(y as usize));
                    assert(same_but_rule(a[o as int], oa[o as int]));
                    if in_outs(outs, o as int) {
                        let m = choose|m: int| 0 <= m < outs.len() && outs[m] as int == o as int;
                        assert(oa[outs[m] as int].rule is None);
                    }
                }
                assert forall|k: int| 0 <= k < self.ins(y).len() implies self.feeds(#[trigger] self.ins(y)[k], y) by {
                    let i = old.ins(y)[k];
                    assert(old.feeds(i, y));
                    assert(same_but_rule(a[i as int], oa[i as int]));
                    if in_outs(outs, i as int) {
                        let m = choose|m: int| 0 <= m < outs.len() && outs[m] as int == i as int;
                        assert(old.ins(y)[k] == outs[m]);
                        assert(old.consumed(outs[m]));
                    }
                }
                assert forall|k: int| 0 <= k < self.outs(y).len() implies #[trigger] names_of(a, self.outs(y))[k]
                    == names_of(oa, self.outs(y))[k] by {
                    assert(old.outs(y)[k] < oa.len());
                    assert(same_but_rule(a[old.outs(y)[k] as int], oa[old.outs(y)[k] as int]));
                }
                assert(names_of(a, self.outs(y)) =~= names_of(oa, self.outs(y)));
            } else {
                assert(y == x);
                assert forall|k: int| 0 <= k < outs.len() implies #[trigger] outs[k] < a.len()
                    && a[outs[k] as int].rule == Some(x) by {
                    assert(outs[k] < oa.len());
                    assert(same_but_rule(a[outs[k] as int], oa[outs[k] as int]));
                    assert(in_outs(outs, outs[k] as int));
                }
                assert forall|k: int| 0 <= k < ins.len() implies self.feeds(#[trigger] ins[k], x as int) by {
                    let i = ins[k];
                    assert(i < oa.len());
                    if in_outs(outs, i as int) {
                        let m = choose|m: int| 0 <= m < outs.len() && outs[m] as int == i as int;
                        assert(ins.contains(outs[m]));
                    }
                    assert(same_but_rule(a[i as int], oa[i as int]));
                    match oa[i as int].rule {
                        Some(z) => {
                            assert(z < old.rule_seq().len());
                        },
                        None => {},
                    }
                }
                assert forall|k: int| 0 <= k < outs.len() implies #[trigger] names_of(a, outs)[k]
                    == names_of(oa, outs)[k] by {
                    assert(same_but_rule(a[outs[k] as int], oa[outs[k] as int]));
                }
                assert(names_of(a, outs) =~= names_of(oa, outs));
            }
        }
        assert forall|i: int| 0 <= i < a.len() implies match (#[trigger] a[i]).rule {
            Some(z) => z < self.rule_seq().len() && a[i].type_ == ArtifactType::Product && self.outs(
                z as int,
            ).contains(i as usize),
            None => true,
        } by {
            assert(same_but_rule(a[i], oa[i]));
            if in_outs(outs, i) {
                let m = choose|m: int| 0 <= m < outs.len() && outs[m] as int == i;
                assert(oa[outs[m] as int].type_ == ArtifactType::Product);
                assert(outs.contains(outs[m]));
            } else {
                match oa[i].rule {
                    Some(z) => {
                        assert(self.rule_seq()[z as int] == old.rule_seq()[z as int]);
                    },
                    None => {},
                }
            }
        }
        assert forall|i: int, j: int|
            0 <= i < a.len() && 0 <= j < a.len() && i != j implies !((#[trigger] a[i]).name@ == (
            #[trigger] a[j]).name@ && a[i].kind == a[j].kind) by {
            assert(same_but_rule(a[i], oa[i]));
            assert(same_but_rule(a[j], oa[j]));
        }
    }

    /// Time of artifact `a`.
    pub open spec fn time_of(&self, a: int) -> u64 {
        self.arts()[a].time
    }

    /// Input `i` of the rule of `a` calls for a rerun: it is itself outdated,
    /// or newer than `a`.
    pub open spec fn stale_input(&self, a: int, i: int) -> bool {
        0 <= i < self.arts().len() && ((self.rank_of(i) < self.rank_of(a) && self.outdated(i))
            || self.time_of(i) > self.time_of(a))
    }

    /// Whether `a` must be rebuilt: it has a rule, and it is phony or one of the
    /// rule's inputs is outdated or newer than it.
    pub open spec fn outdated(&self, a: int) -> bool
        decreases self.rank_of(a),
    {
        if 0 <= a < self.arts().len() {
            match self.arts()[a].rule {
                Some(x) => if x < self.rule_seq().len() {
                    self.arts()[a].kind == ArtifactKind::Phony || exists|k: int|
                        0 <= k < self.ins(x as int).len() && {
                            let i = #[trigger] self.ins(x as int)[k] as int;
                            0 <= i < self.arts().len() && ((self.rank_of(i) < self.rank_of(a)
                                && self.outdated(i)) || self.time_of(i) > self.time_of(a))
                        }
                } else {
                    false
                },
                None => false,
            }
        } else {
            false
        }
    }

    /// In a well-formed store, each input of the rule of `a` ranks below `a`.
    pub proof fn lemma_input_rank(&self, a: int, k: int)
        requires
            self.wf(),
            0 <= a < self.arts().len(),
            self.arts()[a].rule is Some,
            0 <= k < self.ins(self.arts()[a].rule->0 as int).len(),
        ensures
            self.ins(self.arts()[a].rule->0 as int)[k] < self.arts().len(),
            self.rank_of(self.ins(self.arts()[a].rule->0 as int)[k] as int) < self.rank_of(a),
    {
        let x = self.arts()[a].rule->0 as int;
        assert(self.rule_wf(x));
        assert(self.feeds(self.ins(x)[k], x));
    }

    /// Whether `a` must be rebuilt.
    pub fn outdated_exec(&self, a: usize) -> (r: bool)
        requires
            self.wf(),
            a < self.arts().len(),
        ensures
            r == self.outdated(a as int),
        decreases self.rank_of(a as int),
    {
        match self.artifacts[a].rule {
            None => false,
            Some(x) => {
                proof {
                    assert(x < self.rule_seq().len());
                }
                if self.artifacts[a].kind == ArtifactKind::Phony {
                    return true;
                }
                let ins = &self.rules[x].inputs;
                let mut k: usize = 0;
                while k < ins.len()
                    invariant
                        self.wf(),
                        a < self.arts().len(),
                        self.arts()[a as int].rule == Some(x),
                        x < self.rule_seq().len(),
                        *ins == self.rule_seq()[x as int].inputs,
                        k <= ins@.len(),
                        forall|j: int| 0 <= j < k ==> !#[trigger] self.stale_input(a as int, ins@[j] as int),
                    decreases ins@.len() - k,
                {
                    let i = ins[k];
                    proof {
                        self.lemma_input_rank(a as int, k as int);
                    }
                    if self.outdated_exec(i) || self.artifacts[i].time > self.artifacts[a].time {
                        proof {
                            assert(self.stale_input(a as int, self.ins(x as int)[k as int] as int));

                        }
                        return true;
                    }
                    k = k + 1;
                }
                proof {
                    assert forall|j: int| 0 <= j < self.ins(x as int).len() implies !self.stale_input(
                        a as int,
                        #[trigger] self.ins(x as int)[j] as int,
                    ) by {
                        assert(!self.stale_input(a as int, ins@[j] as int));
                    }
                }
                false
            },
        }
    }

    /// The rule of artifact `a`.
    pub fn artifacts_rule(&self, a: usize) -> (r: Option<usize>)
        requires
            self.wf(),
            a < self.arts().len(),
        ensures
            r == self.arts()[a as int].rule,
            r matches Some(x) ==> x < self.rule_seq().len(),
    {
        self.artifacts[a].rule
    }

    /// Whether artifact `a` is phony.
    pub fn is_phony(&self, a: usize) -> (r: bool)
        requires
            a < self.arts().len(),
        ensures
            r == (self.arts()[a as int].kind == ArtifactKind::Phony),
    {
        self.artifacts[a].kind == ArtifactKind::Phony
    }

    /// Whether artifact `a` has no rule.
    pub fn is_source(&self, a: usize) -> (r: bool)
        requires
            a < self.arts().len(),
        ensures
            r == (self.arts()[a as int].rule is None),
    {
        self.artifacts[a].rule.is_none()
    }

    /// The modification time of artifact `a`.
    pub fn time(&self, a: usize) -> (r: u64)
        requires
            a < self.arts().len(),
        ensures
            r == self.time_of(a as int),
    {
        self.artifacts[a].time
    }

    /// The inputs of rule `x`.
    pub fn rule_inputs(&self, x: usize) -> (r: &Vec<usize>)
        requires
            x < self.rule_seq().len(),
        ensures
            r@ == self.ins(x as int),
    {
        &self.rules[x].inputs
    }

    /// The outputs of rule `x`.
    pub fn rule_outputs(&self, x: usize) -> (r: &Vec<usize>)
        requires
            x < self.rule_seq().len(),
        ensures
            r@ == self.outs(x as int),
    {
        &self.rules[x].outputs
    }

    /// `self` has the graph of `old`: the same artifacts but for their times,
    /// and the same rules but for their states and diagnostics.
    pub open spec fn same_graph(&self, old: &ArtifactStore) -> bool {
        &&& self.arts().len() == old.arts().len()
        &&& forall|i: int|
            0 <= i < self.arts().len() ==> #[trigger] same_but_time(self.arts()[i], old.arts()[i])
        &&& self.rule_seq().len() == old.rule_seq().len()
        &&& forall|x: int|
            0 <= x < self.rule_seq().len() ==> #[trigger] self.ins(x) == old.ins(x) && self.outs(x)
                == old.outs(x) && self.rule_seq()[x].id == old.rule_seq()[x].id
    }

    pub proof fn lemma_same_graph_wf(&self, old: &ArtifactStore)
        requires
            old.wf(),
            self.same_graph(old),
        ensures
            self.wf(),
    {
        let a = self.arts();
        let oa = old.arts();
        assert forall|x: int| 0 <= x < self.rule_seq().len() implies #[trigger] self.rule_wf(x) by {
            assert(old.rule_wf(x));
            assert(self.ins(x) == old.ins(x));
            assert forall|k: int| 0 <= k < self.outs(x).len() implies #[trigger] self.outs(x)[k] < a.len()
                && a[self.outs(x)[k] as int].rule == Some(x as usize) by {
                assert(same_but_time(a[old.outs(x)[k] as int], oa[old.outs(x)[k] as int]));
            }
            assert forall|k: int| 0 <= k < self.ins(x).len() implies self.feeds(#[trigger] self.ins(x)[k], x) by {
                assert(old.feeds(old.ins(x)[k], x));
                assert(same_but_time(a[old.ins(x)[k] as int], oa[old.ins(x)[k] as int]));
            }
            assert forall|k: int| 0 <= k < self.outs(x).len() implies #[trigger] names_of(a, self.outs(x))[k]
                == names_of(oa, self.outs(x))[k] by {
                assert(same_but_time(a[old.outs(x)[k] as int], oa[old.outs(x)[k] as int]));
            }
            assert(names_of(a, self.outs(x)) =~= names_of(oa, old.outs(x)));
        }
        assert forall|i: int| 0 <= i < a.len() implies match (#[trigger] a[i]).rule {
            Some(z) => z < self.rule_seq().len() && a[i].type_ == ArtifactType::Product && self.outs(
                z as int,
            ).contains(i as usize),
            None => true,
        } by {
            assert(same_but_time(a[i], oa[i]));
            match oa[i].rule {
                Some(z) => {
                    assert(z < old.rule_seq().len());
                    assert(self.ins(z as int) == old.ins(z as int));
                    assert(self.outs(z as int) == old.outs(z as int));
                },
                None => {},
            }
        }
        assert forall|i: int, j: int|
            0 <= i < a.len() && 0 <= j < a.len() && i != j implies !((#[trigger] a[i]).name@ == (
            #[trigger] a[j]).name@ && a[i].kind == a[j].kind) by {
            assert(same_but_time(a[i], oa[i]));
            assert(same_but_time(a[j], oa[j]));
        }
    }

    /// Sets the modification time of artifact `a`.
    pub fn set_time(&mut self, a: usize, time: u64)
        requires
            old(self).wf(),
            a < old(self).arts().len(),
        ensures
            final(self).wf(),
            final(self).same_graph(old(self)),
            final(self).rule_seq() == old(self).rule_seq(),
            final(self).time_of(a as int) == time,
            forall|i: int| 0 <= i < final(self).arts().len() && i != a ==> #[trigger] final(self).arts()[i] == old(self).arts()[i],
    {
        self.artifacts[a].time = time;
        proof {
            assert forall|i: int| 0 <= i < self.arts().len() implies #[trigger] same_but_time(self.arts()[i], old(self).arts()[i]) by {
                if i != a {
                    assert(self.arts()[i] == old(self).arts()[i]);
                }
            }
            self.lemma_same_graph_wf(old(self));
        }
    }

    /// Sets the state of rule `x`.
    pub fn set_state(&mut self, x: usize, state: RuleState)
        requires
            old(self).wf(),
            x < old(self).rule_seq().len(),
        ensures
            final(self).wf(),
            final(self).same_graph(old(self)),
            final(self).arts() == old(self).arts(),
            final(self).rule_seq()[x as int].state == state,
            final(self).rule_seq()[x as int].diagnostics == old(self).rule_seq()[x as int].diagnostics,
            forall|y: int| 0 <= y < final(self).rule_seq().len() && y != x ==> #[trigger] final(self).rule_seq()[y] == old(self).rule_seq()[y],
    {
        self.rules[x].state = state;
        proof {
            assert forall|y: int| 0 <= y < self.rule_seq().len() implies #[trigger] self.ins(y) == old(self).ins(y)
                && self.outs(y) == old(self).outs(y) && self.rule_seq()[y].id == old(self).rule_seq()[y].id by {
                if y != x {
                    assert(self.rule_seq()[y] == old(self).rule_seq()[y]);
                }
            }
            assert forall|i: int| 0 <= i < self.arts().len() implies #[trigger] same_but_time(self.arts()[i], old(self).arts()[i]) by {
            }
            self.lemma_same_graph_wf(old(self));
        }
    }

    /// Keeps the diagnostics of the last run of rule `x`.
    pub(crate) fn set_diagnostics(&mut self, x: usize, diagnostics: Diagnostics)
        requires
            old(self).wf(),
            x < old(self).rule_seq().len(),
        ensures
            final(self).wf(),
            final(self).same_graph(old(self)),
            final(self).arts() == old(self).arts(),
            final(self).rule_seq()[x as int].diagnostics == diagnostics,
            final(self).rule_seq()[x as int].state == old(self).rule_seq()[x as int].state,
            forall|y: int| 0 <= y < final(self).rule_seq().len() && y != x ==> #[trigger] final(self).rule_seq()[y] == old(self).rule_seq()[y],
    {
        self.rules[x].diagnostics = diagnostics;
        proof {
            assert forall|y: int| 0 <= y < self.rule_seq().len() implies #[trigger] self.ins(y) == old(self).ins(y)
                && self.outs(y) == old(self).outs(y) && self.rule_seq()[y].id == old(self).rule_seq()[y].id by {
                if y != x {
                    assert(self.rule_seq()[y] == old(self).rule_seq()[y]);
                }
            }
            assert forall|i: int| 0 <= i < self.arts().len() implies #[trigger] same_but_time(self.arts()[i], old(self).arts()[i]) by {
            }
            self.lemma_same_graph_wf(old(self));
        }
    }

    fn all_feed(&self, v: &Vec<usize>, x: usize) -> (r: bool)
        requires
            self.wf(),
            forall|k: int| 0 <= k < v@.len() ==> #[trigger] v@[k] < self.arts().len(),
        ensures
            r == forall|k: int| 0 <= k < v@.len() ==> self.feeds(#[trigger] v@[k], x as int),
    {
        let mut k: usize = 0;
        while k < v.len()
            invariant
                k <= v@.len(),
                forall|j: int| 0 <= j < v@.len() ==> #[trigger] v@[j] < self.arts().len(),
                forall|j: int| 0 <= j < k ==> self.feeds(#[trigger] v@[j], x as int),
            decreases v@.len() - k,
        {
            match self.artifacts[v[k]].rule {
                Some(y) => {
                    if y >= x {
                        return false;
                    }
                },
                None => {},
            }
            k = k + 1;
        }
        true
    }

    /// Replaces the inputs of rule `x`, as a compile rule does once the
    /// compiler has listed the headers it read. Refused with an unknown
    /// artifact, and with an input that this rule or a later one makes.
    pub fn set_inputs(&mut self, x: usize, inputs: Vec<usize>) -> (r: Result<(), StoreError>)
        requires
            old(self).wf(),
            x < old(self).rule_seq().len(),
        ensures
            final(self).wf(),
            final(self).arts() == old(self).arts(),
            final(self).rule_seq().len() == old(self).rule_seq().len(),
            r == (if exists|k: int| 0 <= k < inputs@.len() && #[trigger] inputs@[k] >= old(self).arts().len() {
                Err::<(), StoreError>(StoreError::NoSuchArtifact)
            } else if exists|k: int| 0 <= k < inputs@.len() && !old(self).feeds(#[trigger] inputs@[k], x as int) {
                Err(StoreError::Cycle)
            } else {
                Ok(())
            }),
            r is Ok ==> final(self).ins(x as int) == inputs@,
            r is Err ==> final(self).rule_seq() == old(self).rule_seq(),
            forall|y: int| 0 <= y < final(self).rule_seq().len() && y != x ==> #[trigger] final(self).rule_seq()[y] == old(self).rule_seq()[y],
            final(self).outs(x as int) == old(self).outs(x as int),
            final(self).rule_seq()[x as int].id == old(self).rule_seq()[x as int].id,
    {
        if !self.all_known(&inputs) {
            return Err(StoreError::NoSuchArtifact);
        }
        if !self.all_feed(&inputs, x) {
            return Err(StoreError::Cycle);
        }
        let ghost ins_v = inputs@;
        self.rules[x].inputs = inputs;
        proof {
            assert forall|y: int| 0 <= y < self.rule_seq().len() implies #[trigger] self.rule_wf(y) by {
                assert(old(self).rule_wf(y));
                if y != x {
                    assert(self.rule_seq()[y] == old(self).rule_seq()[y]);
                    assert(self.outs(y) == old(self).outs(y));
                    assert(self.ins(y) == old(self).ins(y));
                    assert(forall|k: int| 0 <= k < self.ins(y).len() ==> self.feeds(#[trigger] self.ins(y)[k], y)) by {
                        assert(forall|k: int| 0 <= k < old(self).ins(y).len() ==> old(self).feeds(#[trigger] old(self).ins(y)[k], y));
                    }
                    assert forall|k: int| 0 <= k < self.outs(y).len() implies #[trigger] self.outs(y)[k] < self.arts().len()
                        && self.arts()[self.outs(y)[k] as int].rule == Some(y as usize) by {
                        assert(old(self).outs(y)[k] < old(self).arts().len());
                    }
                } else {
                    assert(self.ins(y) == ins_v);
                    assert(self.outs(y) == old(self).outs(y));
                    assert(self.rule_seq()[y].id == old(self).rule_seq()[y].id);
                    assert(forall|k: int| 0 <= k < ins_v.len() ==> self.feeds(#[trigger] ins_v[k], x as int));
                    assert forall|k: int| 0 <= k < self.outs(y).len() implies #[trigger] self.outs(y)[k] < self.arts().len()
                        && self.arts()[self.outs(y)[k] as int].rule == Some(y as usize) by {
                        assert(old(self).outs(y)[k] < old(self).arts().len());
                    }
                }
            }
            assert forall|i: int| 0 <= i < self.arts().len() implies match (#[trigger] self.arts()[i]).rule {
                Some(z) => z < self.rule_seq().len() && self.arts()[i].type_ == ArtifactType::Product && self.outs(
                    z as int,
                ).contains(i as usize),
                None => true,
            } by {
                match self.arts()[i].rule {
                    Some(z) => {
                        assert(z < old(self).rule_seq().len());
                        if z != x {
                            assert(self.rule_seq()[z as int] == old(self).rule_seq()[z as int]);
                        }
                    },
                    None => {},
                }
            }
        }
        Ok(())
    }
}

/// Artifacts `a` and `b` differ at most in their time.
pub open spec fn same_but_time(a: Artifact, b: Artifact) -> bool {
    &&& a.name@ == b.name@
    &&& a.description@ == b.description@
    &&& a.type_ == b.type_
    &&& a.kind == b.kind
    &&& a.rule == b.rule
}

/// Artifacts `a` and `b` differ at most in their rule.
pub open spec fn same_but_rule(a: Artifact, b: Artifact) -> bool {
    &&& a.name@ == b.name@
    &&& a.description@ == b.description@
    &&& a.type_ == b.type_
    &&& a.kind == b.kind
    &&& a.time == b.time
}

/// `new` is `old` with one more rule, from `ins` to `outs`, which is the rule of each output.
pub open spec fn added_rule(old: ArtifactStore, new: ArtifactStore, ins: Seq<usize>, outs: Seq<usize>, x: usize) -> bool {
    &&& x == old.rule_seq().len()
    &&& new.rule_seq().len() == x + 1
    &&& new.rule_seq().subrange(0, x as int) == old.rule_seq()
    &&& new.ins(x as int) == ins
    &&& new.outs(x as int) == outs
    &&& new.rule_seq()[x as int].id == fx_hash_names(names_of(old.arts(), outs))
    &&& new.rule_seq()[x as int].state == RuleState::Processed
    &&& new.rule_seq()[x as int].diagnostics.0@.len() == 0
    &&& new.arts().len() == old.arts().len()
    &&& forall|i: int|
        0 <= i < old.arts().len() ==> #[trigger] same_but_rule(new.arts()[i], old.arts()[i])
            && new.arts()[i].rule == (if in_outs(outs, i) {
                Some(x)
            } else {
                old.arts()[i].rule
            })
}

/// Artifact `i` is among `outs`.
pub open spec fn in_outs(outs: Seq<usize>, i: int) -> bool {
    exists|m: int| 0 <= m < outs.len() && outs[m] as int == i
}

/// Whether `v` holds `x`.
pub fn has(v: &Vec<usize>, x: usize) -> (r: bool)
    ensures
        r == v@.contains(x),
{
    let mut k: usize = 0;
    while k < v.len()
        invariant
            k <= v@.len(),
            forall|j: int| 0 <= j < k ==> v@[j] != x,
        decreases v@.len() - k,
    {
        if v[k] == x {
            return true;
        }
        k = k + 1;
    }
    false
}

/// Whether an existing artifact can take the role `usage`: any artifact can
/// be read; only a product without a rule can be produced.
pub open spec fn reusable(a: Artifact, usage: ArtifactType) -> bool {
    usage == ArtifactType::Source || (a.type_ == ArtifactType::Product && a.rule is None)
}

/// `a` is a freshly interned artifact.
pub open spec fn is_new_artifact(a: Artifact, name: Seq<char>, kind: ArtifactKind, usage: ArtifactType, description: Seq<char>) -> bool {
    &&& a.name@ == name
    &&& a.description@ == description
    &&& a.kind == kind
    &&& a.type_ == usage
    &&& a.time == 0
    &&& a.rule is None
}

} // verus!
