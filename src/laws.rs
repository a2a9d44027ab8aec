//! Properties of the store and of the scheduler that hold for every
//! well-formed store.

use vstd::prelude::*;
use crate::artifact::{fx_hash_names, names_of, ArtifactKind, ArtifactStore};

verus! {

/// Two different names of one kind never share an artifact.
pub proof fn lemma_distinct_names(s: &ArtifactStore, n1: Seq<char>, n2: Seq<char>, k: ArtifactKind)
    requires
        s.wf(),
        n1 != n2,
        s.lookup(n1, k) is Some,
        s.lookup(n2, k) is Some,
    ensures
        s.lookup(n1, k) != s.lookup(n2, k),
{
    s.lemma_lookup_found(n1, k);
    s.lemma_lookup_found(n2, k);
}

/// A rule's identifier is the hash of the names of its outputs, in order.
/// Names never change, and the hash depends on them alone, so the identifier
/// is the same in every run.
pub proof fn lemma_rule_id(s: &ArtifactStore, x: int)
    requires
        s.wf(),
        0 <= x < s.rule_seq().len(),
    ensures
        s.rule_seq()[x].id == fx_hash_names(names_of(s.arts(), s.outs(x))),
{
    assert(s.rule_wf(x));
}

/// An artifact is outdated exactly when it has a rule and it is phony, or an
/// input of that rule is outdated or newer than it.
pub proof fn lemma_outdated(s: &ArtifactStore, a: int)
    requires
        s.wf(),
        0 <= a < s.arts().len(),
    ensures
        s.outdated(a) == (match s.arts()[a].rule {
            Some(x) => s.arts()[a].kind == ArtifactKind::Phony || exists|k: int|
                0 <= k < s.ins(x as int).len() && (s.outdated(#[trigger] s.ins(x as int)[k] as int)
                    || s.time_of(s.ins(x as int)[k] as int) > s.time_of(a)),
            None => false,
        }),
{
    match s.arts()[a].rule {
        Some(x) => {
            assert forall|k: int| 0 <= k < s.ins(x as int).len() implies (#[trigger] s.ins(x as int)[k] as int) < s.arts().len()
                && s.rank_of(s.ins(x as int)[k] as int) < s.rank_of(a) by {
                s.lemma_input_rank(a, k);
            }
        },
        None => {},
    }
}

/// The rules that a build schedules do not depend on the order of the goals.
pub proof fn lemma_goal_order(s: &ArtifactStore, g1: Seq<usize>, g2: Seq<usize>)
    requires
        g1.to_multiset() == g2.to_multiset(),
    ensures
        s.scheduled_set(g1) == s.scheduled_set(g2),
{
    broadcast use vstd::seq_lib::group_to_multiset_ensures;

    assert forall|x: usize| s.scheduled_set(g1).contains(x) implies s.scheduled_set(g2).contains(x) by {
        let k = choose|k: int| 0 <= k < g1.len() && s.schedules(#[trigger] g1[k] as int, x);
        assert(g1.contains(g1[k]));
        assert(g1.to_multiset().count(g1[k]) > 0);
        assert(g2.contains(g1[k]));
        let j = choose|j: int| 0 <= j < g2.len() && g2[j] == g1[k];
        assert(s.schedules(g2[j] as int, x));
    }
    assert forall|x: usize| s.scheduled_set(g2).contains(x) implies s.scheduled_set(g1).contains(x) by {
        let k = choose|k: int| 0 <= k < g2.len() && s.schedules(#[trigger] g2[k] as int, x);
        assert(g2.contains(g2[k]));
        assert(g2.to_multiset().count(g2[k]) > 0);
        assert(g1.contains(g2[k]));
        let j = choose|j: int| 0 <= j < g1.len() && g1[j] == g2[k];
        assert(s.schedules(g1[j] as int, x));
    }
    assert(s.scheduled_set(g1) =~= s.scheduled_set(g2));
}

/// A build without goals schedules no rule.
pub proof fn lemma_no_goals(s: &ArtifactStore)
    ensures
        s.scheduled_set(Seq::empty()) == Set::<usize>::empty(),
{
    assert(s.scheduled_set(Seq::empty()) =~= Set::<usize>::empty());
}

/// A goal without a rule schedules nothing.
pub proof fn lemma_goal_without_rule(s: &ArtifactStore, g: int, x: usize)
    requires
        0 <= g < s.arts().len(),
        s.arts()[g].rule is None,
    ensures
        !s.schedules(g, x),
{
}

/// After a build that left every actual product no older than its inputs,
/// none of them phony goals with a rule, no actual artifact is outdated.
pub proof fn lemma_settled_not_outdated(s: &ArtifactStore, a: int)
    requires
        s.wf(),
        settled(s),
        0 <= a < s.arts().len(),
        s.arts()[a].kind == ArtifactKind::Actual,
    ensures
        !s.outdated(a),
    decreases s.rank_of(a),
{
    match s.arts()[a].rule {
        Some(x) => {
            assert forall|k: int| 0 <= k < s.ins(x as int).len() implies !s.stale_input(a, #[trigger] s.ins(x as int)[k] as int) by {
                s.lemma_input_rank(a, k);
                let i = s.ins(x as int)[k] as int;
                assert(s.time_of(i) <= s.time_of(a) && !(s.arts()[i].kind == ArtifactKind::Phony && s.arts()[i].rule is Some));
                if s.arts()[i].kind == ArtifactKind::Actual {
                    lemma_settled_not_outdated(s, i);
                }
            }
        },
        None => {},
    }
}

/// Every product reads only artifacts no newer than itself, and no phony goal
/// that has a rule.
pub open spec fn settled(s: &ArtifactStore) -> bool {
    forall|a: int, k: int|
        0 <= a < s.arts().len() && s.arts()[a].kind == ArtifactKind::Actual && s.arts()[a].rule is Some
            && 0 <= k < s.ins(s.arts()[a].rule->0 as int).len() ==> {
            let i = #[trigger] s.ins(s.arts()[a].rule->0 as int)[k] as int;
            s.time_of(i) <= s.time_of(a) && !(s.arts()[i].kind == ArtifactKind::Phony && s.arts()[i].rule is Some)
        }
}

/// Rebuilding a settled store schedules only rules of phony artifacts: the
/// files are all up to date.
pub proof fn lemma_rebuild_settled(s: &ArtifactStore, g: int, x: usize)
    requires
        s.wf(),
        settled(s),
        0 <= g < s.arts().len(),
        s.schedules(g, x),
    ensures
        exists|b: int| 0 <= b < s.arts().len() && s.arts()[b].rule == Some(x) && s.arts()[b].kind == ArtifactKind::Phony,
    decreases s.rank_of(g),
{
    let y = s.arts()[g].rule->0;
    if x == y && s.outdated(g) {
        if s.arts()[g].kind == ArtifactKind::Actual {
            lemma_settled_not_outdated(s, g);
        }
    } else {
        let k = choose|k: int| 0 <= k < s.ins(y as int).len() && {
            let i = #[trigger] s.ins(y as int)[k] as int;
            s.rank_of(i) < s.rank_of(g) && s.schedules(i, x)
        };
        s.lemma_input_rank(g, k);
        lemma_rebuild_settled(s, s.ins(y as int)[k] as int, x);
    }
}

} // verus!
