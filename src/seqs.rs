//! Facts about membership in sequences without repeated elements.

use vstd::prelude::*;

verus! {

pub proof fn lemma_drop_first(s: Seq<usize>)
    requires
        s.len() > 0,
    ensures
        forall|y: usize| #[trigger] s.contains(y) <==> s[0] == y || s.drop_first().contains(y),
        s.no_duplicates() ==> s.drop_first().no_duplicates() && !s.drop_first().contains(s[0]),
{
    assert forall|y: usize| #[trigger] s.contains(y) <==> s[0] == y || s.drop_first().contains(y) by {
        if s.contains(y) && s[0] != y {
            let j = choose|j: int| 0 <= j < s.len() && s[j] == y;
            assert(s.drop_first()[j - 1] == y);
        }
        if s.drop_first().contains(y) {
            let j = choose|j: int| 0 <= j < s.drop_first().len() && s.drop_first()[j] == y;
            assert(s[j + 1] == y);
        }
        if s[0] == y {
            assert(s[0] == y);
        }
    }
    if s.no_duplicates() {
        assert(s.drop_first().no_duplicates()) by {
            assert forall|i: int, j: int| 0 <= i < s.drop_first().len() && 0 <= j < s.drop_first().len() && i != j
                implies s.drop_first()[i] != s.drop_first()[j] by {
                assert(s[i + 1] != s[j + 1]);
            }
        }
        if s.drop_first().contains(s[0]) {
            let j = choose|j: int| 0 <= j < s.drop_first().len() && s.drop_first()[j] == s[0];
            assert(s[j + 1] == s[0]);
        }
    }
}

pub proof fn lemma_push(s: Seq<usize>, v: usize)
    ensures
        forall|y: usize| #[trigger] s.push(v).contains(y) <==> s.contains(y) || y == v,
        s.no_duplicates() && !s.contains(v) ==> s.push(v).no_duplicates(),
{
    assert forall|y: usize| #[trigger] s.push(v).contains(y) <==> s.contains(y) || y == v by {
        if s.contains(y) {
            let j = choose|j: int| 0 <= j < s.len() && s[j] == y;
            assert(s.push(v)[j] == y);
        }
        if y == v {
            assert(s.push(v)[s.len() as int] == v);
        }
        if s.push(v).contains(y) {
            let j = choose|j: int| 0 <= j < s.push(v).len() && s.push(v)[j] == y;
            if j < s.len() {
                assert(s[j] == y);
            }
        }
    }
    if s.no_duplicates() && !s.contains(v) {
        assert forall|i: int, j: int| 0 <= i < s.push(v).len() && 0 <= j < s.push(v).len() && i != j
            implies s.push(v)[i] != s.push(v)[j] by {
            if i < s.len() && j < s.len() {
                assert(s[i] != s[j]);
            } else if i < s.len() {
                assert(s.contains(s[i]));
            } else if j < s.len() {
                assert(s.contains(s[j]));
            }
        }
    }
}

} // verus!
