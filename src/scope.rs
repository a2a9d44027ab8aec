//! The registry of scopes: named subsystems, nested, each with its goals.
//! The root scope has the empty name; a child's name is its parent's name,
//! a dot, and its own.

use vstd::prelude::*;
use crate::artifact::{has, reusable, ArtifactKind, ArtifactStore, ArtifactType, StoreError};
use crate::text::{chars_of, push_all, string_of};

verus! {

/// One scope.
#[derive(Debug)]
pub struct ScopeEntry {
    /// The full, dot-joined name.
    pub name: String,
    pub description: String,
    pub parent: Option<usize>,
    /// The goals (phony artifacts) made in this scope.
    pub goals: Vec<usize>,
}

/// Why the registry refused an operation.
#[derive(Debug, Clone, Copy, PartialEq, Eq, Structural)]
pub enum ScopeError {
    /// A sub-scope of that name exists already.
    Exists,
    /// No scope has that index.
    NoSuchScope,
    /// The store refused the goal.
    Store(StoreError),
}

/// The name of `name` inside a scope named `scope`.
pub open spec fn full_name(scope: Seq<char>, name: Seq<char>) -> Seq<char> {
    if scope.len() == 0 {
        name
    } else {
        scope + seq!['.'] + name
    }
}

/// Scope `c` is a child of `p`, named `name`.
pub open spec fn child_named(s: Seq<ScopeEntry>, p: usize, c: int, name: Seq<char>) -> bool {
    0 <= c < s.len() && s[c].parent == Some(p) && s[c].name@ == name
}

/// The scope tree, root first.
pub struct Scopes {
    entries: Vec<ScopeEntry>,
}

impl Scopes {
    pub closed spec fn view_entries(&self) -> Seq<ScopeEntry> {
        self.entries@
    }

    pub open spec fn wf(&self) -> bool {
        let s = self.view_entries();
        &&& s.len() > 0
        &&& s[0].name@.len() == 0
        &&& s[0].parent is None
        &&& forall|i: int| 1 <= i < s.len() ==> ((#[trigger] s[i]).parent matches Some(p) && p < i)
    }

    /// A registry with the root scope alone.
    pub fn new() -> (r: Self)
        ensures
            r.wf(),
            r.view_entries().len() == 1,
            r.view_entries()[0].goals@.len() == 0,
    {
        let mut entries: Vec<ScopeEntry> = Vec::new();
        entries.push(ScopeEntry { name: String::new(), description: String::new(), parent: None, goals: Vec::new() });
        Scopes { entries }
    }

    /// The scope at index `i`.
    pub fn entry(&self, i: usize) -> (r: &ScopeEntry)
        requires
            i < self.view_entries().len(),
        ensures
            *r == self.view_entries()[i as int],
    {
        &self.entries[i]
    }

    /// The number of scopes, the root included.
    pub fn len(&self) -> (r: usize)
        ensures
            r == self.view_entries().len(),
    {
        self.entries.len()
    }

    /// The full name of `name` inside scope `scope`.
    pub fn full_name_of(&self, scope: usize, name: &str) -> (r: String)
        requires
            scope < self.view_entries().len(),
        ensures
            r@ == full_name(self.view_entries()[scope as int].name@, name@),
    {
        let base = self.entries[scope].name.as_str();
        if base.is_empty() {
            name.to_owned()
        } else {
            let mut cs = chars_of(base);
            cs.push('.');
            let ns = chars_of(name);
            push_all(&mut cs, &ns);
            string_of(&cs)
        }
    }

    /// The sub-scope of `parent` called `name`, if there is one.
    pub fn scope(&self, parent: usize, name: &str) -> (r: Option<usize>)
        requires
            parent < self.view_entries().len(),
        ensures
            match r {
                Some(c) => child_named(self.view_entries(), parent, c as int, full_name(self.view_entries()[parent as int].name@, name@)),
                None => forall|c: int| !child_named(self.view_entries(), parent, c, full_name(self.view_entries()[parent as int].name@, name@)),
            },
    {
        let full = self.full_name_of(parent, name);
        let mut k: usize = 0;
        while k < self.entries.len()
            invariant
                k <= self.view_entries().len(),
                parent < self.view_entries().len(),
                full@ == full_name(self.view_entries()[parent as int].name@, name@),
                forall|c: int| 0 <= c < k ==> !child_named(self.view_entries(), parent, c, full@),
            decreases self.view_entries().len() - k,
        {
            let e = &self.entries[k];
            let same_parent = match e.parent {
                Some(p) => p == parent,
                None => false,
            };
            if same_parent && e.name == full {
                return Some(k);
            }
            k = k + 1;
        }
        None
    }

    /// The sub-scopes of `parent`.
    pub fn scopes(&self, parent: usize) -> (r: Vec<usize>)
        ensures
            forall|c: usize| #[trigger] r@.contains(c) <==> c < self.view_entries().len() && self.view_entries()[c as int].parent == Some(parent),
    {
        let mut out: Vec<usize> = Vec::new();
        let mut k: usize = 0;
        while k < self.entries.len()
            invariant
                k <= self.view_entries().len(),
                forall|c: usize| #[trigger] out@.contains(c) <==> c < k && self.view_entries()[c as int].parent == Some(parent),
            decreases self.view_entries().len() - k,
        {
            let is_child = match self.entries[k].parent {
                Some(p) => p == parent,
                None => false,
            };
            let ghost before = out@;
            if is_child {
                out.push(k);
            }
            proof {
                crate::seqs::lemma_push(before, k);
            }
            k = k + 1;
        }
        out
    }

    /// Makes a sub-scope of `parent`; refused if `parent` has one of that name.
    pub fn new_scope(&mut self, parent: usize, name: &str, description: &str) -> (r: Result<usize, ScopeError>)
        requires
            old(self).wf(),
        ensures
            final(self).wf(),
            parent >= old(self).view_entries().len() ==> r == Err::<usize, ScopeError>(ScopeError::NoSuchScope)
                && final(self).view_entries() == old(self).view_entries(),
            parent < old(self).view_entries().len() ==> {
                let full = full_name(old(self).view_entries()[parent as int].name@, name@);
                if exists|c: int| child_named(old(self).view_entries(), parent, c, full) {
                    r == Err::<usize, ScopeError>(ScopeError::Exists) && final(self).view_entries() == old(self).view_entries()
                } else {
                    r == Ok::<usize, ScopeError>(old(self).view_entries().len() as usize)
                        && final(self).view_entries().len() == old(self).view_entries().len() + 1
                        && final(self).view_entries().subrange(0, old(self).view_entries().len() as int) == old(self).view_entries()
                        && final(self).view_entries().last().name@ == full
                        && final(self).view_entries().last().description@ == description@
                        && final(self).view_entries().last().parent == Some(parent)
                        && final(self).view_entries().last().goals@.len() == 0
                }
            },
    {
        if parent >= self.entries.len() {
            return Err(ScopeError::NoSuchScope);
        }
        match self.scope(parent, name) {
            Some(_) => Err(ScopeError::Exists),
            None => {
                let full = self.full_name_of(parent, name);
                let i = self.entries.len();
                let ghost prev = self.view_entries();
                self.entries.push(ScopeEntry { name: full, description: description.to_owned(), parent: Some(parent), goals: Vec::new() });
                proof {
                    assert(self.view_entries().subrange(0, prev.len() as int) =~= prev);
                    assert forall|j: int| 1 <= j < self.view_entries().len() implies ((#[trigger] self.view_entries()[j]).parent matches Some(p) && p < j) by {
                        if j < prev.len() {
                            assert(self.view_entries()[j] == prev[j]);
                        }
                    }
                }
                Ok(i)
            },
        }
    }

    /// Makes (or finds) the goal `name` of scope `scope`: a phony artifact of
    /// the full name, recorded among the scope's goals.
    pub fn new_goal(&mut self, store: &mut ArtifactStore, scope: usize, name: &str, description: &str) -> (r: Result<usize, ScopeError>)
        requires
            old(self).wf(),
            old(store).wf(),
        ensures
            final(self).wf(),
            final(store).wf(),
            scope >= old(self).view_entries().len() ==> r == Err::<usize, ScopeError>(ScopeError::NoSuchScope),
            scope < old(self).view_entries().len() ==> (r is Ok <==> match old(store).lookup(
                full_name(old(self).view_entries()[scope as int].name@, name@),
                ArtifactKind::Phony,
            ) {
                Some(i) => reusable(old(store).arts()[i as int], ArtifactType::Product),
                None => true,
            }),
            r matches Ok(g) ==> scope < final(self).view_entries().len()
                && final(store).lookup(full_name(old(self).view_entries()[scope as int].name@, name@), ArtifactKind::Phony) == Some(g)
                && final(self).view_entries()[scope as int].goals@.contains(g),
            final(self).view_entries().len() == old(self).view_entries().len(),
    {
        if scope >= self.entries.len() {
            return Err(ScopeError::NoSuchScope);
        }
        let full = self.full_name_of(scope, name);
        match store.intern(full.as_str(), ArtifactKind::Phony, ArtifactType::Product, description) {
            Ok(g) => {
                let present = has(&self.entries[scope].goals, g);
                if !present {
                    let ghost prev = self.view_entries();
                    self.entries[scope].goals.push(g);
                    proof {
                        assert(self.view_entries()[scope as int].goals@.last() == g);
                        assert forall|j: int| 1 <= j < self.view_entries().len() implies ((#[trigger] self.view_entries()[j]).parent matches Some(p) && p < j) by {
                            assert(self.view_entries()[j].parent == prev[j].parent);
                        }
                    }
                }
                Ok(g)
            },
            Err(e) => Err(ScopeError::Store(e)),
        }
    }

    /// The goals of scope `scope`.
    pub fn goals(&self, scope: usize) -> (r: &Vec<usize>)
        requires
            scope < self.view_entries().len(),
        ensures
            *r == self.view_entries()[scope as int].goals,
    {
        &self.entries[scope].goals
    }

    /// Back to the root scope alone, and an empty store.
    pub fn reset(&mut self, store: &mut ArtifactStore)
        ensures
            final(self).wf(),
            final(self).view_entries().len() == 1,
            final(self).view_entries()[0].name@.len() == 0,
            final(self).view_entries()[0].parent is None,
            final(self).view_entries()[0].goals@.len() == 0,
            final(store).wf(),
            final(store).arts().len() == 0,
            final(store).rule_seq().len() == 0,
    {
        *self = Scopes::new();
        *store = ArtifactStore::new();
    }
}

} // verus!
