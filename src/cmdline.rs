//! Words of the command line that the engine reads.

use vstd::prelude::*;
use crate::scan::{find_char, find_from, lemma_find_from};
use crate::text::{chars_of, string_of};

verus! {

/// What to print about the build.
#[derive(Debug, Clone, Copy, PartialEq, Eq, Structural)]
pub enum Print {
    Goals,
    Graph,
}

impl Print {
    /// `graph`, `graphviz` and `dot` ask for the graph; anything else for the goals.
    pub fn from_word(w: &str) -> (r: Print)
        ensures
            r == (if w@ == "graph"@ || w@ == "graphviz"@ || w@ == "dot"@ {
                Print::Graph
            } else {
                Print::Goals
            }),
    {
        let cs = chars_of(w);
        if same(&cs, "graph") || same(&cs, "graphviz") || same(&cs, "dot") {
            Print::Graph
        } else {
            Print::Goals
        }
    }
}

fn same(w: &Vec<char>, p: &str) -> (r: bool)
    ensures
        r == (w@ == p@),
{
    let pv = chars_of(p);
    if w.len() != pv.len() {
        return false;
    }
    let r = crate::text::matches_at(w, 0, &pv);
    proof {
        assert(w@ =~= w@.subrange(0, pv@.len() as int));
    }
    r
}

/// A goal to build, or a variable to set.
#[derive(Debug, Clone, PartialEq, Eq)]
pub enum Input {
    /// `KEY=VALUE`.
    Pair(String, String),
    /// A goal name.
    Name(String),
}

impl Input {
    /// `KEY=VALUE` at the first `=`, or else a goal name.
    pub fn parse(s: &str) -> (r: Input)
        ensures
            ({
                let e = find_from(s@, '=', 0);
                if e < s@.len() {
                    r matches Input::Pair(k, v) && k@ == s@.subrange(0, e) && v@ == s@.subrange(e + 1, s@.len() as int)
                } else {
                    r matches Input::Name(n) && n@ == s@
                }
            }),
    {
        let cs = chars_of(s);
        proof {
            lemma_find_from(cs@, '=', 0);
        }
        let e = find_char(&cs, '=', 0);
        if e < cs.len() {
            let mut key: Vec<char> = Vec::new();
            let mut k: usize = 0;
            while k < e
                invariant
                    k <= e < cs@.len(),
                    key@ == cs@.subrange(0, k as int),
                decreases e - k,
            {
                key.push(cs[k]);
                k = k + 1;
                proof {
                    assert(key@ =~= cs@.subrange(0, k as int));
                }
            }
            let mut val: Vec<char> = Vec::new();
            let mut k: usize = e + 1;
            while k < cs.len()
                invariant
                    e + 1 <= k <= cs@.len(),
                    val@ == cs@.subrange(e + 1, k as int),
                decreases cs@.len() - k,
            {
                val.push(cs[k]);
                k = k + 1;
                proof {
                    assert(val@ =~= cs@.subrange(e + 1, k as int));
                }
            }
            Input::Pair(string_of(&key), string_of(&val))
        } else {
            Input::Name(string_of(&cs))
        }
    }

    /// The goal name, if this is one.
    pub fn to_name(&self) -> (r: Option<String>)
        ensures
            match self {
                Input::Name(n) => r matches Some(m) && m@ == n@,
                Input::Pair(..) => r is None,
            },
    {
        match self {
            Input::Name(n) => Some(n.clone()),
            Input::Pair(..) => None,
        }
    }

    /// The key and the value, if this is a pair.
    pub fn to_pair(&self) -> (r: Option<(String, String)>)
        ensures
            match self {
                Input::Pair(k, v) => r matches Some(p) && p.0@ == k@ && p.1@ == v@,
                Input::Name(..) => r is None,
            },
    {
        match self {
            Input::Pair(k, v) => Some((k.clone(), v.clone())),
            Input::Name(..) => None,
        }
    }
}

} // verus!
