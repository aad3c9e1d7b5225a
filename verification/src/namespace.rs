//! The namespace: a mapping from symbol name to built-in callable, built
//! once before evaluation and never mutated afterwards. Extending it means
//! adding more name-to-callable entries; nothing else registers callables.

use vstd::prelude::*;
use crate::value::str_eq;

verus! {

/// A built-in callable.
#[derive(Clone, Copy, Debug, PartialEq, Eq, Structural)]
pub enum Builtin {
    Println,
    Conj,
}

/// The namespace, viewed as its ordered name-to-callable entries.
#[derive(Debug)]
pub struct Namespace {
    entries: Vec<(String, Builtin)>,
}

impl View for Namespace {
    type V = Seq<(Seq<char>, Builtin)>;

    closed spec fn view(&self) -> Seq<(Seq<char>, Builtin)> {
        self.entries@.map_values(|p: (String, Builtin)| (p.0@, p.1))
    }
}

/// The first entry with the given name, if any.
pub open spec fn spec_lookup(ns: Seq<(Seq<char>, Builtin)>, name: Seq<char>) -> Option<Builtin>
    decreases ns.len(),
{
    if ns.len() == 0 {
        None
    } else if ns[0].0 == name {
        Some(ns[0].1)
    } else {
        spec_lookup(ns.drop_first(), name)
    }
}

impl Namespace {
    /// The initial namespace: the built-ins `println` and `conj`.
    pub fn new() -> (ns: Namespace)
        ensures
            ns@ == seq![("println"@, Builtin::Println), ("conj"@, Builtin::Conj)],
    {
        let mut entries: Vec<(String, Builtin)> = Vec::new();
        entries.push(("println".to_owned(), Builtin::Println));
        entries.push(("conj".to_owned(), Builtin::Conj));
        let ns = Namespace { entries };
        proof {
            assert(ns@ =~= seq![("println"@, Builtin::Println), ("conj"@, Builtin::Conj)]);
        }
        ns
    }

    /// Adds one more name-to-callable entry. Lookup takes the first match,
    /// so an already-bound name keeps its earlier callable.
    pub fn insert(&mut self, name: String, b: Builtin)
        ensures
            final(self)@ == old(self)@.push((name@, b)),
    {
        let ghost n0 = name@;
        self.entries.push((name, b));
        proof {
            assert(self@ =~= old(self)@.push((n0, b)));
        }
    }

    /// Looks a symbol name up, first entry wins.
    pub fn lookup(&self, name: &str) -> (r: Option<Builtin>)
        ensures
            r == spec_lookup(self@, name@),
    {
        let n = self.entries.len();
        let mut i: usize = 0;
        proof {
            assert(self@.skip(0) =~= self@);
        }
        while i < n
            invariant
                0 <= i <= n,
                n == self.entries@.len(),
                self@.len() == n,
                spec_lookup(self@, name@) == spec_lookup(self@.skip(i as int), name@),
            decreases n - i,
        {
            proof {
                assert(self@[i as int] == (self.entries@[i as int].0@, self.entries@[i as int].1));
                assert(self@.skip(i as int)[0] == self@[i as int]);
            }
            if str_eq(self.entries[i].0.as_str(), name) {
                return Some(self.entries[i].1);
            }
            proof {
                assert(self@.skip(i as int).drop_first() =~= self@.skip(i as int + 1));
            }
            i += 1;
        }
        proof {
            assert(self@.skip(n as int) =~= Seq::<(Seq<char>, Builtin)>::empty());
        }
        None
    }
}

} // verus!
