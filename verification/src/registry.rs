//! The process-wide catalog of rule definitions: filled once at startup,
//! looked up by kind name for the rest of the run.

use crate::definition::Definition;
use vstd::prelude::*;

verus! {

/// Whether some definition in the sequence carries the name.
pub open spec fn has_def(s: Seq<Definition>, name: Seq<char>) -> bool {
    exists|i: int| 0 <= i < s.len() && (#[trigger] s[i].name@) == name
}

/// An explicit, immutable-after-startup registry of definitions, keyed by
/// their kind names.
pub struct Registry {
    pub defs: Vec<Definition>,
}

impl Registry {
    /// No two definitions share a kind name.
    pub open spec fn wf(self) -> bool {
        forall|i: int, j: int|
            0 <= i < j < self.defs@.len() ==> (#[trigger] self.defs@[i].name@) != (
            #[trigger] self.defs@[j].name@)
    }

    /// The empty registry.
    pub fn new() -> (r: Registry)
        ensures
            r.defs@.len() == 0,
            r.wf(),
    {
        Registry { defs: Vec::new() }
    }

    /// How many definitions are registered.
    pub fn len(&self) -> (r: usize)
        ensures
            r == self.defs@.len(),
    {
        self.defs.len()
    }

    /// Register a definition.  A second definition under an already
    /// registered kind name is refused and changes nothing.
    pub fn insert(&mut self, def: Definition) -> (r: bool)
        ensures
            r == !has_def(old(self).defs@, def.name@),
            r ==> final(self).defs@ == old(self).defs@.push(def),
            !r ==> final(self).defs@ == old(self).defs@,
            old(self).wf() ==> final(self).wf(),
    {
        let n = self.defs.len();
        let mut i: usize = 0;
        while i < n
            invariant
                n == self.defs@.len(),
                i <= n,
                forall|j: int| 0 <= j < i ==> (#[trigger] self.defs@[j].name@) != def.name@,
            decreases n - i,
        {
            if crate::attrs::str_eq(self.defs[i].name.as_str(), def.name.as_str()) {
                proof {
                    assert(has_def(self.defs@, def.name@));
                }
                return false;
            }
            i += 1;
        }
        let ghost before = self.defs@;
        self.defs.push(def);
        proof {
            assert(!has_def(before, def.name@));
            if old(self).wf() {
                assert forall|a: int, b: int| 0 <= a < b < self.defs@.len() implies (
                #[trigger] self.defs@[a].name@) != (#[trigger] self.defs@[b].name@) by {
                    if b == before.len() {
                        assert(self.defs@[a] == before[a]);
                    } else {
                        assert(self.defs@[a] == before[a]);
                        assert(self.defs@[b] == before[b]);
                    }
                }
            }
        }
        true
    }

    /// The definition registered under the kind name, if any.
    pub fn lookup(&self, kind: &str) -> (r: Option<&Definition>)
        ensures
            r is Some <==> has_def(self.defs@, kind@),
            r matches Some(d) ==> d.name@ == kind@ && (exists|i: int|
                0 <= i < self.defs@.len() && (#[trigger] self.defs@[i]) == *d),
    {
        let n = self.defs.len();
        let mut i: usize = 0;
        while i < n
            invariant
                n == self.defs@.len(),
                i <= n,
                forall|j: int| 0 <= j < i ==> (#[trigger] self.defs@[j].name@) != kind@,
            decreases n - i,
        {
            if crate::attrs::str_eq(self.defs[i].name.as_str(), kind) {
                proof {
                    assert((self.defs@[i as int].name@) == kind@);
                }
                return Some(&self.defs[i]);
            }
            i += 1;
        }
        None
    }
}

} // verus!
