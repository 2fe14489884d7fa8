//! The target registry.
//!
//! The authoritative, mutable mapping from target name to target
//! specification.  Names are unique, nonempty and free of `:` so they can
//! stand as namespace prefixes; the order of entries is the snapshot order
//! that fan-out operations follow.

use vstd::prelude::*;
use crate::naming::valid_target_name;

verus! {

/// How an upstream target is reached: an HTTP SSE endpoint, or a child
/// process whose standard I/O carries the protocol.
#[derive(Debug)]
pub enum TargetSpec {
    Sse { host: String, port: u16 },
    Stdio { cmd: String, args: Vec<String> },
}

/// A named upstream target.
#[derive(Debug)]
pub struct Target {
    pub name: String,
    pub transport: TargetSpec,
}

/// The registry: a list of targets whose names are unique.
#[derive(Debug)]
pub struct TargetRegistry {
    entries: Vec<Target>,
}

impl TargetRegistry {
    /// The registered targets, in snapshot order.
    pub closed spec fn targets(self) -> Seq<Target> {
        self.entries@
    }

    /// Well-formedness: names are unique and valid as namespace prefixes.
    pub open spec fn wf(self) -> bool {
        &&& forall|i: int, j: int|
            0 <= i < self.targets().len() && 0 <= j < self.targets().len() && i != j
                ==> self.targets()[i].name@ != self.targets()[j].name@
        &&& forall|i: int|
            0 <= i < self.targets().len() ==> valid_target_name(#[trigger] self.targets()[i].name@)
    }

    /// Is some target registered under `name`?
    pub open spec fn contains_name(self, name: Seq<char>) -> bool {
        exists|i: int| 0 <= i < self.targets().len() && self.targets()[i].name@ == name
    }

    /// The index of the target registered under `name` (meaningful only when
    /// one exists; unique under `wf`).
    pub open spec fn index_of(self, name: Seq<char>) -> int {
        choose|i: int| 0 <= i < self.targets().len() && self.targets()[i].name@ == name
    }

    /// The target registered under `name`, if any.
    pub open spec fn lookup(self, name: Seq<char>) -> Option<Target> {
        if self.contains_name(name) {
            Some(self.targets()[self.index_of(name)])
        } else {
            None
        }
    }

    /// Under `wf`, an entry's index is the index `lookup` speaks of.
    pub proof fn lemma_index_of_unique(self, name: Seq<char>, i: int)
        requires
            self.wf(),
            0 <= i < self.targets().len(),
            self.targets()[i].name@ == name,
        ensures
            self.contains_name(name),
            self.index_of(name) == i,
            self.lookup(name) == Some(self.targets()[i]),
    {
        assert(self.contains_name(name));
        let j = self.index_of(name);
        if j != i {
            assert(self.targets()[i].name@ != self.targets()[j].name@);
        }
    }

    /// An empty registry.
    pub fn new() -> (r: TargetRegistry)
        ensures
            r.wf(),
            r.targets().len() == 0,
    {
        TargetRegistry { entries: Vec::new() }
    }

    /// The registered targets, borrowed in snapshot order.
    pub fn snapshot(&self) -> (r: &Vec<Target>)
        ensures
            r@ == self.targets(),
    {
        &self.entries
    }

    /// How many targets are registered.
    pub fn count(&self) -> (r: usize)
        ensures
            r == self.targets().len(),
    {
        self.entries.len()
    }

    /// The target registered under `name`, if any.
    pub fn get(&self, name: &str) -> (r: Option<&Target>)
        requires
            self.wf(),
        ensures
            match r {
                Some(t) => self.lookup(name@) == Some(*t),
                None => self.lookup(name@) is None,
            },
    {
        match find_target(&self.entries, name) {
            Some(i) => {
                proof {
                    self.lemma_index_of_unique(name@, i as int);
                }
                Some(&self.entries[i])
            },
            None => {
                proof {
                    if self.contains_name(name@) {
                        let w = choose|k: int|
                            0 <= k < self.targets().len() && self.targets()[k].name@ == name@;
                        assert(self.targets()[w].name@ != name@);
                    }
                }
                None
            },
        }
    }

    /// Add a target, or replace the one already registered under its name.
    /// Replacement keeps the entry's place in the snapshot order; a new name
    /// is appended at the end.
    pub fn upsert(&mut self, t: Target)
        requires
            old(self).wf(),
            valid_target_name(t.name@),
        ensures
            final(self).wf(),
            old(self).contains_name(t.name@) ==> final(self).targets() == old(
                self,
            ).targets().update(old(self).index_of(t.name@), t),
            !old(self).contains_name(t.name@) ==> final(self).targets() == old(
                self,
            ).targets().push(t),
            final(self).lookup(t.name@) == Some(t),
    {
        let found = find_target(&self.entries, t.name.as_str());
        match found {
            Some(i) => {
                proof {
                    old(self).lemma_index_of_unique(t.name@, i as int);
                }
                let ghost tn = t.name@;
                self.entries.set(i, t);
                proof {
                    assert forall|a: int, b: int|
                        0 <= a < self.targets().len() && 0 <= b < self.targets().len() && a
                            != b implies self.targets()[a].name@ != self.targets()[b].name@ by {
                        assert(old(self).targets()[a].name@ != old(self).targets()[b].name@);
                    }
                    self.lemma_index_of_unique(tn, i as int);
                }
            },
            None => {
                let ghost tn = t.name@;
                let ghost oldlen = self.entries@.len() as int;
                self.entries.push(t);
                proof {
                    assert forall|a: int, b: int|
                        0 <= a < self.targets().len() && 0 <= b < self.targets().len() && a
                            != b implies self.targets()[a].name@ != self.targets()[b].name@ by {
                        if a < oldlen && b < oldlen {
                            assert(old(self).targets()[a].name@ != old(self).targets()[b].name@);
                        }
                    }
                    self.lemma_index_of_unique(tn, oldlen);
                }
            },
        }
    }

    /// Remove the target registered under `name`, if any; later entries move
    /// up, keeping their relative order.
    pub fn remove(&mut self, name: &str)
        requires
            old(self).wf(),
        ensures
            final(self).wf(),
            old(self).contains_name(name@) ==> final(self).targets() == old(
                self,
            ).targets().remove(old(self).index_of(name@)),
            !old(self).contains_name(name@) ==> final(self).targets() == old(self).targets(),
            final(self).lookup(name@) is None,
    {
        let found = find_target(&self.entries, name);
        match found {
            Some(i) => {
                proof {
                    old(self).lemma_index_of_unique(name@, i as int);
                }
                self.entries.remove(i);
                proof {
                    assert forall|a: int, b: int|
                        0 <= a < self.targets().len() && 0 <= b < self.targets().len() && a
                            != b implies self.targets()[a].name@ != self.targets()[b].name@ by {
                        let oa: int = if a < i { a } else { a + 1 };
                        let ob: int = if b < i { b } else { b + 1 };
                        assert(self.targets()[a] == old(self).targets()[oa]);
                        assert(self.targets()[b] == old(self).targets()[ob]);
                        assert(old(self).targets()[oa].name@ != old(self).targets()[ob].name@);
                    }
                    if self.contains_name(name@) {
                        let w = choose|k: int|
                            0 <= k < self.targets().len() && self.targets()[k].name@ == name@;
                        let ow: int = if w < i { w } else { w + 1 };
                        assert(self.targets()[w] == old(self).targets()[ow]);
                        assert(old(self).targets()[ow].name@ != old(self).targets()[i as int].name@);
                    }
                }
            },
            None => {
                proof {
                    if self.contains_name(name@) {
                        let w = choose|k: int|
                            0 <= k < self.targets().len() && self.targets()[k].name@ == name@;
                        assert(self.targets()[w].name@ != name@);
                    }
                }
            },
        }
    }
}

/// Index of the entry named `name`, scanning in order.
fn find_target(entries: &Vec<Target>, name: &str) -> (r: Option<usize>)
    ensures
        match r {
            Some(i) => i < entries@.len() && entries@[i as int].name@ == name@,
            None => forall|j: int| 0 <= j < entries@.len() ==> entries@[j].name@ != name@,
        },
{
    let n: usize = entries.len();
    let mut i: usize = 0;
    loop
        invariant
            0 <= i <= n,
            n == entries@.len(),
            forall|j: int| 0 <= j < i ==> entries@[j].name@ != name@,
        decreases n - i,
    {
        if i == n {
            return None;
        }
        if crate::naming::str_eq(entries[i].name.as_str(), name) {
            return Some(i);
        }
        i = i + 1;
    }
}

} // verus!
