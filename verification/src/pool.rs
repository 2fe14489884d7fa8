//! The connection pool.
//!
//! The pool lazily binds one live upstream connection to each target name.
//! Dialing itself is I/O and happens outside; the pool decides, per
//! request, whether a pooled handle answers, a dial is needed, or the target
//! is unknown, and it records the outcome of each completed dial.  Handles
//! are opaque numbers chosen by the caller that owns the real connections.

use vstd::prelude::*;
use crate::naming::str_eq;
use crate::numfmt::dec_digits;
use crate::numfmt::u16_to_dec;
use crate::registry::TargetRegistry;

verus! {

/// What a `get` for a name must do next.
#[derive(Clone, Copy, Debug, PartialEq, Eq, Structural)]
pub enum GetPlan {
    /// A connection is pooled; use this handle, dial nothing.
    Existing(u64),
    /// No connection yet, but the target is registered: dial it, then record
    /// the new handle with `complete_dial`.
    Dial,
    /// The name is in neither the pool nor the registry: fail the request.
    Unknown,
}

/// The pool: at most one connection handle per target name.
#[derive(Debug)]
pub struct ConnectionPool {
    entries: Vec<(String, u64)>,
}

/// The plan a well-formed pool makes for `name`: a pooled handle wins; an
/// absent name is dialed exactly when the registry knows it.
pub open spec fn plan_of(pool: ConnectionPool, reg: TargetRegistry, name: Seq<char>) -> GetPlan {
    match pool.lookup(name) {
        Some(h) => GetPlan::Existing(h),
        None => if reg.contains_name(name) {
            GetPlan::Dial
        } else {
            GetPlan::Unknown
        },
    }
}

impl ConnectionPool {
    /// The pooled connections, in the order they were completed.
    pub closed spec fn connections(self) -> Seq<(String, u64)> {
        self.entries@
    }

    /// Well-formedness: at most one connection per name.
    pub open spec fn wf(self) -> bool {
        forall|i: int, j: int|
            0 <= i < self.connections().len() && 0 <= j < self.connections().len() && i != j
                ==> self.connections()[i].0@ != self.connections()[j].0@
    }

    /// Is a connection pooled under `name`?
    pub open spec fn contains_name(self, name: Seq<char>) -> bool {
        exists|i: int| 0 <= i < self.connections().len() && self.connections()[i].0@ == name
    }

    /// The index of the connection pooled under `name` (meaningful only when
    /// one exists; unique under `wf`).
    pub open spec fn index_of(self, name: Seq<char>) -> int {
        choose|i: int| 0 <= i < self.connections().len() && self.connections()[i].0@ == name
    }

    /// The handle pooled under `name`, if any.
    pub open spec fn lookup(self, name: Seq<char>) -> Option<u64> {
        if self.contains_name(name) {
            Some(self.connections()[self.index_of(name)].1)
        } else {
            None
        }
    }

    /// Under `wf`, an entry's index is the index `lookup` speaks of.
    pub proof fn lemma_index_of_unique(self, name: Seq<char>, i: int)
        requires
            self.wf(),
            0 <= i < self.connections().len(),
            self.connections()[i].0@ == name,
        ensures
            self.contains_name(name),
            self.index_of(name) == i,
            self.lookup(name) == Some(self.connections()[i].1),
    {
        assert(self.contains_name(name));
        let j = self.index_of(name);
        if j != i {
            assert(self.connections()[i].0@ != self.connections()[j].0@);
        }
    }

    /// An empty pool.
    pub fn new() -> (r: ConnectionPool)
        ensures
            r.wf(),
            r.connections().len() == 0,
    {
        ConnectionPool { entries: Vec::new() }
    }

    /// The pooled handle for `name`, if any.
    pub fn get_existing(&self, name: &str) -> (r: Option<u64>)
        requires
            self.wf(),
        ensures
            r == self.lookup(name@),
    {
        match find_conn(&self.entries, name) {
            Some(i) => {
                proof {
                    self.lemma_index_of_unique(name@, i as int);
                }
                Some(self.entries[i].1)
            },
            None => {
                proof {
                    if self.contains_name(name@) {
                        let w = choose|k: int|
                            0 <= k < self.connections().len() && self.connections()[k].0@
                                == name@;
                        assert(self.connections()[w].0@ != name@);
                    }
                }
                None
            },
        }
    }

    /// Decide what a `get` for `name` must do, against the current registry.
    /// A pooled connection is reused as it stands; only an absent, registered
    /// name calls for a dial; an unregistered, unpooled name fails.
    pub fn plan_get(&self, reg: &TargetRegistry, name: &str) -> (r: GetPlan)
        requires
            self.wf(),
            reg.wf(),
        ensures
            r == plan_of(*self, *reg, name@),
    {
        match self.get_existing(name) {
            Some(h) => GetPlan::Existing(h),
            None => {
                match reg.get(name) {
                    Some(_) => GetPlan::Dial,
                    None => {
                        proof {
                            if reg.contains_name(name@) {
                                reg.lemma_index_of_unique(name@, reg.index_of(name@));
                            }
                        }
                        GetPlan::Unknown
                    },
                }
            },
        }
    }

    /// Plan a fan-out over every registered target, in snapshot order: one
    /// entry per target, each with what a `get` for it must do.  Fan-out
    /// creates any missing connection, reuses every pooled one, and follows
    /// the snapshot's iteration order.
    pub fn plan_snapshot(&self, reg: &TargetRegistry) -> (r: Vec<(String, GetPlan)>)
        requires
            self.wf(),
            reg.wf(),
        ensures
            r@.len() == reg.targets().len(),
            forall|i: int|
                0 <= i < r@.len() ==> (#[trigger] r@[i]).0@ == reg.targets()[i].name@ && r@[i].1
                    == plan_of(*self, *reg, reg.targets()[i].name@),
    {
        let targets = reg.snapshot();
        let n: usize = targets.len();
        let mut r: Vec<(String, GetPlan)> = Vec::new();
        let mut i: usize = 0;
        while i != n
            invariant
                0 <= i <= n,
                n == reg.targets().len(),
                targets@ == reg.targets(),
                self.wf(),
                reg.wf(),
                r@.len() == i,
                forall|k: int|
                    0 <= k < i ==> (#[trigger] r@[k]).0@ == reg.targets()[k].name@ && r@[k].1
                        == plan_of(*self, *reg, reg.targets()[k].name@),
            decreases n - i,
        {
            let name = targets[i].name.clone();
            let plan = self.plan_get(reg, name.as_str());
            r.push((name, plan));
            i = i + 1;
        }
        r
    }

    /// Record a completed dial: pool `handle` under `name`.  Only one
    /// connection may ever be pooled per name, so the name must be absent.
    pub fn complete_dial(&mut self, name: &str, handle: u64)
        requires
            old(self).wf(),
            old(self).lookup(name@) is None,
        ensures
            final(self).wf(),
            final(self).connections().len() == old(self).connections().len() + 1,
            final(self).connections().drop_last() == old(self).connections(),
            final(self).connections().last().0@ == name@,
            final(self).connections().last().1 == handle,
            final(self).lookup(name@) == Some(handle),
    {
        proof {
            if old(self).contains_name(name@) {
                old(self).lemma_index_of_unique(name@, old(self).index_of(name@));
            }
        }
        let ghost oldlen = self.entries@.len() as int;
        let owned = name.to_owned();
        self.entries.push((owned, handle));
        proof {
            assert forall|a: int, b: int|
                0 <= a < self.connections().len() && 0 <= b < self.connections().len() && a
                    != b implies self.connections()[a].0@ != self.connections()[b].0@ by {
                if a < oldlen && b < oldlen {
                    assert(old(self).connections()[a].0@ != old(self).connections()[b].0@);
                } else if a == oldlen {
                    assert(!(old(self).connections()[b].0@ == name@));
                } else if b == oldlen {
                    assert(!(old(self).connections()[a].0@ == name@));
                }
            }
            self.lemma_index_of_unique(name@, oldlen);
            assert(self.connections().drop_last() =~= old(self).connections());
        }
    }

    /// Forget the connection pooled under `name`, if any: the registry no
    /// longer knows the target, so a later `get` must miss.  The caller owns
    /// the real connection and shuts it down.
    pub fn invalidate(&mut self, name: &str)
        requires
            old(self).wf(),
        ensures
            final(self).wf(),
            old(self).contains_name(name@) ==> final(self).connections() == old(
                self,
            ).connections().remove(old(self).index_of(name@)),
            !old(self).contains_name(name@) ==> final(self).connections() == old(
                self,
            ).connections(),
            final(self).lookup(name@) is None,
    {
        let found = find_conn(&self.entries, name);
        match found {
            Some(i) => {
                proof {
                    old(self).lemma_index_of_unique(name@, i as int);
                }
                self.entries.remove(i);
                proof {
                    assert forall|a: int, b: int|
                        0 <= a < self.connections().len() && 0 <= b < self.connections().len() && a
                            != b implies self.connections()[a].0@ != self.connections()[b].0@ by {
                        let oa: int = if a < i { a } else { a + 1 };
                        let ob: int = if b < i { b } else { b + 1 };
                        assert(self.connections()[a] == old(self).connections()[oa]);
                        assert(self.connections()[b] == old(self).connections()[ob]);
                        assert(old(self).connections()[oa].0@ != old(self).connections()[ob].0@);
                    }
                    if self.contains_name(name@) {
                        let w = choose|k: int|
                            0 <= k < self.connections().len() && self.connections()[k].0@
                                == name@;
                        let ow: int = if w < i { w } else { w + 1 };
                        assert(self.connections()[w] == old(self).connections()[ow]);
                        assert(old(self).connections()[ow].0@ != old(self).connections()[
                            i as int].0@);
                    }
                }
            },
            None => {
                proof {
                    if self.contains_name(name@) {
                        let w = choose|k: int|
                            0 <= k < self.connections().len() && self.connections()[k].0@
                                == name@;
                        assert(self.connections()[w].0@ != name@);
                    }
                }
            },
        }
    }
}

/// At most one dial per name: once a dial for `name` has completed with
/// handle `h`, every later `get` for `name` is answered by that same pooled
/// handle, and no further dial is planned, whatever the registry then holds.
pub proof fn lemma_at_most_one_dial(pool: ConnectionPool, name: Seq<char>, h: u64)
    requires
        pool.wf(),
        pool.lookup(name) == Some(h),
    ensures
        forall|reg: TargetRegistry| plan_of(pool, reg, name) == GetPlan::Existing(h),
{
}

/// Index of the connection entry named `name`, scanning in order.
fn find_conn(entries: &Vec<(String, u64)>, name: &str) -> (r: Option<usize>)
    ensures
        match r {
            Some(i) => i < entries@.len() && entries@[i as int].0@ == name@,
            None => forall|j: int| 0 <= j < entries@.len() ==> entries@[j].0@ != name@,
        },
{
    let n: usize = entries.len();
    let mut i: usize = 0;
    loop
        invariant
            0 <= i <= n,
            n == entries@.len(),
            forall|j: int| 0 <= j < i ==> entries@[j].0@ != name@,
        decreases n - i,
    {
        if i == n {
            return None;
        }
        if str_eq(entries[i].0.as_str(), name) {
            return Some(i);
        }
        i = i + 1;
    }
}

/// The URL an SSE target is dialed at: `http://host:port`.
pub open spec fn sse_url_spec(host: Seq<char>, port: u16) -> Seq<char> {
    "http://"@ + host + seq![':'] + dec_digits(port as nat)
}

/// Build the dial URL for an SSE target.
pub fn sse_url(host: &str, port: u16) -> (r: String)
    ensures
        r@ == sse_url_spec(host@, port),
{
    let mut r = "http://".to_owned();
    r.append(host);
    r.append(":");
    let p = u16_to_dec(port);
    r.append(p.as_str());
    proof {
        reveal_strlit(":");
        assert(":"@ =~= seq![':']);
        assert(r@ =~= sse_url_spec(host@, port));
    }
    r
}

} // verus!
