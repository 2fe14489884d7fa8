//! The SSE session bridge's state.
//!
//! Each downstream client connection owns one session: a random 128-bit
//! identifier, the identity derived at connect time, and a bounded inbound
//! queue of client frames.  A client POST is routed by session id: it is
//! accepted, refused as unknown, refused as gone once the session has
//! terminated, or made to wait while the queue is full.  The streams and the
//! worker task live outside; the table here decides every outcome.

use vstd::prelude::*;
use crate::naming::str_eq;
use crate::numfmt::is_hex_char;
use crate::numfmt::lemma_hex_digits_shape;
use crate::numfmt::u128_to_hex32;
use crate::rbac::Identity;

verus! {

/// Capacity of each session's bounded queues.
pub const QUEUE_CAPACITY: usize = 64;

/// The query parameters of a client POST: which session the frame is for.
#[derive(Debug)]
pub struct PostEventQuery {
    pub session_id: String,
}

/// The shape of a session identifier: 32 lowercase hexadecimal characters,
/// the rendering of a 128-bit random value.
pub open spec fn valid_session_id(id: Seq<char>) -> bool {
    id.len() == 32 && forall|i: int| 0 <= i < id.len() ==> is_hex_char(#[trigger] id[i])
}

/// One session: its identifier, the identity bound at connect time, whether
/// it still accepts frames, and how many inbound frames are queued.
#[derive(Debug)]
pub struct SessionEntry {
    pub id: String,
    pub who: Identity,
    pub live: bool,
    pub inbound_len: usize,
}

/// What becomes of a client POST.
#[derive(Clone, Copy, Debug, PartialEq, Eq, Structural)]
pub enum PostOutcome {
    /// The frame was queued.
    Accepted,
    /// No session bears this id.
    NotFound,
    /// The session has terminated; its queue is closed.
    Gone,
    /// The queue is full: the POST waits for room, no frame is dropped.
    Full,
}

/// The HTTP status a settled POST outcome answers with; a full queue
/// settles nothing yet — the POST blocks.
pub fn post_status(o: PostOutcome) -> (r: Option<u16>)
    ensures
        o == PostOutcome::Accepted ==> r == Some(202u16),
        o == PostOutcome::NotFound ==> r == Some(404u16),
        o == PostOutcome::Gone ==> r == Some(410u16),
        o == PostOutcome::Full ==> r is None,
{
    match o {
        PostOutcome::Accepted => Some(202),
        PostOutcome::NotFound => Some(404),
        PostOutcome::Gone => Some(410),
        PostOutcome::Full => None,
    }
}

/// The bridge's session table.
#[derive(Debug)]
pub struct SessionTable {
    entries: Vec<SessionEntry>,
}

/// What a POST for session `id` must be answered, against the current table.
pub open spec fn post_outcome_of(table: SessionTable, id: Seq<char>) -> PostOutcome {
    match table.lookup(id) {
        None => PostOutcome::NotFound,
        Some(e) => if !e.live {
            PostOutcome::Gone
        } else if e.inbound_len >= QUEUE_CAPACITY {
            PostOutcome::Full
        } else {
            PostOutcome::Accepted
        },
    }
}

impl SessionTable {
    /// The sessions, in creation order.
    pub closed spec fn sessions(self) -> Seq<SessionEntry> {
        self.entries@
    }

    /// Well-formedness: ids are unique (a fresh duplicate is rejected as a
    /// collision), of valid shape, and no queue exceeds its bound.
    pub open spec fn wf(self) -> bool {
        &&& forall|i: int, j: int|
            0 <= i < self.sessions().len() && 0 <= j < self.sessions().len() && i != j
                ==> self.sessions()[i].id@ != self.sessions()[j].id@
        &&& forall|i: int|
            0 <= i < self.sessions().len() ==> valid_session_id(#[trigger] self.sessions()[i].id@)
        &&& forall|i: int|
            0 <= i < self.sessions().len() ==> (#[trigger] self.sessions()[i].inbound_len)
                <= QUEUE_CAPACITY
    }

    /// Does a session bear `id`?
    pub open spec fn contains_id(self, id: Seq<char>) -> bool {
        exists|i: int| 0 <= i < self.sessions().len() && self.sessions()[i].id@ == id
    }

    /// The index of the session bearing `id` (meaningful only when one
    /// exists; unique under `wf`).
    pub open spec fn index_of(self, id: Seq<char>) -> int {
        choose|i: int| 0 <= i < self.sessions().len() && self.sessions()[i].id@ == id
    }

    /// The session bearing `id`, if any.
    pub open spec fn lookup(self, id: Seq<char>) -> Option<SessionEntry> {
        if self.contains_id(id) {
            Some(self.sessions()[self.index_of(id)])
        } else {
            None
        }
    }

    /// Under `wf`, an entry's index is the index `lookup` speaks of.
    pub proof fn lemma_index_of_unique(self, id: Seq<char>, i: int)
        requires
            self.wf(),
            0 <= i < self.sessions().len(),
            self.sessions()[i].id@ == id,
        ensures
            self.contains_id(id),
            self.index_of(id) == i,
            self.lookup(id) == Some(self.sessions()[i]),
    {
        assert(self.contains_id(id));
        let j = self.index_of(id);
        if j != i {
            assert(self.sessions()[i].id@ != self.sessions()[j].id@);
        }
    }

    proof fn lemma_absent(self, id: Seq<char>)
        requires
            forall|j: int| 0 <= j < self.sessions().len() ==> self.sessions()[j].id@ != id,
        ensures
            !self.contains_id(id),
            self.lookup(id) is None,
    {
        if self.contains_id(id) {
            let w = choose|k: int|
                0 <= k < self.sessions().len() && self.sessions()[k].id@ == id;
            assert(self.sessions()[w].id@ != id);
        }
    }

    /// An empty table.
    pub fn new() -> (r: SessionTable)
        ensures
            r.wf(),
            r.sessions().len() == 0,
    {
        SessionTable { entries: Vec::new() }
    }

    /// The session bearing `id`, borrowed.
    pub fn get(&self, id: &str) -> (r: Option<&SessionEntry>)
        requires
            self.wf(),
        ensures
            match r {
                Some(e) => self.lookup(id@) == Some(*e),
                None => self.lookup(id@) is None,
            },
    {
        match find_session(&self.entries, id) {
            Some(i) => {
                proof {
                    self.lemma_index_of_unique(id@, i as int);
                }
                Some(&self.entries[i])
            },
            None => {
                proof {
                    self.lemma_absent(id@);
                }
                None
            },
        }
    }

    /// Register a fresh session under `id` for `who`, live, with an empty
    /// inbound queue.  A duplicate id is a collision: it is rejected and the
    /// table is unchanged.
    pub fn register(&mut self, id: String, who: Identity) -> (r: bool)
        requires
            old(self).wf(),
            valid_session_id(id@),
        ensures
            final(self).wf(),
            r == !old(self).contains_id(id@),
            !r ==> *final(self) == *old(self),
            r ==> final(self).sessions() == old(self).sessions().push(
                SessionEntry { id: id, who: who, live: true, inbound_len: 0 },
            ),
            r ==> final(self).lookup(id@) == Some(
                SessionEntry { id: id, who: who, live: true, inbound_len: 0 },
            ),
    {
        let ghost gid = id@;
        match find_session(&self.entries, id.as_str()) {
            Some(i) => {
                proof {
                    old(self).lemma_index_of_unique(gid, i as int);
                }
                false
            },
            None => {
                proof {
                    old(self).lemma_absent(gid);
                }
                let ghost oldlen = self.entries@.len() as int;
                self.entries.push(SessionEntry { id, who, live: true, inbound_len: 0 });
                proof {
                    assert forall|a: int, b: int|
                        0 <= a < self.sessions().len() && 0 <= b < self.sessions().len() && a
                            != b implies self.sessions()[a].id@ != self.sessions()[b].id@ by {
                        if a < oldlen && b < oldlen {
                            assert(old(self).sessions()[a].id@ != old(self).sessions()[b].id@);
                        } else if a == oldlen {
                            assert(old(self).sessions()[b].id@ != gid);
                        } else if b == oldlen {
                            assert(old(self).sessions()[a].id@ != gid);
                        }
                    }
                    self.lemma_index_of_unique(gid, oldlen);
                }
                true
            },
        }
    }

    /// Answer a client POST for session `id`, and queue the frame when it is
    /// accepted.  Nothing else changes; a refused or waiting POST changes
    /// nothing at all.
    pub fn post_event(&mut self, id: &str) -> (r: PostOutcome)
        requires
            old(self).wf(),
        ensures
            final(self).wf(),
            r == post_outcome_of(*old(self), id@),
            r != PostOutcome::Accepted ==> *final(self) == *old(self),
            r == PostOutcome::Accepted ==> {
                let i = old(self).index_of(id@);
                let e = old(self).sessions()[i];
                final(self).sessions() == old(self).sessions().update(
                    i,
                    SessionEntry {
                        id: e.id,
                        who: e.who,
                        live: e.live,
                        inbound_len: (e.inbound_len + 1) as usize,
                    },
                )
            },
    {
        match find_session(&self.entries, id) {
            None => {
                proof {
                    self.lemma_absent(id@);
                }
                PostOutcome::NotFound
            },
            Some(i) => {
                proof {
                    old(self).lemma_index_of_unique(id@, i as int);
                }
                if !self.entries[i].live {
                    PostOutcome::Gone
                } else if self.entries[i].inbound_len >= QUEUE_CAPACITY {
                    PostOutcome::Full
                } else {
                    let e = self.entries.remove(i);
                    let bumped = SessionEntry {
                        id: e.id,
                        who: e.who,
                        live: e.live,
                        inbound_len: e.inbound_len + 1,
                    };
                    self.entries.insert(i, bumped);
                    proof {
                        assert(self.sessions() =~= old(self).sessions().update(
                            i as int,
                            SessionEntry {
                                id: old(self).sessions()[i as int].id,
                                who: old(self).sessions()[i as int].who,
                                live: old(self).sessions()[i as int].live,
                                inbound_len: (old(self).sessions()[i as int].inbound_len
                                    + 1) as usize,
                            },
                        ));
                        assert forall|a: int, b: int|
                            0 <= a < self.sessions().len() && 0 <= b < self.sessions().len() && a
                                != b implies self.sessions()[a].id@ != self.sessions()[b].id@ by {
                            assert(old(self).sessions()[a].id@ != old(self).sessions()[b].id@);
                        }
                    }
                    PostOutcome::Accepted
                }
            },
        }
    }

    /// The relay worker takes one queued inbound frame from session `id`;
    /// `true` exactly when one was queued on a live session.
    pub fn consume_inbound(&mut self, id: &str) -> (r: bool)
        requires
            old(self).wf(),
        ensures
            final(self).wf(),
            r == (old(self).lookup(id@) matches Some(e) && e.live && e.inbound_len > 0),
            !r ==> *final(self) == *old(self),
            r ==> {
                let i = old(self).index_of(id@);
                let e = old(self).sessions()[i];
                final(self).sessions() == old(self).sessions().update(
                    i,
                    SessionEntry {
                        id: e.id,
                        who: e.who,
                        live: e.live,
                        inbound_len: (e.inbound_len - 1) as usize,
                    },
                )
            },
    {
        match find_session(&self.entries, id) {
            None => {
                proof {
                    self.lemma_absent(id@);
                }
                false
            },
            Some(i) => {
                proof {
                    old(self).lemma_index_of_unique(id@, i as int);
                }
                if !self.entries[i].live || self.entries[i].inbound_len == 0 {
                    false
                } else {
                    let e = self.entries.remove(i);
                    let taken = SessionEntry {
                        id: e.id,
                        who: e.who,
                        live: e.live,
                        inbound_len: e.inbound_len - 1,
                    };
                    self.entries.insert(i, taken);
                    proof {
                        assert(self.sessions() =~= old(self).sessions().update(
                            i as int,
                            SessionEntry {
                                id: old(self).sessions()[i as int].id,
                                who: old(self).sessions()[i as int].who,
                                live: old(self).sessions()[i as int].live,
                                inbound_len: (old(self).sessions()[i as int].inbound_len
                                    - 1) as usize,
                            },
                        ));
                        assert forall|a: int, b: int|
                            0 <= a < self.sessions().len() && 0 <= b < self.sessions().len() && a
                                != b implies self.sessions()[a].id@ != self.sessions()[b].id@ by {
                            assert(old(self).sessions()[a].id@ != old(self).sessions()[b].id@);
                        }
                    }
                    true
                }
            },
        }
    }

    /// Terminate session `id`: the client disconnected or the worker exited.
    /// The entry stays, closed, so that later POSTs are answered `Gone`.
    pub fn close(&mut self, id: &str)
        requires
            old(self).wf(),
        ensures
            final(self).wf(),
            !old(self).contains_id(id@) ==> *final(self) == *old(self),
            old(self).contains_id(id@) ==> {
                let i = old(self).index_of(id@);
                let e = old(self).sessions()[i];
                final(self).sessions() == old(self).sessions().update(
                    i,
                    SessionEntry { id: e.id, who: e.who, live: false, inbound_len: e.inbound_len },
                )
            },
            post_outcome_of(*final(self), id@) != PostOutcome::Accepted,
    {
        match find_session(&self.entries, id) {
            None => {
                proof {
                    self.lemma_absent(id@);
                }
            },
            Some(i) => {
                proof {
                    old(self).lemma_index_of_unique(id@, i as int);
                }
                let e = self.entries.remove(i);
                let closed = SessionEntry {
                    id: e.id,
                    who: e.who,
                    live: false,
                    inbound_len: e.inbound_len,
                };
                self.entries.insert(i, closed);
                proof {
                    assert(self.sessions() =~= old(self).sessions().update(
                        i as int,
                        SessionEntry {
                            id: old(self).sessions()[i as int].id,
                            who: old(self).sessions()[i as int].who,
                            live: false,
                            inbound_len: old(self).sessions()[i as int].inbound_len,
                        },
                    ));
                    assert forall|a: int, b: int|
                        0 <= a < self.sessions().len() && 0 <= b < self.sessions().len() && a
                            != b implies self.sessions()[a].id@ != self.sessions()[b].id@ by {
                        assert(old(self).sessions()[a].id@ != old(self).sessions()[b].id@);
                    }
                    self.lemma_index_of_unique(id@, i as int);
                }
            },
        }
    }

    /// Forget session `id` entirely; later POSTs for it are answered
    /// `NotFound`.
    pub fn remove(&mut self, id: &str)
        requires
            old(self).wf(),
        ensures
            final(self).wf(),
            !old(self).contains_id(id@) ==> *final(self) == *old(self),
            old(self).contains_id(id@) ==> final(self).sessions() == old(self).sessions().remove(
                old(self).index_of(id@),
            ),
            final(self).lookup(id@) is None,
    {
        match find_session(&self.entries, id) {
            None => {
                proof {
                    self.lemma_absent(id@);
                }
            },
            Some(i) => {
                proof {
                    old(self).lemma_index_of_unique(id@, i as int);
                }
                self.entries.remove(i);
                proof {
                    assert forall|a: int, b: int|
                        0 <= a < self.sessions().len() && 0 <= b < self.sessions().len() && a
                            != b implies self.sessions()[a].id@ != self.sessions()[b].id@ by {
                        let oa: int = if a < i { a } else { a + 1 };
                        let ob: int = if b < i { b } else { b + 1 };
                        assert(self.sessions()[a] == old(self).sessions()[oa]);
                        assert(self.sessions()[b] == old(self).sessions()[ob]);
                        assert(old(self).sessions()[oa].id@ != old(self).sessions()[ob].id@);
                    }
                    if self.contains_id(id@) {
                        let w = choose|k: int|
                            0 <= k < self.sessions().len() && self.sessions()[k].id@ == id@;
                        let ow: int = if w < i { w } else { w + 1 };
                        assert(self.sessions()[w] == old(self).sessions()[ow]);
                        assert(old(self).sessions()[ow].id@ != old(self).sessions()[i as int].id@);
                    }
                }
            },
        }
    }

    /// Open a session for `who`: draw a random 128-bit id, render it as 32
    /// hexadecimal characters, and register it.  A collision with a live id
    /// is rejected, leaving the table unchanged.
    pub fn open_session(&mut self, who: Identity) -> (r: Option<String>)
        requires
            old(self).wf(),
        ensures
            final(self).wf(),
            match r {
                Some(id) => valid_session_id(id@) && final(self).lookup(id@) == Some(
                    SessionEntry { id: id, who: who, live: true, inbound_len: 0 },
                ) && final(self).sessions() == old(self).sessions().push(
                    SessionEntry { id: id, who: who, live: true, inbound_len: 0 },
                ),
                None => *final(self) == *old(self),
            },
    {
        let v = random_u128();
        let id = u128_to_hex32(v);
        proof {
            lemma_hex_digits_shape(v as nat, 32);
        }
        let id_out = id.clone();
        if self.register(id, who) {
            Some(id_out)
        } else {
            None
        }
    }
}

/// Relies on rand::random: draws one value from the thread-local generator.
/// The draw depends on the generator's state, so nothing is promised of it.
#[verifier::external_body]
fn random_u128() -> u128 {
    rand::random::<u128>()
}

/// Index of the session entry bearing `id`, scanning in order.
fn find_session(entries: &Vec<SessionEntry>, id: &str) -> (r: Option<usize>)
    ensures
        match r {
            Some(i) => i < entries@.len() && entries@[i as int].id@ == id@,
            None => forall|j: int| 0 <= j < entries@.len() ==> entries@[j].id@ != id@,
        },
{
    let n: usize = entries.len();
    let mut i: usize = 0;
    loop
        invariant
            0 <= i <= n,
            n == entries@.len(),
            forall|j: int| 0 <= j < i ==> entries@[j].id@ != id@,
        decreases n - i,
    {
        if i == n {
            return None;
        }
        if str_eq(entries[i].id.as_str(), id) {
            return Some(i);
        }
        i = i + 1;
    }
}

/// The payload of the opening `endpoint` event: the relative POST URL that
/// carries the session id.
pub open spec fn endpoint_data_spec(id: Seq<char>) -> Seq<char> {
    "?sessionId="@ + id
}

/// Build the `endpoint` event payload for a session.
pub fn endpoint_data(id: &str) -> (r: String)
    ensures
        r@ == endpoint_data_spec(id@),
{
    let mut r = "?sessionId=".to_owned();
    r.append(id);
    r
}

} // verus!
