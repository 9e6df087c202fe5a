//! The session manager: it connects responses to requests.
//!
//! A caller that sends a request registers a slot under its 32-bit session
//! id and then waits. A response delivers its bytes into the slot; the
//! caller takes exactly those bytes out. A slot holds at most one waiter,
//! and a response to a session that does not exist (expired, taken, or
//! never opened) is reported undelivered and dropped. Real waiting and the
//! timeout clock live outside; when the timeout passes, the waiting slot
//! is expired here.

use vstd::prelude::*;

verus! {

/// How long a requester waits for a response, in milliseconds.
pub const SESSION_TIMEOUT: u64 = 10000;

/// The view of a slot's state.
pub enum SlotStateV {
    /// The requester waits; nothing arrived yet.
    Waiting,
    /// A response arrived with exactly these bytes.
    Delivered(Seq<u8>),
}

/// The state of one session's delivery slot.
#[derive(Debug, PartialEq, Eq)]
pub enum SlotState {
    Waiting,
    Delivered(Vec<u8>),
}

impl View for SlotState {
    type V = SlotStateV;

    open spec fn view(&self) -> SlotStateV {
        match self {
            SlotState::Waiting => SlotStateV::Waiting,
            SlotState::Delivered(m) => SlotStateV::Delivered(m@),
        }
    }
}

/// One open session.
#[derive(Debug, PartialEq, Eq)]
pub struct SessionEntry {
    pub id: u32,
    pub state: SlotState,
}

/// The slot of session `id`, if one is open.
pub open spec fn spec_slot(sessions: Seq<SessionEntry>, id: u32) -> Option<SlotStateV> {
    if exists|j: int| 0 <= j < sessions.len() && (#[trigger] sessions[j]).id == id {
        let j = choose|j: int| 0 <= j < sessions.len() && (#[trigger] sessions[j]).id == id;
        Some(sessions[j].state@)
    } else {
        None
    }
}

/// Connects outbound requests to the responses that later arrive for them.
#[derive(Debug, PartialEq, Eq)]
pub struct SessionManager {
    sessions: Vec<SessionEntry>,
}

impl SessionManager {
    pub closed spec fn spec_sessions(&self) -> Seq<SessionEntry> {
        self.sessions@
    }

    pub open spec fn slot(&self, id: u32) -> Option<SlotStateV> {
        spec_slot(self.spec_sessions(), id)
    }

    pub closed spec fn wf(&self) -> bool {
        forall|i: int, j: int|
            0 <= i < j < self.sessions@.len() ==> (#[trigger] self.sessions@[i]).id != (
            #[trigger] self.sessions@[j]).id
    }

    pub fn new() -> (r: SessionManager)
        ensures
            r.wf(),
            forall|id: u32| #[trigger] r.slot(id) is None,
    {
        SessionManager { sessions: Vec::new() }
    }

    /// Drops the slot of session `id`, whatever its state. This is also
    /// how a timed-out wait ends: the caller got nothing, and a late
    /// response will find no slot.
    pub fn expire(&mut self, id: u32)
        requires
            old(self).wf(),
        ensures
            final(self).wf(),
            final(self).slot(id) is None,
            forall|other: u32|
                other != id ==> #[trigger] final(self).slot(other) == old(self).slot(other),
    {
        let n = self.sessions.len();
        let mut at: usize = 0;
        let mut found = false;
        let mut i: usize = 0;
        while i < n
            invariant
                i <= n,
                n == self.sessions@.len(),
                found ==> at < i && self.sessions@[at as int].id == id,
                !found ==> forall|j: int|
                    0 <= j < i ==> (#[trigger] self.sessions@[j]).id != id,
            decreases n - i,
        {
            if self.sessions[i].id == id {
                found = true;
                at = i;
            }
            i = i + 1;
        }
        if found {
            let ghost pre = self.sessions@;
            self.sessions.remove(at);
            proof {
                assert forall|j: int|
                    0 <= j < self.sessions@.len() implies (#[trigger] self.sessions@[j]).id
                    != id by {
                    if j < at {
                        assert(self.sessions@[j] == pre[j]);
                    } else {
                        assert(self.sessions@[j] == pre[j + 1]);
                    }
                }
                assert forall|other: u32|
                    other != id implies #[trigger] spec_slot(self.sessions@, other) == spec_slot(
                    pre,
                    other,
                ) by {
                    lemma_slot_after_remove(pre, at as int, other);
                }
            }
        }
    }

    /// Opens the slot for session `id`, replacing any stale one: the
    /// caller then sends its request and waits for the slot to fill or
    /// for the timeout.
    pub fn request(&mut self, id: u32)
        requires
            old(self).wf(),
        ensures
            final(self).wf(),
            final(self).slot(id) == Some(SlotStateV::Waiting),
            forall|other: u32|
                other != id ==> #[trigger] final(self).slot(other) == old(self).slot(other),
    {
        self.expire(id);
        let ghost mid = *self;
        let ghost pre = self.sessions@;
        self.sessions.push(SessionEntry { id, state: SlotState::Waiting });
        proof {
            lemma_slot_after_push(pre, SessionEntry { id, state: SlotState::Waiting });
            assert forall|other: u32|
                other != id implies #[trigger] spec_slot(self.sessions@, other) == old(self).slot(
                other,
            ) by {
                assert(spec_slot(pre.push(SessionEntry { id, state: SlotState::Waiting }), other)
                    == spec_slot(pre, other));
                assert(mid.slot(other) == old(self).slot(other));
                assert(spec_slot(pre, other) == mid.slot(other));
            }
            let n = pre.len() as int;
            assert(self.sessions@[n].id == id);
            assert forall|a: int, b: int|
                0 <= a < b < self.sessions@.len() implies (#[trigger] self.sessions@[a]).id != (
            #[trigger] self.sessions@[b]).id by {
                if b < n {
                    assert(self.sessions@[a] == pre[a]);
                    assert(self.sessions@[b] == pre[b]);
                } else {
                    assert(self.sessions@[a] == pre[a]);
                }
            }
            let j = choose|j: int|
                0 <= j < self.sessions@.len() && (#[trigger] self.sessions@[j]).id == id;
            if j < n {
                assert(self.sessions@[j] == pre[j]);
            }
            assert(j == n);
        }
    }

    /// Delivers a response into the waiting slot of session `id` and
    /// reports whether there was one. A session that is absent, already
    /// served, or already taken reports false: the stale response is
    /// dropped.
    pub fn respond(&mut self, id: u32, message: Vec<u8>) -> (r: bool)
        requires
            old(self).wf(),
        ensures
            final(self).wf(),
            r == (old(self).slot(id) == Some(SlotStateV::Waiting)),
            r ==> final(self).slot(id) == Some(SlotStateV::Delivered(message@)),
            !r ==> *final(self) == *old(self),
            forall|other: u32|
                other != id ==> #[trigger] final(self).slot(other) == old(self).slot(other),
    {
        let n = self.sessions.len();
        let mut i: usize = 0;
        while i < n
            invariant
                i <= n,
                self.wf(),
                self == old(self),
                n == self.sessions@.len(),
                forall|j: int| 0 <= j < i ==> (#[trigger] self.sessions@[j]).id != id,
            decreases n - i,
        {
            let waiting = match &self.sessions[i].state {
                SlotState::Waiting => true,
                SlotState::Delivered(_) => false,
            };
            if self.sessions[i].id == id {
                proof {
                    let j = choose|j: int|
                        0 <= j < self.sessions@.len() && (#[trigger] self.sessions@[j]).id == id;
                    assert(j == i as int);
                }
                if waiting {
                    let ghost pre = self.sessions@;
                    self.sessions.set(i, SessionEntry { id, state: SlotState::Delivered(message) });
                    proof {
                        assert forall|a: int, b: int|
                            0 <= a < b < self.sessions@.len() implies (
                        #[trigger] self.sessions@[a]).id != (#[trigger] self.sessions@[b]).id by {
                            if a != i as int {
                                assert(self.sessions@[a] == pre[a]);
                            }
                            if b != i as int {
                                assert(self.sessions@[b] == pre[b]);
                            }
                        }
                        let j = choose|j: int|
                            0 <= j < self.sessions@.len() && (#[trigger] self.sessions@[j]).id
                                == id;
                        assert(j == i as int);
                        assert forall|other: u32|
                            other != id implies #[trigger] spec_slot(self.sessions@, other)
                            == spec_slot(pre, other) by {
                            lemma_slot_after_update(pre, i as int, self.sessions@[i as int], other);
                        }
                    }
                    return true;
                } else {
                    return false;
                }
            }
            i = i + 1;
        }
        false
    }

    /// Takes the delivered response of session `id` out of its slot,
    /// closing the session. Nothing comes out while the slot still waits.
    pub fn take_response(&mut self, id: u32) -> (r: Option<Vec<u8>>)
        requires
            old(self).wf(),
        ensures
            final(self).wf(),
            match r {
                Some(m) => old(self).slot(id) == Some(SlotStateV::Delivered(m@))
                    && final(self).slot(id) is None,
                None => !(old(self).slot(id) matches Some(SlotStateV::Delivered(_)))
                    && *final(self) == *old(self),
            },
            forall|other: u32|
                other != id ==> #[trigger] final(self).slot(other) == old(self).slot(other),
    {
        let n = self.sessions.len();
        let mut i: usize = 0;
        while i < n
            invariant
                i <= n,
                self.wf(),
                self == old(self),
                n == self.sessions@.len(),
                forall|j: int| 0 <= j < i ==> (#[trigger] self.sessions@[j]).id != id,
            decreases n - i,
        {
            if self.sessions[i].id == id {
                proof {
                    let j = choose|j: int|
                        0 <= j < self.sessions@.len() && (#[trigger] self.sessions@[j]).id == id;
                    assert(j == i as int);
                }
                let waiting = match &self.sessions[i].state {
                    SlotState::Waiting => true,
                    SlotState::Delivered(_) => false,
                };
                if waiting {
                    return None;
                }
                let ghost pre = self.sessions@;
                let entry = self.sessions.remove(i);
                proof {
                    assert forall|j: int|
                        0 <= j < self.sessions@.len() implies (#[trigger] self.sessions@[j]).id
                        != id by {
                        if j < i {
                            assert(self.sessions@[j] == pre[j]);
                        } else {
                            assert(self.sessions@[j] == pre[j + 1]);
                        }
                    }
                    assert forall|other: u32|
                        other != id implies #[trigger] spec_slot(self.sessions@, other)
                        == spec_slot(pre, other) by {
                        lemma_slot_after_remove(pre, i as int, other);
                    }
                }
                match entry.state {
                    SlotState::Waiting => {
                        proof {
                            assert(false);
                        }
                        return None;
                    },
                    SlotState::Delivered(m) => {
                        return Some(m);
                    },
                }
            }
            i = i + 1;
        }
        None
    }
}

/// Removing one entry leaves every other session's slot as it was.
proof fn lemma_slot_after_remove(pre: Seq<SessionEntry>, at: int, other: u32)
    requires
        0 <= at < pre.len(),
        forall|i: int, j: int|
            0 <= i < j < pre.len() ==> (#[trigger] pre[i]).id != (#[trigger] pre[j]).id,
        pre[at].id != other,
    ensures
        spec_slot(pre.remove(at), other) == spec_slot(pre, other),
{
    let post = pre.remove(at);
    if exists|j: int| 0 <= j < post.len() && (#[trigger] post[j]).id == other {
        let j = choose|j: int| 0 <= j < post.len() && (#[trigger] post[j]).id == other;
        if j < at {
            assert(post[j] == pre[j]);
        } else {
            assert(post[j] == pre[j + 1]);
        }
        let j2 = choose|j2: int| 0 <= j2 < pre.len() && (#[trigger] pre[j2]).id == other;
        if j2 < at {
            assert(post[j2] == pre[j2]);
        } else if j2 > at {
            assert(post[j2 - 1] == pre[j2]);
        }
    } else {
        if exists|j2: int| 0 <= j2 < pre.len() && (#[trigger] pre[j2]).id == other {
            let j2 = choose|j2: int| 0 <= j2 < pre.len() && (#[trigger] pre[j2]).id == other;
            if j2 < at {
                assert(post[j2] == pre[j2]);
            } else if j2 > at {
                assert(post[j2 - 1] == pre[j2]);
            }
        }
    }
}

/// Appending an entry leaves every other session's slot as it was.
proof fn lemma_slot_after_push(pre: Seq<SessionEntry>, entry: SessionEntry)
    requires
        forall|i: int, j: int|
            0 <= i < j < pre.len() ==> (#[trigger] pre[i]).id != (#[trigger] pre[j]).id,
    ensures
        forall|other: u32|
            other != entry.id ==> #[trigger] spec_slot(pre.push(entry), other) == spec_slot(
                pre,
                other,
            ),
        forall|i: int| 0 <= i < pre.len() ==> (#[trigger] pre.push(entry)[i]) == pre[i],
{
    let post = pre.push(entry);
    assert forall|other: u32| other != entry.id implies #[trigger] spec_slot(post, other)
        == spec_slot(pre, other) by {
        if exists|j: int| 0 <= j < post.len() && (#[trigger] post[j]).id == other {
            let j = choose|j: int| 0 <= j < post.len() && (#[trigger] post[j]).id == other;
            assert(j < pre.len());
            assert(post[j] == pre[j]);
            let j2 = choose|j2: int| 0 <= j2 < pre.len() && (#[trigger] pre[j2]).id == other;
            assert(post[j2] == pre[j2]);
        } else {
            if exists|j2: int| 0 <= j2 < pre.len() && (#[trigger] pre[j2]).id == other {
                let j2 = choose|j2: int| 0 <= j2 < pre.len() && (#[trigger] pre[j2]).id == other;
                assert(post[j2] == pre[j2]);
            }
        }
    }
}

/// Replacing the entry at `at` with one of the same id leaves every other
/// session's slot as it was.
proof fn lemma_slot_after_update(pre: Seq<SessionEntry>, at: int, entry: SessionEntry, other: u32)
    requires
        0 <= at < pre.len(),
        forall|i: int, j: int|
            0 <= i < j < pre.len() ==> (#[trigger] pre[i]).id != (#[trigger] pre[j]).id,
        entry.id == pre[at].id,
        other != entry.id,
    ensures
        spec_slot(pre.update(at, entry), other) == spec_slot(pre, other),
{
    let post = pre.update(at, entry);
    if exists|j: int| 0 <= j < post.len() && (#[trigger] post[j]).id == other {
        let j = choose|j: int| 0 <= j < post.len() && (#[trigger] post[j]).id == other;
        assert(j != at);
        assert(post[j] == pre[j]);
        let j2 = choose|j2: int| 0 <= j2 < pre.len() && (#[trigger] pre[j2]).id == other;
        assert(j2 != at);
        assert(post[j2] == pre[j2]);
    } else {
        if exists|j2: int| 0 <= j2 < pre.len() && (#[trigger] pre[j2]).id == other {
            let j2 = choose|j2: int| 0 <= j2 < pre.len() && (#[trigger] pre[j2]).id == other;
            assert(j2 != at);
            assert(post[j2] == pre[j2]);
        }
    }
}

} // verus!
