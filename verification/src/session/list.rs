//! The table of active sessions and the ids it hands out.

use std::collections::HashMap;
use vstd::prelude::*;

verus! {

broadcast use vstd::std_specs::hash::group_hash_axioms;

/// Largest session id; zero stands for "no session" and is never handed out.
pub const MAX_SESSION_ID: u16 = 0xffff;

/// What a session table holds: the active ids, each with the handle it was
/// registered with, and the pool of freed ids, the one freed last at the end.
pub ghost struct SessionsView<H> {
    pub active: Map<u16, H>,
    pub free: Seq<u16>,
}

impl<H> SessionsView<H> {
    /// Ids are never zero, no id is active and pooled at once, and none is
    /// pooled twice.
    pub open spec fn wf(self) -> bool {
        &&& self.active.dom().finite()
        &&& !self.active.contains_key(0)
        &&& forall|i: int|
            0 <= i < self.free.len() ==> (#[trigger] self.free[i]) != 0
                && !self.active.contains_key(self.free[i])
        &&& forall|i: int, j: int|
            0 <= i < j < self.free.len() ==> (#[trigger] self.free[i]) != (#[trigger] self.free[j])
    }

    /// The id that the next session gets: the one freed last if the pool
    /// holds any, else one more than the number of active sessions, unless
    /// that is more than sixteen bits hold.
    pub open spec fn next_id(self) -> Option<u16> {
        if self.free.len() > 0 {
            Some(self.free.last())
        } else if self.active.len() < MAX_SESSION_ID {
            Some((self.active.len() + 1) as u16)
        } else {
            None
        }
    }

    /// Whether the id that the next session gets is not in use.
    pub open spec fn next_id_unused(self) -> bool {
        match self.next_id() {
            Some(id) => !self.active.contains_key(id),
            None => true,
        }
    }

    /// The table after a session was registered with `handle`.
    pub open spec fn spawn(self, handle: H) -> Self {
        match self.next_id() {
            Some(id) => SessionsView {
                active: self.active.insert(id, handle),
                free: if self.free.len() > 0 {
                    self.free.drop_last()
                } else {
                    self.free
                },
            },
            None => self,
        }
    }

    /// The table after the session `id` ended: the id goes to the pool unless
    /// it equals the number of sessions that were active.
    pub open spec fn release(self, id: u16) -> Self {
        SessionsView {
            active: self.active.remove(id),
            free: if id != self.active.len() {
                self.free.push(id)
            } else {
                self.free
            },
        }
    }

    /// The ids in use and in the pool are together exactly those from one up
    /// to their number: the table has no gap.
    pub open spec fn gapless(self) -> bool {
        forall|id: u16|
            (1 <= id <= self.active.len() + self.free.len()) <==> (#[trigger] self.active.contains_key(
                id,
            ) || self.free.contains(id))
    }
}

/// One call on a session table: a session is registered, or one ends.
pub ghost enum SessionsCall<H> {
    Spawn(H),
    Free(u16),
}

impl<H> SessionsView<H> {
    /// The table after one call.
    pub open spec fn after(self, call: SessionsCall<H>) -> Self {
        match call {
            SessionsCall::Spawn(handle) => self.spawn(handle),
            SessionsCall::Free(id) => self.release(id),
        }
    }

    /// The table after a run of calls, the first of them first.
    pub open spec fn after_all(self, calls: Seq<SessionsCall<H>>) -> Self
        decreases calls.len(),
    {
        if calls.len() == 0 {
            self
        } else {
            self.after(calls[0]).after_all(calls.skip(1))
        }
    }

    /// Whether a run of calls can be made: every session that it ends is
    /// active at that moment, and every session that it registers gets an id
    /// that is then in use by no other.
    pub open spec fn admits_all(self, calls: Seq<SessionsCall<H>>) -> bool
        decreases calls.len(),
    {
        calls.len() == 0 || (match calls[0] {
            SessionsCall::Spawn(_) => self.next_id_unused(),
            SessionsCall::Free(id) => self.active.contains_key(id),
        } && self.after(calls[0]).admits_all(calls.skip(1)))
    }

    /// Whether ending the session `id` leaves the table without a gap: the
    /// id is active, and it goes to the pool or the pool is empty.
    pub open spec fn frees_cleanly(self, id: u16) -> bool {
        self.active.contains_key(id) && (id != self.active.len() || self.free.len() == 0)
    }

    /// Whether every session that a run of calls ends is then active and is
    /// freed cleanly.
    pub open spec fn frees_all_cleanly(self, calls: Seq<SessionsCall<H>>) -> bool
        decreases calls.len(),
    {
        calls.len() == 0 || ((calls[0] matches SessionsCall::Free(id) ==> self.frees_cleanly(id))
            && self.after(calls[0]).frees_all_cleanly(calls.skip(1)))
    }
}

/// Handing out an id that is not in use keeps the table well formed.
pub proof fn lemma_spawn_keeps_wf<H>(v: SessionsView<H>, handle: H)
    requires
        v.wf(),
        v.next_id_unused(),
    ensures
        v.spawn(handle).wf(),
{
    let w = v.spawn(handle);
    if v.free.len() > 0 {
        assert forall|i: int| 0 <= i < w.free.len() implies (#[trigger] w.free[i]) != 0
            && !w.active.contains_key(w.free[i]) by {
            assert(w.free[i] == v.free[i]);
            assert(v.free[i] != v.free[v.free.len() - 1]);
        }
        assert forall|i: int, j: int| 0 <= i < j < w.free.len() implies (#[trigger] w.free[i]) != (
        #[trigger] w.free[j]) by {
            assert(v.free[i] != v.free[j]);
        }
    }
}

/// Freeing an active id keeps the table well formed.
pub proof fn lemma_free_keeps_wf<H>(v: SessionsView<H>, id: u16)
    requires
        v.wf(),
        v.active.contains_key(id),
    ensures
        v.release(id).wf(),
{
    let w = v.release(id);
    if id != v.active.len() {
        assert forall|i: int| 0 <= i < w.free.len() implies (#[trigger] w.free[i]) != 0
            && !w.active.contains_key(w.free[i]) by {
            if i < v.free.len() {
                assert(w.free[i] == v.free[i]);
            }
        }
        assert forall|i: int, j: int| 0 <= i < j < w.free.len() implies (#[trigger] w.free[i]) != (
        #[trigger] w.free[j]) by {
            assert(w.free[i] == v.free[i]);
            if j < v.free.len() {
                assert(w.free[j] == v.free[j]);
            }
        }
    }
}

/// In a table without a gap the next id is in use by no session, and the
/// table has no gap after it was handed out.
pub proof fn lemma_spawn_keeps_gapless<H>(v: SessionsView<H>, handle: H)
    requires
        v.wf(),
        v.gapless(),
    ensures
        v.next_id_unused(),
        v.spawn(handle).wf(),
        v.spawn(handle).gapless(),
{
    let w = v.spawn(handle);
    if v.free.len() > 0 {
        lemma_spawn_keeps_wf(v, handle);
        let id = v.free.last();
        assert(v.free[v.free.len() - 1] == id);
        assert forall|x: u16| (1 <= x <= w.active.len() + w.free.len()) <==> (
        #[trigger] w.active.contains_key(x) || w.free.contains(x)) by {
            if v.free.contains(x) && x != id {
                let i = choose|i: int| 0 <= i < v.free.len() && v.free[i] == x;
                assert(w.free[i] == x);
            }
            if w.free.contains(x) {
                let i = choose|i: int| 0 <= i < w.free.len() && w.free[i] == x;
                assert(v.free[i] == x);
            }
            assert(v.active.contains_key(x) || v.free.contains(x) <==> 1 <= x <= v.active.len()
                + v.free.len());
        }
    } else if v.active.len() < MAX_SESSION_ID {
        let id = (v.active.len() + 1) as u16;
        assert(!(v.active.contains_key(id) || v.free.contains(id)));
        lemma_spawn_keeps_wf(v, handle);
        assert forall|x: u16| (1 <= x <= w.active.len() + w.free.len()) <==> (
        #[trigger] w.active.contains_key(x) || w.free.contains(x)) by {
            assert(v.active.contains_key(x) || v.free.contains(x) <==> 1 <= x <= v.active.len()
                + v.free.len());
        }
    }
}

/// A table without a gap has none after a session was freed cleanly.
pub proof fn lemma_free_keeps_gapless<H>(v: SessionsView<H>, id: u16)
    requires
        v.wf(),
        v.gapless(),
        v.frees_cleanly(id),
    ensures
        v.release(id).wf(),
        v.release(id).gapless(),
{
    let w = v.release(id);
    lemma_free_keeps_wf(v, id);
    assert forall|x: u16| (1 <= x <= w.active.len() + w.free.len()) <==> (
    #[trigger] w.active.contains_key(x) || w.free.contains(x)) by {
        assert(v.active.contains_key(x) || v.free.contains(x) <==> 1 <= x <= v.active.len()
            + v.free.len());
        if id != v.active.len() {
            assert(w.free[v.free.len() as int] == id);
            if v.free.contains(x) {
                let i = choose|i: int| 0 <= i < v.free.len() && v.free[i] == x;
                assert(w.free[i] == x);
            }
            if w.free.contains(x) && x != id {
                let i = choose|i: int| 0 <= i < w.free.len() && w.free[i] == x;
                assert(v.free[i] == x);
            }
        }
    }
}

/// Every run of calls that can be made leaves a table in which no id is
/// zero, none is active and pooled at once, and none is pooled twice.
pub proof fn lemma_table_stays_well_formed<H>(v: SessionsView<H>, calls: Seq<SessionsCall<H>>)
    requires
        v.wf(),
        v.admits_all(calls),
    ensures
        v.after_all(calls).wf(),
    decreases calls.len(),
{
    if calls.len() > 0 {
        match calls[0] {
            SessionsCall::Spawn(handle) => lemma_spawn_keeps_wf(v, handle),
            SessionsCall::Free(id) => lemma_free_keeps_wf(v, id),
        }
        lemma_table_stays_well_formed(v.after(calls[0]), calls.skip(1));
    }
}

/// Session ids stay unique: from a table without a gap, such as the empty
/// one, every run of calls that frees its sessions cleanly can be made, so
/// that each session is registered under an id that no active session has,
/// and leaves a table in which no id is active and pooled at once, none is
/// pooled twice, and there is no gap.
pub proof fn lemma_ids_stay_unique<H>(v: SessionsView<H>, calls: Seq<SessionsCall<H>>)
    requires
        v.wf(),
        v.gapless(),
        v.frees_all_cleanly(calls),
    ensures
        v.admits_all(calls),
        v.after_all(calls).wf(),
        v.after_all(calls).gapless(),
    decreases calls.len(),
{
    if calls.len() > 0 {
        match calls[0] {
            SessionsCall::Spawn(handle) => lemma_spawn_keeps_gapless(v, handle),
            SessionsCall::Free(id) => lemma_free_keeps_gapless(v, id),
        }
        lemma_ids_stay_unique(v.after(calls[0]), calls.skip(1));
    }
}

/// An id that went to the pool is the one that the next session gets.
pub proof fn lemma_freed_id_is_reused<H>(v: SessionsView<H>, id: u16)
    requires
        v.wf(),
        v.active.contains_key(id),
        id != v.active.len(),
    ensures
        v.release(id).free == v.free.push(id),
        v.release(id).next_id() == Some(id),
        v.release(id).next_id_unused(),
{
}

/// Freeing the id that equals the number of active sessions leaves the pool
/// as it was and lowers that number by one; with an empty pool the next
/// session then gets the same id again.
pub proof fn lemma_freed_last_id_shrinks<H>(v: SessionsView<H>, id: u16)
    requires
        v.wf(),
        v.active.contains_key(id),
        id == v.active.len(),
    ensures
        v.release(id).free == v.free,
        v.release(id).active.len() == v.active.len() - 1,
        v.free.len() == 0 ==> v.release(id).next_id() == Some(id),
{
}

/// In a table without a gap and with an empty pool the highest active id is
/// the number of active sessions.
pub proof fn lemma_highest_id_is_count<H>(v: SessionsView<H>, id: u16)
    requires
        v.wf(),
        v.gapless(),
        v.free.len() == 0,
        v.active.contains_key(id),
    ensures
        id <= v.active.len(),
        forall|top: u16| top == v.active.len() ==> v.active.contains_key(top),
{
    assert(v.active.contains_key(id) || v.free.contains(id));
    assert forall|top: u16| top == v.active.len() implies v.active.contains_key(top) by {
        assert(v.active.contains_key(top) || v.free.contains(top));
    }
}

/// An active PPPoE session: the id that the table reserved for it.
pub struct Session {
    id: u16,
}

impl View for Session {
    type V = u16;

    closed spec fn view(&self) -> u16 {
        self.id
    }
}

impl Session {
    #[verifier::type_invariant]
    spec fn nonzero(self) -> bool {
        self.id != 0
    }

    /// The session's id, which is never zero.
    pub fn id(&self) -> (r: u16)
        ensures
            r == self@,
            r != 0,
    {
        proof {
            use_type_invariant(self);
        }
        self.id
    }
}

/// Active PPPoE sessions.
pub struct Sessions<H> {
    list: HashMap<u16, H>,
    free: Vec<u16>,
}

impl<H> View for Sessions<H> {
    type V = SessionsView<H>;

    closed spec fn view(&self) -> SessionsView<H> {
        SessionsView { active: self.list@, free: self.free@ }
    }
}

impl<H> Default for Sessions<H> {
    /// A table without sessions.
    fn default() -> (r: Self)
        ensures
            r@.active == Map::<u16, H>::empty(),
            r@.free == Seq::<u16>::empty(),
            r@.wf(),
            r@.gapless(),
    {
        Self::new()
    }
}

impl<H> Sessions<H> {
    /// A table without sessions.
    pub fn new() -> (r: Self)
        ensures
            r@.active == Map::<u16, H>::empty(),
            r@.free == Seq::<u16>::empty(),
            r@.wf(),
            r@.gapless(),
    {
        let r = Self { list: HashMap::new(), free: Vec::new() };
        assert(r@.active.len() == 0);
        r
    }

    /// Whether `id` belongs to an active session.
    pub fn is_active(&self, id: u16) -> (r: bool)
        ensures
            r == self@.active.contains_key(id),
    {
        self.list.contains_key(&id)
    }

    /// Whether a call of `spawn` would choose an id that is not in use.
    pub fn next_id_unused(&self) -> (r: bool)
        requires
            self@.wf(),
        ensures
            r == self@.next_id_unused(),
    {
        let n: usize = self.list.len();
        if self.free.len() > 0 || n >= MAX_SESSION_ID as usize {
            true
        } else {
            !self.list.contains_key(&((n + 1) as u16))
        }
    }

    /// Registers a session with `handle` under the next id and returns it;
    /// `None`, with the table unchanged, when all ids are in use.
    pub fn spawn(&mut self, handle: H) -> (r: Option<Session>)
        requires
            old(self)@.wf(),
            old(self)@.next_id_unused(),
        ensures
            final(self)@ == old(self)@.spawn(handle),
            final(self)@.wf(),
            match r {
                Some(s) => old(self)@.next_id() == Some(s@) && !old(self)@.active.contains_key(s@),
                None => old(self)@.next_id() is None,
            },
    {
        // Get session ID.
        let id: u16 = match self.free.pop() {
            Some(v) => v,
            None => {
                let n: usize = self.list.len();
                if n >= MAX_SESSION_ID as usize {
                    return None;
                }
                (n + 1) as u16
            },
        };
        proof {
            lemma_spawn_keeps_wf(old(self)@, handle);
        }
        // Allocate a session.
        self.list.insert(id, handle);
        Some(Session { id })
    }

    /// Removes the session `id` and pools its id for reuse, unless it equals
    /// the number of active sessions.
    pub fn free(&mut self, id: u16)
        requires
            old(self)@.wf(),
            old(self)@.active.contains_key(id),
        ensures
            final(self)@ == old(self)@.release(id),
            final(self)@.wf(),
    {
        proof {
            lemma_free_keeps_wf(old(self)@, id);
        }
        if id as usize != self.list.len() {
            self.free.push(id);
        }
        self.list.remove(&id);
    }
}

} // verus!
