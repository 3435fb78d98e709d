//! The live sessions of the query server, keyed by session id, with idle-TTL
//! eviction; the same store keeps prepared statements by handle. Times are
//! milliseconds on a clock the caller reads.

use vstd::prelude::*;

use crate::server::{session_id_from_metadata, session_id_of};
use crate::strmap::{str_eq, StringMap};
use crate::text::owned;

verus! {

/// One session and when it was last used.
pub struct SessionSlot<S> {
    id: String,
    session: S,
    last_used_ms: u64,
}

/// A slot as the contracts see it.
pub struct SlotView<S> {
    pub id: Seq<char>,
    pub session: S,
    pub last_used: u64,
}

/// The sessions, one per id, with the idle time after which a sweep evicts
/// them.
pub struct SessionStore<S> {
    slots: Vec<SessionSlot<S>>,
    ttl_ms: u64,
}

spec fn slot_view<S>(s: SessionSlot<S>) -> SlotView<S> {
    SlotView { id: s.id@, session: s.session, last_used: s.last_used_ms }
}

spec fn slots_view<S>(v: Seq<SessionSlot<S>>) -> Seq<SlotView<S>> {
    v.map_values(|s: SessionSlot<S>| slot_view(s))
}

/// The position of the slot with id `id`.
pub open spec fn find_slot<S>(v: Seq<SlotView<S>>, id: Seq<char>) -> Option<int>
    decreases v.len(),
{
    if v.len() == 0 {
        None
    } else if v.last().id == id {
        Some(v.len() - 1)
    } else {
        find_slot(v.drop_last(), id)
    }
}

/// The session stored under `id` and when it was last used.
pub open spec fn slot_of<S>(v: Seq<SlotView<S>>, id: Seq<char>) -> Option<(S, u64)> {
    match find_slot(v, id) {
        Some(i) => Some((v[i].session, v[i].last_used)),
        None => None,
    }
}

pub open spec fn ids_unique<S>(v: Seq<SlotView<S>>) -> bool {
    forall|i: int, j: int| 0 <= i < j < v.len() ==> v[i].id != v[j].id
}

/// How long a session last used at `last_used` has been idle at `now`.
pub open spec fn idle_ms(last_used: u64, now: u64) -> int {
    if now >= last_used {
        now - last_used
    } else {
        0
    }
}

/// `after` is `before` with `s`, used at `t`, stored under `id`.
pub open spec fn inserted<S>(
    before: Seq<SlotView<S>>,
    after: Seq<SlotView<S>>,
    id: Seq<char>,
    s: S,
    t: u64,
) -> bool {
    forall|q: Seq<char>| #[trigger]
        slot_of(after, q) == if q == id {
            Some((s, t))
        } else {
            slot_of(before, q)
        }
}

/// `after` is `before` with the session under `id`, if any, used at `t`.
pub open spec fn touched<S>(before: Seq<SlotView<S>>, after: Seq<SlotView<S>>, id: Seq<char>, t: u64) -> bool {
    match slot_of(before, id) {
        Some((s, _)) => inserted(before, after, id, s, t),
        None => forall|q: Seq<char>| #[trigger] slot_of(after, q) == slot_of(before, q),
    }
}

/// `after` keeps the sessions of `before` idle less than `ttl` at `now`.
pub open spec fn swept<S>(before: Seq<SlotView<S>>, after: Seq<SlotView<S>>, now: u64, ttl: u64) -> bool {
    forall|q: Seq<char>| #[trigger]
        slot_of(after, q) == match slot_of(before, q) {
            Some((s, t)) => if idle_ms(t, now) < ttl {
                Some((s, t))
            } else {
                None
            },
            None => None,
        }
}

proof fn lemma_find_slot<S>(v: Seq<SlotView<S>>, id: Seq<char>)
    ensures
        find_slot(v, id) matches Some(i) ==> 0 <= i < v.len() && v[i].id == id,
        find_slot(v, id) is None ==> forall|k: int| 0 <= k < v.len() ==> v[k].id != id,
    decreases v.len(),
{
    if v.len() > 0 && v.last().id != id {
        lemma_find_slot(v.drop_last(), id);
        if let Some(i) = find_slot(v, id) {
            assert(v.drop_last()[i] == v[i]);
        }
        assert forall|k: int| 0 <= k < v.len() && find_slot(v, id) is None implies v[k].id != id by {
            if k < v.len() - 1 {
                assert(v.drop_last()[k] == v[k]);
            }
        }
    }
}

proof fn lemma_push_slot<S>(v: Seq<SlotView<S>>, e: SlotView<S>, q: Seq<char>)
    ensures
        q != e.id ==> slot_of(v.push(e), q) == slot_of(v, q),
        slot_of(v.push(e), e.id) == Some((e.session, e.last_used)),
{
    let w = v.push(e);
    assert(w.drop_last() =~= v);
    if q != e.id {
        if let Some(j) = find_slot(v, q) {
            lemma_find_slot(v, q);
            assert(w[j] == v[j]);
        }
    }
}

proof fn lemma_find_slot_at<S>(v: Seq<SlotView<S>>, i: int)
    requires
        ids_unique(v),
        0 <= i < v.len(),
    ensures
        find_slot(v, v[i].id) == Some(i),
    decreases v.len(),
{
    if i < v.len() - 1 {
        assert(v.last().id != v[i].id);
        let d = v.drop_last();
        assert(d[i] == v[i]);
        lemma_find_slot_at(d, i);
    }
}

impl<S> SessionStore<S> {
    pub closed spec fn spec_slots(&self) -> Seq<SlotView<S>> {
        slots_view(self.slots@)
    }

    pub closed spec fn spec_ttl(&self) -> u64 {
        self.ttl_ms
    }

    #[verifier::type_invariant]
    spec fn inv(self) -> bool {
        ids_unique(self.spec_slots())
    }

    /// An empty store evicting sessions idle `ttl_ms` or longer.
    pub fn new(ttl_ms: u64) -> (r: Self)
        ensures
            r.spec_slots().len() == 0,
            r.spec_ttl() == ttl_ms,
    {
        let r = SessionStore { slots: Vec::new(), ttl_ms };
        assert(r.spec_slots() =~= Seq::<SlotView<S>>::empty());
        r
    }

    /// The idle time after which a sweep evicts a session.
    pub fn ttl_ms(&self) -> (r: u64)
        ensures
            r == self.spec_ttl(),
    {
        self.ttl_ms
    }

    /// The number of live sessions.
    pub fn len(&self) -> (n: usize)
        ensures
            n == self.spec_slots().len(),
    {
        self.slots.len()
    }

    fn position(&self, id: &str) -> (r: Option<usize>)
        ensures
            match r {
                Some(i) => find_slot(self.spec_slots(), id@) == Some(i as int),
                None => find_slot(self.spec_slots(), id@) is None,
            },
    {
        proof {
            use_type_invariant(self);
        }
        let ghost v = self.spec_slots();
        let mut i: usize = 0;
        while i < self.slots.len()
            invariant
                i <= self.slots.len(),
                v == self.spec_slots(),
                ids_unique(v),
                forall|k: int| 0 <= k < i ==> v[k].id != id@,
            decreases self.slots.len() - i,
        {
            if str_eq(self.slots[i].id.as_str(), id) {
                proof {
                    assert(v[i as int].id == id@);
                    lemma_find_slot_at(v, i as int);
                }
                return Some(i);
            }
            i = i + 1;
        }
        proof {
            lemma_find_slot(v, id@);
            if let Some(j) = find_slot(v, id@) {
                assert(v[j].id == id@);
            }
        }
        None
    }

    /// Store `session`, used at `now_ms`, under `id`, replacing any session
    /// stored there.
    pub fn insert(&mut self, id: String, session: S, now_ms: u64)
        ensures
            inserted(old(self).spec_slots(), final(self).spec_slots(), id@, session, now_ms),
            final(self).spec_ttl() == old(self).spec_ttl(),
    {
        proof {
            use_type_invariant(&*self);
        }
        let ghost v0 = self.spec_slots();
        let ghost idv = id@;
        match self.position(id.as_str()) {
            Some(i) => {
                let slot = SessionSlot { id, session, last_used_ms: now_ms };
                let ghost sv = slot_view(slot);
                let mut slots = Vec::new();
                std::mem::swap(&mut slots, &mut self.slots);
                proof {
                    lemma_find_slot(v0, idv);
                    assert(slots_view(slots@) == v0);
                    assert(slots@.len() == v0.len());
                }
                slots.set(i, slot);
                proof {
                    let v1 = slots_view(slots@);
                    assert(v1 =~= v0.update(i as int, sv));
                    lemma_find_slot(v0, idv);
                    assert(ids_unique(v1)) by {
                        assert forall|a: int, b: int| 0 <= a < b < v1.len() implies v1[a].id != v1[b].id by {
                            if a != i && b != i {
                                assert(v1[a] == v0[a] && v1[b] == v0[b]);
                            } else if a == i {
                                assert(v0[b].id != v0[a].id);
                            } else {
                                assert(v0[a].id != v0[b].id);
                            }
                        }
                    }
                    assert forall|q: Seq<char>| #[trigger]
                        slot_of(v1, q) == if q == idv {
                            Some((session, now_ms))
                        } else {
                            slot_of(v0, q)
                        } by {
                        lemma_find_slot(v0, q);
                        lemma_find_slot(v1, q);
                        if q == idv {
                            lemma_find_slot_at(v1, i as int);
                        } else if let Some(j) = find_slot(v0, q) {
                            assert(j != i);
                            assert(v1[j] == v0[j]);
                            lemma_find_slot_at(v1, j);
                        } else {
                            if let Some(j) = find_slot(v1, q) {
                                if j != i {
                                    assert(v1[j] == v0[j]);
                                }
                            }
                        }
                    }
                }
                self.slots = slots;
            },
            None => {
                let slot = SessionSlot { id, session, last_used_ms: now_ms };
                let ghost sv = slot_view(slot);
                let mut slots = Vec::new();
                std::mem::swap(&mut slots, &mut self.slots);
                slots.push(slot);
                proof {
                    let v1 = slots_view(slots@);
                    assert(v1 =~= v0.push(sv));
                    lemma_find_slot(v0, idv);
                    assert(ids_unique(v1)) by {
                        assert forall|a: int, b: int| 0 <= a < b < v1.len() implies v1[a].id != v1[b].id by {
                            if b < v0.len() {
                                assert(v1[a] == v0[a] && v1[b] == v0[b]);
                            } else {
                                assert(v1[a] == v0[a]);
                            }
                        }
                    }
                    assert forall|q: Seq<char>| #[trigger]
                        slot_of(v1, q) == if q == idv {
                            Some((session, now_ms))
                        } else {
                            slot_of(v0, q)
                        } by {
                        assert(v1.drop_last() =~= v0);
                        if let Some(j) = find_slot(v0, q) {
                            lemma_find_slot(v0, q);
                            assert(v1[j] == v0[j]);
                        }
                    }
                }
                self.slots = slots;
            },
        }
    }

    /// Mark slot `i` used at `now_ms`.
    fn touch_at(&mut self, i: usize, now_ms: u64)
        requires
            find_slot(old(self).spec_slots(), old(self).spec_slots()[i as int].id) == Some(i as int),
            i < old(self).spec_slots().len(),
        ensures
            inserted(
                old(self).spec_slots(),
                final(self).spec_slots(),
                old(self).spec_slots()[i as int].id,
                old(self).spec_slots()[i as int].session,
                now_ms,
            ),
            final(self).spec_ttl() == old(self).spec_ttl(),
            final(self).spec_slots() == old(self).spec_slots().update(
                i as int,
                SlotView {
                    id: old(self).spec_slots()[i as int].id,
                    session: old(self).spec_slots()[i as int].session,
                    last_used: now_ms,
                },
            ),
    {
        proof {
            use_type_invariant(&*self);
        }
        let ghost v0 = self.spec_slots();
        let mut slots = Vec::new();
        std::mem::swap(&mut slots, &mut self.slots);
        proof {
            assert(slots_view(slots@) == v0);
            assert(slots@.len() == v0.len());
        }
        let mut slot = slots.remove(i);
        slot.last_used_ms = now_ms;
        let ghost sv = slot_view(slot);
        slots.insert(i, slot);
        proof {
            let v1 = slots_view(slots@);
            assert(v1 =~= v0.update(i as int, sv));
            let idv = v0[i as int].id;
            assert(sv.id == idv && sv.session == v0[i as int].session);
            assert(ids_unique(v1)) by {
                assert forall|a: int, b: int| 0 <= a < b < v1.len() implies v1[a].id != v1[b].id by {
                    if a != i && b != i {
                        assert(v1[a] == v0[a] && v1[b] == v0[b]);
                    } else if a == i {
                        assert(v0[b].id != v0[a].id);
                    } else {
                        assert(v0[a].id != v0[b].id);
                    }
                }
            }
            assert forall|q: Seq<char>| #[trigger]
                slot_of(v1, q) == if q == idv {
                    Some((v0[i as int].session, now_ms))
                } else {
                    slot_of(v0, q)
                } by {
                lemma_find_slot(v0, q);
                lemma_find_slot(v1, q);
                if q == idv {
                    lemma_find_slot_at(v1, i as int);
                } else if let Some(j) = find_slot(v0, q) {
                    assert(j != i);
                    assert(v1[j] == v0[j]);
                    lemma_find_slot_at(v1, j);
                } else {
                    if let Some(j) = find_slot(v1, q) {
                        if j != i {
                            assert(v1[j] == v0[j]);
                        }
                    }
                }
            }
        }
        self.slots = slots;
    }

    /// The session under `id`, marking it used at `now_ms`; `None` when no
    /// session has that id.
    pub fn get(&mut self, id: &str, now_ms: u64) -> (r: Option<S>)
        where
            S: Clone,
        ensures
            touched(old(self).spec_slots(), final(self).spec_slots(), id@, now_ms),
            final(self).spec_ttl() == old(self).spec_ttl(),
            match slot_of(old(self).spec_slots(), id@) {
                Some((s, _)) => r matches Some(x) && cloned(s, x),
                None => r is None,
            },
    {
        match self.position(id) {
            Some(i) => {
                proof {
                    lemma_find_slot(self.spec_slots(), id@);
                }
                let ghost s0 = self.spec_slots()[i as int].session;
                self.touch_at(i, now_ms);
                proof {
                    use_type_invariant(&*self);
                    lemma_find_slot(self.spec_slots(), id@);
                }
                assert(self.slots@.len() == self.spec_slots().len());
                let x = self.slots[i].session.clone();
                proof {
                    assert(slot_view(self.slots@[i as int]) == self.spec_slots()[i as int]);
                    lemma_find_slot_at(self.spec_slots(), i as int);
                }
                Some(x)
            },
            None => None,
        }
    }

    /// The session under `id`, marking it used at `now_ms`; when there is
    /// none, `session` is stored there first. Returns a clone of the stored
    /// session.
    pub fn insert_if_absent(&mut self, id: String, session: S, now_ms: u64) -> (r: S)
        where
            S: Clone,
        ensures
            final(self).spec_ttl() == old(self).spec_ttl(),
            match slot_of(old(self).spec_slots(), id@) {
                Some((e, _)) => touched(old(self).spec_slots(), final(self).spec_slots(), id@, now_ms)
                    && cloned(e, r),
                None => inserted(old(self).spec_slots(), final(self).spec_slots(), id@, session, now_ms)
                    && cloned(session, r),
            },
    {
        match self.get(id.as_str(), now_ms) {
            Some(x) => x,
            None => {
                let r = session.clone();
                self.insert(id, session, now_ms);
                r
            },
        }
    }

    /// Evict the sessions idle `ttl` or longer at `now_ms`. A store whose
    /// sessions hold planned statements prunes those too with
    /// [`SessionStore::sweep_with_statements`].
    pub fn sweep(&mut self, now_ms: u64)
        ensures
            swept(old(self).spec_slots(), final(self).spec_slots(), now_ms, old(self).spec_ttl()),
            final(self).spec_ttl() == old(self).spec_ttl(),
    {
        let ttl = self.ttl_ms;
        self.evict_idle(now_ms, ttl);
    }

    /// Evict the entries idle `ttl` or longer at `now_ms`.
    fn evict_idle(&mut self, now_ms: u64, ttl: u64)
        ensures
            swept(old(self).spec_slots(), final(self).spec_slots(), now_ms, ttl),
            final(self).spec_ttl() == old(self).spec_ttl(),
    {
        proof {
            use_type_invariant(&*self);
        }
        let ghost v0 = self.spec_slots();
        let mut rest = Vec::new();
        std::mem::swap(&mut rest, &mut self.slots);
        let ghost r0 = rest@;
        proof {
            assert(r0.len() == rest.len());
            assert(slots_view(r0) == v0);
        }
        let mut kept: Vec<SessionSlot<S>> = Vec::new();
        let mut k: usize = 0;
        proof {
            assert(r0.skip(0) =~= r0);
        }
        while rest.len() > 0
            invariant
                k <= r0.len(),
                r0.len() <= usize::MAX,
                v0 == slots_view(r0),
                ids_unique(v0),
                rest@ == r0.skip(k as int),
                ids_unique(slots_view(kept@)),
                forall|j: int|
                    0 <= j < kept@.len() ==> exists|m: int|
                        0 <= m < k && #[trigger] slot_view(kept@[j]) == v0[m],
                forall|q: Seq<char>| #[trigger]
                    slot_of(slots_view(kept@), q) == match slot_of(
                        v0.take(k as int),
                        q,
                    ) {
                        Some((s, t)) => if idle_ms(t, now_ms) < ttl {
                            Some((s, t))
                        } else {
                            None
                        },
                        None => None,
                    },
            decreases rest.len(),
        {
            proof {
                assert(k < r0.len()) by {
                    assert(rest@.len() == r0.len() - k);
                }
            }
            let slot = rest.remove(0);
            let ghost e = slot_view(slot);
            let ghost kv0 = slots_view(kept@);
            proof {
                assert(slot == r0[k as int]);
                assert(e == v0[k as int]);
                assert(rest@ =~= r0.skip(k + 1));
                assert(v0.take(k + 1).drop_last() =~= v0.take(k as int));
                assert(v0.take(k + 1).last() == e);
                assert forall|j: int| 0 <= j < kv0.len() implies kv0[j].id != e.id by {
                    assert(kv0[j] == slot_view(kept@[j]));
                    let m = choose|m: int| 0 <= m < k && #[trigger] slot_view(kept@[j]) == v0[m];
                    assert(v0[m].id != v0[k as int].id);
                }
                lemma_find_slot(kv0, e.id);
            }
            let idle = if now_ms >= slot.last_used_ms {
                now_ms - slot.last_used_ms
            } else {
                0
            };
            if idle < ttl {
                kept.push(slot);
                proof {
                    let kv1 = slots_view(kept@);
                    assert(kv1 =~= kv0.push(e));
                    assert(kv1.drop_last() =~= kv0);
                    assert(ids_unique(kv1)) by {
                        assert forall|a: int, b: int| 0 <= a < b < kv1.len() implies kv1[a].id != kv1[b].id by {
                            if b < kv0.len() {
                                assert(kv1[a] == kv0[a] && kv1[b] == kv0[b]);
                            } else {
                                assert(kv1[a] == kv0[a]);
                            }
                        }
                    }
                    assert forall|j: int| 0 <= j < kept@.len() implies exists|m: int|
                        0 <= m < k + 1 && #[trigger] slot_view(kept@[j]) == v0[m] by {
                        if j < kv0.len() {
                            assert(slot_view(kept@[j]) == kv0[j]);
                            assert(kv0[j] == slot_view(kept@[j]));
                        } else {
                            assert(slot_view(kept@[j]) == v0[k as int]);
                        }
                    }
                    assert forall|q: Seq<char>| #[trigger]
                        slot_of(kv1, q) == match slot_of(v0.take(k + 1), q) {
                            Some((s, t)) => if idle_ms(t, now_ms) < ttl {
                                Some((s, t))
                            } else {
                                None
                            },
                            None => None,
                        } by {
                        lemma_push_slot(kv0, e, q);
                        lemma_push_slot(v0.take(k as int), e, q);
                        assert(v0.take(k + 1) =~= v0.take(k as int).push(e));
                        assert(slot_of(kv0, q) == slot_of(kv0, q));
                    }
                }
            } else {
                proof {
                    assert forall|j: int| 0 <= j < kept@.len() implies exists|m: int|
                        0 <= m < k + 1 && #[trigger] slot_view(kept@[j]) == v0[m] by {
                        let m = choose|m: int| 0 <= m < k && #[trigger] slot_view(kept@[j]) == v0[m];
                        assert(slot_view(kept@[j]) == v0[m]);
                    }
                    assert forall|q: Seq<char>| #[trigger]
                        slot_of(kv0, q) == match slot_of(v0.take(k + 1), q) {
                            Some((s, t)) => if idle_ms(t, now_ms) < ttl {
                                Some((s, t))
                            } else {
                                None
                            },
                            None => None,
                        } by {
                        lemma_push_slot(v0.take(k as int), e, q);
                        assert(v0.take(k + 1) =~= v0.take(k as int).push(e));
                    }
                }
            }
            k = k + 1;
        }
        proof {
            assert(k == r0.len()) by {
                assert(rest@.len() == 0);
            }
            assert(v0.take(k as int) =~= v0);
        }
        self.slots = kept;
    }

    /// Store `session`, used at `now_ms`, under a fresh random id, and return
    /// the id.
    pub fn create(&mut self, session: S, now_ms: u64) -> (id: String)
        ensures
            crate::text::is_uuid_text(id@, '4'),
            inserted(old(self).spec_slots(), final(self).spec_slots(), id@, session, now_ms),
            final(self).spec_ttl() == old(self).spec_ttl(),
    {
        let id = new_session_id();
        let r = id.clone();
        self.insert(id, session, now_ms);
        r
    }

    /// The session a request's metadata names (see [`session_id_of`]),
    /// marking it used at `now_ms`. `None` when the request names none or an
    /// unknown one: the caller then falls back to the principal's ephemeral
    /// session.
    pub fn resolve(&mut self, meta: &StringMap, now_ms: u64) -> (r: Option<S>)
        where
            S: Clone,
        ensures
            final(self).spec_ttl() == old(self).spec_ttl(),
            match session_id_of(meta@) {
                Some(id) => touched(old(self).spec_slots(), final(self).spec_slots(), id, now_ms)
                    && match slot_of(old(self).spec_slots(), id) {
                    Some((s, _)) => r matches Some(x) && cloned(s, x),
                    None => r is None,
                },
                None => r is None && final(self).spec_slots() == old(self).spec_slots(),
            },
    {
        match session_id_from_metadata(meta) {
            Some(id) => self.get(id.as_str(), now_ms),
            None => None,
        }
    }

    /// The value under `id`, leaving its use time as it is.
    pub fn peek(&self, id: &str) -> (r: Option<S>)
        where
            S: Clone,
        ensures
            match slot_of(self.spec_slots(), id@) {
                Some((s, _)) => r matches Some(x) && cloned(s, x),
                None => r is None,
            },
    {
        match self.position(id) {
            Some(i) => {
                proof {
                    lemma_find_slot(self.spec_slots(), id@);
                }
                assert(self.slots@.len() == self.spec_slots().len());
                let x = self.slots[i].session.clone();
                proof {
                    assert(slot_view(self.slots@[i as int]) == self.spec_slots()[i as int]);
                }
                Some(x)
            },
            None => None,
        }
    }

    /// A reference to the value under `id`, leaving its use time as it is.
    pub fn peek_ref(&self, id: &str) -> (r: Option<&S>)
        ensures
            match slot_of(self.spec_slots(), id@) {
                Some((s, _)) => r matches Some(x) && *x == s,
                None => r is None,
            },
    {
        match self.position(id) {
            Some(i) => {
                proof {
                    lemma_find_slot(self.spec_slots(), id@);
                }
                assert(self.slots@.len() == self.spec_slots().len());
                proof {
                    assert(slot_view(self.slots@[i as int]) == self.spec_slots()[i as int]);
                }
                Some(&self.slots[i].session)
            },
            None => None,
        }
    }

    /// Drop the value under `id`; whether there was one.
    pub fn remove(&mut self, id: &str) -> (r: bool)
        ensures
            r == (slot_of(old(self).spec_slots(), id@) is Some),
            final(self).spec_ttl() == old(self).spec_ttl(),
            forall|q: Seq<char>| #[trigger]
                slot_of(final(self).spec_slots(), q) == if q == id@ {
                    None
                } else {
                    slot_of(old(self).spec_slots(), q)
                },
    {
        proof {
            use_type_invariant(&*self);
        }
        let ghost v0 = self.spec_slots();
        match self.position(id) {
            Some(i) => {
                proof {
                    lemma_find_slot(v0, id@);
                }
                let mut slots = Vec::new();
                std::mem::swap(&mut slots, &mut self.slots);
                proof {
                    assert(slots_view(slots@) == v0);
                    assert(slots@.len() == v0.len());
                }
                let _gone = slots.remove(i);
                proof {
                    let v1 = slots_view(slots@);
                    assert(v1 =~= v0.remove(i as int));
                    assert(ids_unique(v1)) by {
                        assert forall|a: int, b: int| 0 <= a < b < v1.len() implies v1[a].id != v1[b].id by {
                            let a0 = if a < i { a } else { a + 1 };
                            let b0 = if b < i { b } else { b + 1 };
                            assert(v1[a] == v0[a0] && v1[b] == v0[b0]);
                        }
                    }
                    assert forall|q: Seq<char>| #[trigger]
                        slot_of(v1, q) == if q == id@ {
                            None
                        } else {
                            slot_of(v0, q)
                        } by {
                        lemma_find_slot(v0, q);
                        lemma_find_slot(v1, q);
                        if q == id@ {
                            if let Some(j) = find_slot(v1, q) {
                                let j0 = if j < i { j } else { j + 1 };
                                assert(v1[j] == v0[j0]);
                                assert(v0[j0].id == v0[i as int].id);
                            }
                        } else if let Some(j) = find_slot(v0, q) {
                            assert(j != i);
                            let j1 = if j < i { j } else { j - 1 };
                            assert(v1[j1] == v0[j]);
                            lemma_find_slot_at(v1, j1);
                        } else if let Some(j) = find_slot(v1, q) {
                            let j0 = if j < i { j } else { j + 1 };
                            assert(v1[j] == v0[j0]);
                        }
                    }
                }
                self.slots = slots;
                true
            },
            None => {
                proof {
                    assert forall|q: Seq<char>| #[trigger]
                        slot_of(self.spec_slots(), q) == if q == id@ {
                            None
                        } else {
                            slot_of(v0, q)
                        } by {
                        if q == id@ {
                            assert(find_slot(v0, q) is None);
                        }
                    }
                }
                false
            },
        }
    }
}

/// The statements a session has planned, keyed by handle. They are read
/// with [`SessionStore::peek`], which leaves their time as it is, so a sweep
/// drops those planned the TTL or longer ago.
pub type StatementStore<T> = SessionStore<T>;

/// A live session: the engine's handle for it and the statements it has
/// planned, keyed by plan handle.
pub struct LiveSession<S, T> {
    handle: S,
    statements: StatementStore<T>,
}

impl<S, T> LiveSession<S, T> {
    /// The engine's handle for the session.
    pub closed spec fn spec_handle(&self) -> S {
        self.handle
    }

    /// The engine's handle for the session.
    pub fn handle(&self) -> (r: &S)
        ensures
            *r == self.spec_handle(),
    {
        &self.handle
    }

    /// The statements, as the contracts see them.
    pub closed spec fn spec_statements(&self) -> Seq<SlotView<T>> {
        self.statements.spec_slots()
    }

    /// A session with no statements yet.
    pub fn new(handle: S) -> (r: Self)
        ensures
            r.spec_handle() == handle,
            r.spec_statements().len() == 0,
    {
        LiveSession { handle, statements: StatementStore::new(0) }
    }

    /// The statements this session has planned.
    pub fn statements(&self) -> (r: &StatementStore<T>)
        ensures
            r.spec_slots() == self.spec_statements(),
    {
        &self.statements
    }

    /// Record a statement planned at `now_ms` under its plan handle.
    pub fn put_statement(&mut self, id: String, statement: T, now_ms: u64)
        ensures
            final(self).spec_handle() == old(self).spec_handle(),
            inserted(old(self).spec_statements(), final(self).spec_statements(), id@, statement, now_ms),
    {
        self.statements.insert(id, statement, now_ms);
    }
}

/// `after` keeps the sessions of `before` idle less than `ttl` at `now`,
/// each with the same handle and last use, and with its statements planned
/// `ttl` or longer ago dropped.
pub open spec fn swept_with_statements<S, T>(
    before: Seq<SlotView<LiveSession<S, T>>>,
    after: Seq<SlotView<LiveSession<S, T>>>,
    now: u64,
    ttl: u64,
) -> bool {
    forall|q: Seq<char>|
        match (slot_of(before, q), #[trigger] slot_of(after, q)) {
            (Some((s1, t1)), Some((s2, t2))) => idle_ms(t1, now) < ttl && t2 == t1 && s2.spec_handle() == s1.spec_handle()
                && swept(s1.spec_statements(), s2.spec_statements(), now, ttl),
            (Some((_, t1)), None) => idle_ms(t1, now) >= ttl,
            (None, Some(_)) => false,
            (None, None) => true,
        }
}

proof fn lemma_find_slot_same_ids<A>(v: Seq<SlotView<A>>, w: Seq<SlotView<A>>, id: Seq<char>)
    requires
        v.len() == w.len(),
        forall|i: int| 0 <= i < v.len() ==> #[trigger] v[i].id == w[i].id,
    ensures
        find_slot(v, id) == find_slot(w, id),
    decreases v.len(),
{
    if v.len() > 0 {
        let (dv, dw) = (v.drop_last(), w.drop_last());
        assert forall|i: int| 0 <= i < dv.len() implies #[trigger] dv[i].id == dw[i].id by {
            assert(dv[i] == v[i] && dw[i] == w[i]);
        }
        lemma_find_slot_same_ids(dv, dw, id);
    }
}

impl<S, T> SessionStore<LiveSession<S, T>> {
    /// Evict the sessions idle the TTL or longer at `now_ms`, and drop from
    /// the sessions that stay the statements planned the TTL or longer ago.
    pub fn sweep_with_statements(&mut self, now_ms: u64)
        ensures
            swept_with_statements(old(self).spec_slots(), final(self).spec_slots(), now_ms, old(self).spec_ttl()),
            final(self).spec_ttl() == old(self).spec_ttl(),
    {
        let ttl = self.ttl_ms;
        let ghost v0 = self.spec_slots();
        self.evict_idle(now_ms, ttl);
        proof {
            use_type_invariant(&*self);
        }
        let ghost v1 = self.spec_slots();
        let mut rest = Vec::new();
        std::mem::swap(&mut rest, &mut self.slots);
        let ghost r1 = rest@;
        proof {
            assert(r1.len() == rest.len());
            assert(slots_view(r1) == v1);
            assert(r1.skip(0) =~= r1);
        }
        let mut out: Vec<SessionSlot<LiveSession<S, T>>> = Vec::new();
        let mut k: usize = 0;
        while rest.len() > 0
            invariant
                k <= r1.len(),
                r1.len() <= usize::MAX,
                v1 == slots_view(r1),
                rest@ == r1.skip(k as int),
                out@.len() == k,
                forall|j: int|
                    0 <= j < k ==> {
                        let (a, b) = (#[trigger] slot_view(out@[j]), v1[j]);
                        &&& a.id == b.id
                        &&& a.last_used == b.last_used
                        &&& a.session.spec_handle() == b.session.spec_handle()
                        &&& swept(b.session.spec_statements(), a.session.spec_statements(), now_ms, ttl)
                    },
            decreases rest.len(),
        {
            proof {
                assert(rest@.len() == r1.len() - k);
            }
            let mut slot = rest.remove(0);
            proof {
                assert(slot == r1[k as int]);
                assert(slot_view(slot) == v1[k as int]);
                assert(rest@ =~= r1.skip(k + 1));
            }
            slot.session.statements.evict_idle(now_ms, ttl);
            let ghost out0 = out@;
            out.push(slot);
            proof {
                assert forall|j: int| 0 <= j < k + 1 implies {
                    let (a, b) = (#[trigger] slot_view(out@[j]), v1[j]);
                    &&& a.id == b.id
                    &&& a.last_used == b.last_used
                    &&& a.session.spec_handle() == b.session.spec_handle()
                    &&& swept(b.session.spec_statements(), a.session.spec_statements(), now_ms, ttl)
                } by {
                    if j < k {
                        assert(out@[j] == out0[j]);
                    }
                }
            }
            k = k + 1;
        }
        let ghost w = slots_view(out@);
        proof {
            assert(k == r1.len()) by {
                assert(rest@.len() == 0);
            }
            assert forall|i: int| 0 <= i < w.len() implies #[trigger] w[i].id == v1[i].id by {
                assert(w[i] == slot_view(out@[i]));
            }
            assert(ids_unique(w)) by {
                assert forall|a: int, b: int| 0 <= a < b < w.len() implies w[a].id != w[b].id by {
                    assert(w[a].id == v1[a].id && w[b].id == v1[b].id);
                }
            }
        }
        self.slots = out;
        proof {
            assert forall|q: Seq<char>|
                match (slot_of(v0, q), #[trigger] slot_of(w, q)) {
                    (Some((s1, t1)), Some((s2, t2))) => idle_ms(t1, now_ms) < ttl && t2 == t1 && s2.spec_handle()
                        == s1.spec_handle() && swept(s1.spec_statements(), s2.spec_statements(), now_ms, ttl),
                    (Some((_, t1)), None) => idle_ms(t1, now_ms) >= ttl,
                    (None, Some(_)) => false,
                    (None, None) => true,
                } by {
                assert forall|i: int| 0 <= i < v1.len() implies #[trigger] v1[i].id == w[i].id by {
                    assert(w[i] == slot_view(out@[i]));
                }
                lemma_find_slot_same_ids(v1, w, q);
                assert(swept(v0, v1, now_ms, ttl));
                assert(slot_of(v1, q) == match slot_of(v0, q) {
                    Some((s, t)) => if idle_ms(t, now_ms) < ttl {
                        Some((s, t))
                    } else {
                        None
                    },
                    None => None,
                });
                if let Some(i) = find_slot(w, q) {
                    lemma_find_slot(w, q);
                    assert(w[i] == slot_view(out@[i]));
                    assert(slot_of(w, q) == Some((w[i].session, w[i].last_used)));
                    assert(slot_of(v1, q) == Some((v1[i].session, v1[i].last_used)));
                } else {
                    assert(slot_of(v1, q) is None);
                }
            }
        }
    }
}

/// The engine's process-wide enrichment cache: what the identity provider
/// gave for each principal uid, so that sessions of one user share one
/// provider call.
pub struct EnrichmentCache<E> {
    by_uid: SessionStore<E>,
}

impl<E> EnrichmentCache<E> {
    /// The enrichment cached for `uid`, if any.
    pub closed spec fn spec_cached(&self, uid: Seq<char>) -> Option<E> {
        match slot_of(self.by_uid.spec_slots(), uid) {
            Some((e, _)) => Some(e),
            None => None,
        }
    }

    /// An empty cache.
    pub fn new() -> (r: Self)
        ensures
            forall|uid: Seq<char>| #[trigger] r.spec_cached(uid) is None,
    {
        let r = EnrichmentCache { by_uid: SessionStore::new(0) };
        assert forall|uid: Seq<char>| #[trigger] r.spec_cached(uid) is None by {
            assert(r.by_uid.spec_slots().len() == 0);
        }
        r
    }

    /// The cached enrichment of `uid`: when there is one, the provider is not
    /// asked.
    pub fn cached(&self, uid: &str) -> (r: Option<E>)
        where
            E: Clone,
        ensures
            match self.spec_cached(uid@) {
                Some(e) => r matches Some(x) && cloned(e, x),
                None => r is None,
            },
    {
        self.by_uid.peek(uid)
    }

    /// Settle the provider's answer for `uid`: a success is cached and
    /// returned; an error is returned as it is and caches nothing, so the
    /// caller fails the session rather than going on unenriched.
    pub fn settle(&mut self, uid: String, answer: Result<E, String>) -> (r: Result<E, String>)
        where
            E: Clone,
        ensures
            match answer {
                Ok(e) => (r matches Ok(x) && cloned(e, x)) && forall|q: Seq<char>| #[trigger]
                    final(self).spec_cached(q) == if q == uid@ {
                        Some(e)
                    } else {
                        old(self).spec_cached(q)
                    },
                Err(m) => r == Err::<E, String>(m) && forall|q: Seq<char>| #[trigger]
                    final(self).spec_cached(q) == old(self).spec_cached(q),
            },
    {
        match answer {
            Ok(e) => {
                let x = e.clone();
                self.by_uid.insert(uid, e, 0);
                proof {
                    assert forall|q: Seq<char>| #[trigger]
                        self.spec_cached(q) == if q == uid@ {
                            Some(e)
                        } else {
                            old(self).spec_cached(q)
                        } by {
                        assert(slot_of(self.by_uid.spec_slots(), q) == slot_of(self.by_uid.spec_slots(), q));
                    }
                }
                Ok(x)
            },
            Err(m) => Err(m),
        }
    }
}

/// `Plan handle not found: <handle>`
pub fn plan_handle_not_found(handle: &str) -> (r: String)
    ensures
        r@ == "Plan handle not found: "@ + handle@,
{
    let mut r = owned("Plan handle not found: ");
    r.append(handle);
    r
}

/// A fresh random session id: uuid's `Uuid::new_v4()`, whose `Display`
/// writes the hyphenated lowercase form with version digit `4`. Only that
/// form is promised: the digits rest on chance.
#[verifier::external_body]
fn new_session_id() -> (r: String)
    ensures
        crate::text::is_uuid_text(r@, '4'),
{
    uuid::Uuid::new_v4().to_string()
}

/// `ephemeral:<uid>`
pub open spec fn ephemeral_key_text(uid: Seq<char>) -> Seq<char> {
    "ephemeral:"@ + uid
}

/// The key of the stable session of a principal that did not establish one:
/// `ephemeral:<uid>`.
pub fn ephemeral_key(uid: &str) -> (r: String)
    ensures
        r@ == ephemeral_key_text(uid@),
{
    let mut r = owned("ephemeral:");
    r.append(uid);
    r
}

/// A created session resolves by its id, as it was stored.
pub proof fn lemma_get_after_create<S>(
    before: Seq<SlotView<S>>,
    after: Seq<SlotView<S>>,
    id: Seq<char>,
    s: S,
    t: u64,
)
    requires
        inserted(before, after, id, s, t),
    ensures
        slot_of(after, id) == Some((s, t)),
{
    assert(slot_of(after, id) == Some((s, t)));
}

/// Storing a session leaves every other id as it was.
pub proof fn lemma_insert_keeps_others<S>(
    before: Seq<SlotView<S>>,
    after: Seq<SlotView<S>>,
    id: Seq<char>,
    s: S,
    t: u64,
    other: Seq<char>,
)
    requires
        inserted(before, after, id, s, t),
        other != id,
    ensures
        slot_of(after, other) == slot_of(before, other),
{
    assert(slot_of(after, other) == slot_of(before, other));
}

/// The ephemeral session of a principal is stable: once stored, resolving
/// the principal's key again hands back the same session, only marked used.
pub proof fn lemma_ephemeral_stable<S>(
    s0: Seq<SlotView<S>>,
    s1: Seq<SlotView<S>>,
    s2: Seq<SlotView<S>>,
    uid: Seq<char>,
    session: S,
    t1: u64,
    t2: u64,
)
    requires
        inserted(s0, s1, ephemeral_key_text(uid), session, t1),
        touched(s1, s2, ephemeral_key_text(uid), t2),
    ensures
        slot_of(s2, ephemeral_key_text(uid)) == Some((session, t2)),
{
    let k = ephemeral_key_text(uid);
    assert(slot_of(s1, k) == Some((session, t1)));
    assert(slot_of(s2, k) == Some((session, t2)));
}

/// Distinct principals have distinct ephemeral keys, hence distinct
/// sessions.
pub proof fn lemma_ephemeral_keys_distinct(a: Seq<char>, b: Seq<char>)
    requires
        a != b,
    ensures
        ephemeral_key_text(a) != ephemeral_key_text(b),
{
    let p = "ephemeral:"@;
    if ephemeral_key_text(a) == ephemeral_key_text(b) {
        assert(a =~= ephemeral_key_text(a).subrange(p.len() as int, ephemeral_key_text(a).len() as int));
        assert(b =~= ephemeral_key_text(b).subrange(p.len() as int, ephemeral_key_text(b).len() as int));
    }
}

/// With a zero TTL a sweep evicts every session.
pub proof fn lemma_zero_ttl_evicts_all<S>(before: Seq<SlotView<S>>, after: Seq<SlotView<S>>, now: u64, q: Seq<char>)
    requires
        swept(before, after, now, 0),
    ensures
        slot_of(after, q) is None,
{
    assert(slot_of(after, q) is None);
}

/// A sweep keeps every session idle less than the TTL, as it was, and only
/// those.
pub proof fn lemma_sweep_keeps_fresh<S>(
    before: Seq<SlotView<S>>,
    after: Seq<SlotView<S>>,
    now: u64,
    ttl: u64,
    id: Seq<char>,
)
    requires
        swept(before, after, now, ttl),
    ensures
        slot_of(after, id) is Some <==> (slot_of(before, id) matches Some((_, t)) && idle_ms(t, now)
            < ttl),
        slot_of(after, id) is Some ==> slot_of(after, id) == slot_of(before, id),
{
    assert(slot_of(after, id) == slot_of(after, id));
}

/// A session resolved at `now` survives a sweep at `now` under any positive
/// TTL.
pub proof fn lemma_touched_survives_sweep<S>(
    s0: Seq<SlotView<S>>,
    s1: Seq<SlotView<S>>,
    s2: Seq<SlotView<S>>,
    id: Seq<char>,
    now: u64,
    ttl: u64,
)
    requires
        slot_of(s0, id) is Some,
        touched(s0, s1, id, now),
        swept(s1, s2, now, ttl),
        ttl > 0,
    ensures
        slot_of(s2, id) is Some,
{
    assert(slot_of(s1, id) == Some((slot_of(s0, id).unwrap().0, now)));
    assert(slot_of(s2, id) is Some);
}

} // verus!
