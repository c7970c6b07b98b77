//! In-flight WebAuthn ceremonies: pending registration and authentication sessions keyed by
//! a session id, with a time-to-live.
//!
//! Times are monotonic milliseconds (the application measures them from a fixed instant).
use vstd::prelude::*;

verus! {

/// Challenge sessions expire after 5 minutes (300 000 ms).
pub const PENDING_SESSION_TTL_MS: u64 = 300_000;

/// Milliseconds elapsed from `created_at` to `now` (0 when the clock reads earlier).
pub open spec fn elapsed(created_at: u64, now: u64) -> int {
    if now >= created_at {
        now - created_at
    } else {
        0
    }
}

/// A session created at `created_at` is kept by eviction at `now`: it is younger than the TTL.
pub open spec fn kept_by_eviction(created_at: u64, now: u64) -> bool {
    created_at as int > now as int - PENDING_SESSION_TTL_MS as int
}

/// Table of pending sessions: session id to (creation time, session data).
pub struct PendingTable<T> {
    entries: Vec<(u128, u64, T)>,
}

/// No session id occurs twice.
pub open spec fn ids_unique<T>(s: Seq<(u128, u64, T)>) -> bool {
    forall|i: int, j: int| 0 <= i < s.len() && 0 <= j < s.len() && i != j ==> (#[trigger] s[i]).0
        != (#[trigger] s[j]).0
}

/// The id set of a list of sessions.
pub open spec fn has_id<T>(s: Seq<(u128, u64, T)>, id: u128) -> bool {
    exists|i: int| 0 <= i < s.len() && (#[trigger] s[i]).0 == id
}

/// The map that a list of sessions stands for.
pub open spec fn table_map<T>(s: Seq<(u128, u64, T)>) -> Map<u128, (u64, T)> {
    Map::new(
        |id: u128| has_id(s, id),
        |id: u128|
            {
                let e = s[choose|i: int| 0 <= i < s.len() && (#[trigger] s[i]).0 == id];
                (e.1, e.2)
            },
    )
}

/// The sessions kept by eviction at `now`.
pub open spec fn evict_sessions<T>(m: Map<u128, (u64, T)>, now: u64) -> Map<u128, (u64, T)> {
    m.restrict(m.dom().filter(|id: u128| kept_by_eviction(m[id].0, now)))
}

proof fn lemma_table_map_at<T>(s: Seq<(u128, u64, T)>, i: int)
    requires
        ids_unique(s),
        0 <= i < s.len(),
    ensures
        table_map(s).contains_key(s[i].0),
        table_map(s)[s[i].0] == (s[i].1, s[i].2),
{
    let id = s[i].0;
    assert(has_id(s, id));
    let j = choose|j: int| 0 <= j < s.len() && (#[trigger] s[j]).0 == id;
    assert(j == i);
}

proof fn lemma_table_map_push<T>(s: Seq<(u128, u64, T)>, e: (u128, u64, T))
    requires
        ids_unique(s),
        !has_id(s, e.0),
    ensures
        ids_unique(s.push(e)),
        table_map(s.push(e)) =~= table_map(s).insert(e.0, (e.1, e.2)),
{
    let t = s.push(e);
    assert forall|i: int, j: int| 0 <= i < t.len() && 0 <= j < t.len() && i != j implies (
    #[trigger] t[i]).0 != (#[trigger] t[j]).0 by {
        if i < s.len() && j < s.len() {
            assert(t[i] == s[i] && t[j] == s[j]);
        } else if i < s.len() {
            assert(t[i] == s[i]);
        } else {
            assert(t[j] == s[j]);
        }
    }
    assert forall|q: u128| #[trigger] table_map(t).contains_key(q) <==> table_map(s).insert(
        e.0,
        (e.1, e.2),
    ).contains_key(q) by {
        if has_id(s, q) {
            let i = choose|i: int| 0 <= i < s.len() && (#[trigger] s[i]).0 == q;
            assert(t[i] == s[i]);
        }
        if has_id(t, q) && q != e.0 {
            let i = choose|i: int| 0 <= i < t.len() && (#[trigger] t[i]).0 == q;
            assert(s[i] == t[i]);
        }
        if q == e.0 {
            assert(t[s.len() as int].0 == q);
        }
    }
    assert forall|q: u128| #[trigger] table_map(t).contains_key(q) implies table_map(t)[q]
        == table_map(s).insert(e.0, (e.1, e.2))[q] by {
        let i = choose|i: int| 0 <= i < t.len() && (#[trigger] t[i]).0 == q;
        lemma_table_map_at(t, i);
        if i < s.len() {
            assert(t[i] == s[i]);
            lemma_table_map_at(s, i);
        }
    }
}

/// Removing the entry at `i` removes its id from the map.
proof fn lemma_table_map_remove<T>(s: Seq<(u128, u64, T)>, i: int)
    requires
        ids_unique(s),
        0 <= i < s.len(),
    ensures
        ids_unique(s.remove(i)),
        table_map(s.remove(i)) =~= table_map(s).remove(s[i].0),
{
    let t = s.remove(i);
    assert forall|a: int, b: int| 0 <= a < t.len() && 0 <= b < t.len() && a != b implies (
    #[trigger] t[a]).0 != (#[trigger] t[b]).0 by {
        let a2 = if a < i { a } else { a + 1 };
        let b2 = if b < i { b } else { b + 1 };
        assert(t[a] == s[a2] && t[b] == s[b2]);
    }
    assert forall|q: u128| #[trigger] table_map(t).contains_key(q) <==> table_map(s).remove(
        s[i].0,
    ).contains_key(q) by {
        if has_id(t, q) {
            let a = choose|a: int| 0 <= a < t.len() && (#[trigger] t[a]).0 == q;
            let a2 = if a < i { a } else { a + 1 };
            assert(t[a] == s[a2]);
            assert(a2 != i);
        }
        if has_id(s, q) && q != s[i].0 {
            let a = choose|a: int| 0 <= a < s.len() && (#[trigger] s[a]).0 == q;
            assert(a != i);
            let a2 = if a < i { a } else { a - 1 };
            assert(t[a2] == s[a]);
        }
    }
    assert forall|q: u128| #[trigger] table_map(t).contains_key(q) implies table_map(t)[q]
        == table_map(s).remove(s[i].0)[q] by {
        let a = choose|a: int| 0 <= a < t.len() && (#[trigger] t[a]).0 == q;
        let a2 = if a < i { a } else { a + 1 };
        assert(t[a] == s[a2]);
        lemma_table_map_at(t, a);
        lemma_table_map_at(s, a2);
    }
}

impl<T> PendingTable<T> {
    /// No session id is recorded twice.
    pub closed spec fn wf(&self) -> bool {
        ids_unique(self.entries@)
    }

    /// An empty table.
    pub fn new() -> (t: PendingTable<T>)
        ensures
            t.wf(),
            t@ == Map::<u128, (u64, T)>::empty(),
    {
        let t = PendingTable { entries: Vec::new() };
        proof {
            assert(t@ =~= Map::<u128, (u64, T)>::empty());
        }
        t
    }

    /// Number of pending sessions.
    pub fn len(&self) -> (n: usize)
        requires
            self.wf(),
        ensures
            n == self@.len(),
    {
        proof {
            self.lemma_len();
        }
        self.entries.len()
    }

    proof fn lemma_len(&self)
        requires
            self.wf(),
        ensures
            self@.dom().finite(),
            self@.len() == self.entries@.len(),
        decreases self.entries@.len(),
    {
        let s = self.entries@;
        assert(self@.dom() =~= Set::new(|q: u128| has_id(s, q)));
        lemma_ids_len(s);
    }

    fn position(&self, id: u128) -> (r: Option<usize>)
        ensures
            r matches Some(i) ==> i < self.entries@.len() && self.entries@[i as int].0 == id,
            r is None ==> !has_id(self.entries@, id),
    {
        let mut i: usize = 0;
        while i < self.entries.len()
            invariant
                i <= self.entries@.len(),
                forall|k: int| 0 <= k < i ==> (#[trigger] self.entries@[k]).0 != id,
            decreases self.entries@.len() - i,
        {
            if self.entries[i].0 == id {
                return Some(i);
            }
            i = i + 1;
        }
        None
    }

    /// Records session `id`, created at `created_at`, replacing any session with that id.
    pub fn insert(&mut self, id: u128, created_at: u64, value: T)
        requires
            old(self).wf(),
        ensures
            final(self).wf(),
            final(self)@ == old(self)@.insert(id, (created_at, value)),
    {
        if let Some(i) = self.position(id) {
            let ghost s = self.entries@;
            proof {
                lemma_table_map_remove(s, i as int);
            }
            let _old = self.entries.remove(i);
            proof {
                assert(self.entries@ =~= s.remove(i as int));
                assert(!has_id(self.entries@, id)) by {
                    if has_id(self.entries@, id) {
                        let a = choose|a: int| 0 <= a < self.entries@.len() && (#[trigger] self.entries@[a]).0 == id;
                        let a2 = if a < i { a } else { a + 1 };
                        assert(self.entries@[a] == s[a2]);
                    }
                }
            }
        }
        proof {
            lemma_table_map_push(self.entries@, (id, created_at, value));
        }
        self.entries.push((id, created_at, value));
        proof {
            assert(self@ =~= old(self)@.insert(id, (created_at, value)));
        }
    }

    /// Removes session `id` and hands it out with its creation time.
    pub fn take(&mut self, id: u128) -> (r: Option<(u64, T)>)
        requires
            old(self).wf(),
        ensures
            final(self).wf(),
            final(self)@ == old(self)@.remove(id),
            old(self)@.contains_key(id) ==> r == Some(old(self)@[id]),
            !old(self)@.contains_key(id) ==> r is None,
    {
        match self.position(id) {
            None => {
                proof {
                    assert(self@ =~= old(self)@.remove(id));
                }
                None
            },
            Some(i) => {
                let ghost s = self.entries@;
                proof {
                    lemma_table_map_remove(s, i as int);
                    lemma_table_map_at(s, i as int);
                }
                let e = self.entries.remove(i);
                proof {
                    assert(self.entries@ =~= s.remove(i as int));
                }
                Some((e.1, e.2))
            },
        }
    }

    /// Drops every session that is not younger than the TTL at `now`.
    pub fn evict_expired(&mut self, now: u64)
        requires
            old(self).wf(),
        ensures
            final(self).wf(),
            final(self)@ == evict_sessions(old(self)@, now),
    {
        let ghost m0 = self@;
        let mut i: usize = 0;
        while i < self.entries.len()
            invariant
                i <= self.entries@.len(),
                ids_unique(self.entries@),
                forall|k: int| 0 <= k < i ==> kept_by_eviction(#[trigger] self.entries@[k].1, now),
                forall|q: u128| #[trigger] table_map(self.entries@).contains_key(q) ==> m0.contains_key(q)
                    && table_map(self.entries@)[q] == m0[q],
                forall|q: u128| #[trigger] m0.contains_key(q) && kept_by_eviction(m0[q].0, now)
                    ==> table_map(self.entries@).contains_key(q),
                forall|q: u128| #[trigger] m0.contains_key(q) && !kept_by_eviction(m0[q].0, now)
                    && !(exists|k: int| i <= k < self.entries@.len() && (#[trigger] self.entries@[k]).0 == q)
                    ==> !table_map(self.entries@).contains_key(q),
            decreases self.entries@.len() - i,
        {
            if self.entries[i].1 > now || now - self.entries[i].1 < PENDING_SESSION_TTL_MS {
                proof {
                    assert(kept_by_eviction(self.entries@[i as int].1, now));
                }
                i = i + 1;
            } else {
                let ghost s = self.entries@;
                proof {
                    lemma_table_map_remove(s, i as int);
                    lemma_table_map_at(s, i as int);
                }
                let _gone = self.entries.remove(i);
                proof {
                    assert(self.entries@ =~= s.remove(i as int));
                    assert forall|q: u128| #[trigger] m0.contains_key(q) && !kept_by_eviction(m0[q].0, now)
                        && !(exists|k: int| i <= k < self.entries@.len() && (#[trigger] self.entries@[k]).0 == q)
                        implies !table_map(self.entries@).contains_key(q) by {
                        if q != s[i as int].0 {
                            if exists|k: int| i <= k < s.len() && (#[trigger] s[k]).0 == q {
                                let k = choose|k: int| i <= k < s.len() && (#[trigger] s[k]).0 == q;
                                assert(k != i);
                                assert(self.entries@[k - 1] == s[k]);
                            }
                        }
                    }
                    assert forall|k: int| 0 <= k < i implies kept_by_eviction(
                        #[trigger] self.entries@[k].1,
                        now,
                    ) by {
                        assert(self.entries@[k] == s[k]);
                    }
                }
            }
        }
        proof {
            assert(self@ =~= evict_sessions(m0, now));
        }
    }
}

/// A finite list of distinct ids has as many ids as entries.
proof fn lemma_ids_len<T>(s: Seq<(u128, u64, T)>)
    requires
        ids_unique(s),
    ensures
        Set::new(|q: u128| has_id(s, q)).finite(),
        Set::new(|q: u128| has_id(s, q)).len() == s.len(),
    decreases s.len(),
{
    let full = Set::new(|q: u128| has_id(s, q));
    if s.len() == 0 {
        assert(full =~= Set::<u128>::empty());
    } else {
        let p = s.drop_last();
        assert forall|i: int, j: int| 0 <= i < p.len() && 0 <= j < p.len() && i != j implies (
        #[trigger] p[i]).0 != (#[trigger] p[j]).0 by {
            assert(p[i] == s[i] && p[j] == s[j]);
        }
        lemma_ids_len(p);
        let part = Set::new(|q: u128| has_id(p, q));
        let last = s[s.len() - 1].0;
        assert(!part.contains(last)) by {
            if has_id(p, last) {
                let i = choose|i: int| 0 <= i < p.len() && (#[trigger] p[i]).0 == last;
                assert(p[i] == s[i]);
            }
        }
        assert forall|q: u128| full.contains(q) <==> #[trigger] part.insert(last).contains(q) by {
            if has_id(s, q) && q != last {
                let i = choose|i: int| 0 <= i < s.len() && (#[trigger] s[i]).0 == q;
                assert(i < s.len() - 1);
                assert(p[i] == s[i]);
            }
            if has_id(p, q) {
                let i = choose|i: int| 0 <= i < p.len() && (#[trigger] p[i]).0 == q;
                assert(p[i] == s[i]);
            }
        }
        assert(full =~= part.insert(last));
    }
}

impl<T> View for PendingTable<T> {
    type V = Map<u128, (u64, T)>;

    closed spec fn view(&self) -> Map<u128, (u64, T)> {
        table_map(self.entries@)
    }
}

} // verus!
