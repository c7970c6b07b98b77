//! In-memory JWT-ID store for replay protection and logout revocation.
use vstd::prelude::*;

use crate::text::{concat_str, to_owned_string};

verus! {

/// Errors of token handling.
#[derive(Debug)]
pub enum OidcError {
    /// The JWT library refused the token; the text is its message.
    Jwt(String),
    /// The token has expired.
    Expired,
    /// The token was issued for another audience.
    InvalidAudience,
    /// The token's JWT ID was already used or has been revoked.
    JtiReplay,
    /// The token lifetime does not fit the timestamp range.
    InvalidTtl,
    /// The claims could not be (de)serialised; the text is the serialiser's message.
    Serialization(String),
}

impl OidcError {
    /// The display form of the error.
    pub fn to_string(&self) -> (r: String)
        ensures
            self matches OidcError::Jwt(m) ==> r@ == "JWT error: "@ + m@,
            self is Expired ==> r@ == "token expired"@,
            self is InvalidAudience ==> r@ == "invalid audience"@,
            self is JtiReplay ==> r@ == "JTI replay detected"@,
            self is InvalidTtl ==> r@ == "invalid token TTL (overflow or out of i64 range)"@,
            self matches OidcError::Serialization(m) ==> r@ == "serialization error: "@ + m@,
    {
        match self {
            OidcError::Jwt(m) => concat_str("JWT error: ", m.as_str()),
            OidcError::Expired => to_owned_string("token expired"),
            OidcError::InvalidAudience => to_owned_string("invalid audience"),
            OidcError::JtiReplay => to_owned_string("JTI replay detected"),
            OidcError::InvalidTtl => to_owned_string("invalid token TTL (overflow or out of i64 range)"),
            OidcError::Serialization(m) => concat_str("serialization error: ", m.as_str()),
        }
    }
}

/// Current Unix time in whole seconds (`SystemTime::now()` since `UNIX_EPOCH`, or 0 when the
/// clock is before the epoch). Nothing is claimed of the value: it is the clock's reading.
#[verifier::external_body]
pub(crate) fn now_unix() -> i64 {
    std::time::SystemTime::now().duration_since(std::time::UNIX_EPOCH).unwrap_or_default().as_secs()
        as i64
}

/// `t` is a reading that the system clock can give: a possible result of `now_unix`.
pub closed spec fn is_clock_reading(t: i64) -> bool {
    call_ensures(now_unix, (), t)
}

/// Reads the system clock (`now_unix`), recording that the value is a clock reading.
pub(crate) fn read_clock() -> (t: i64)
    ensures
        is_clock_reading(t),
{
    let clock = now_unix;
    clock()
}

/// The key set of a list of `(jti, exp)` entries.
pub open spec fn has_key(s: Seq<(Seq<char>, i64)>, k: Seq<char>) -> bool {
    exists|i: int| 0 <= i < s.len() && (#[trigger] s[i]).0 == k
}

/// No JWT ID occurs twice in the list.
pub open spec fn keys_unique(s: Seq<(Seq<char>, i64)>) -> bool {
    forall|i: int, j: int| 0 <= i < s.len() && 0 <= j < s.len() && i != j ==> (#[trigger] s[i]).0
        != (#[trigger] s[j]).0
}

/// The map from JWT ID to expiry that a list of entries stands for.
pub open spec fn map_of(s: Seq<(Seq<char>, i64)>) -> Map<Seq<char>, i64> {
    Map::new(
        |k: Seq<char>| has_key(s, k),
        |k: Seq<char>| s[choose|i: int| 0 <= i < s.len() && (#[trigger] s[i]).0 == k].1,
    )
}

/// The entries that are still alive at `now` (expiry strictly after `now`).
pub open spec fn evict(m: Map<Seq<char>, i64>, now: i64) -> Map<Seq<char>, i64> {
    m.restrict(m.dom().filter(|k: Seq<char>| m[k] > now))
}

/// `jti` is revoked at `now`: present with an expiry strictly after `now`.
pub open spec fn blacklisted(m: Map<Seq<char>, i64>, jti: Seq<char>, now: i64) -> bool {
    m.contains_key(jti) && m[jti] > now
}

/// The store after `blacklist(jti, exp)` at time `now`: expired entries evicted, then `jti`
/// recorded with expiry `exp` (replacing any earlier expiry).
pub open spec fn blacklist_step(m: Map<Seq<char>, i64>, jti: Seq<char>, exp: i64, now: i64) -> Map<
    Seq<char>,
    i64,
> {
    evict(m, now).insert(jti, exp)
}

/// Whether `check_and_insert(jti, ..)` at time `now` refuses the token as a replay.
pub open spec fn is_replay(m: Map<Seq<char>, i64>, jti: Seq<char>, now: i64) -> bool {
    evict(m, now).contains_key(jti)
}

/// The store after `check_and_insert(jti, exp)` at time `now`: expired entries evicted, then
/// `jti` recorded unless it was still present.
pub open spec fn check_insert_step(m: Map<Seq<char>, i64>, jti: Seq<char>, exp: i64, now: i64) -> Map<
    Seq<char>,
    i64,
> {
    if is_replay(m, jti, now) {
        evict(m, now)
    } else {
        evict(m, now).insert(jti, exp)
    }
}

/// A token accepted once is refused as a replay by every later check made before its expiry.
pub proof fn lemma_accepted_token_is_replayed(
    m: Map<Seq<char>, i64>,
    jti: Seq<char>,
    exp: i64,
    now: i64,
    later: i64,
)
    requires
        !is_replay(m, jti, now),
        later < exp,
    ensures
        is_replay(check_insert_step(m, jti, exp, now), jti, later),
{
    let m1 = check_insert_step(m, jti, exp, now);
    assert(m1.contains_key(jti) && m1[jti] == exp);
    assert(evict(m1, later).contains_key(jti));
}

/// A token is refused as a replay exactly while an unexpired entry for its JWT ID is held.
pub proof fn lemma_replay_iff_blacklisted(m: Map<Seq<char>, i64>, jti: Seq<char>, now: i64)
    ensures
        is_replay(m, jti, now) == blacklisted(m, jti, now),
{
}

/// A blacklisted token stays blacklisted until its expiry, and no longer.
pub proof fn lemma_blacklist_holds_until_expiry(
    m: Map<Seq<char>, i64>,
    jti: Seq<char>,
    exp: i64,
    now: i64,
    later: i64,
)
    ensures
        blacklisted(blacklist_step(m, jti, exp, now), jti, later) == (exp > later),
{
}

/// While the clock is before its expiry, an entry for `jti` survives every update that targets
/// another JWT ID, and every `check_and_insert` of `jti` itself is refused as a replay and keeps
/// it; whatever the clock, the entry blacklists `jti` exactly before its expiry. So after
/// `blacklist(jti, exp)`, through any later calls that do not blacklist `jti` again, with a clock
/// that does not go back, `jti` is blacklisted exactly until `exp`.
pub proof fn lemma_entry_survives_other_updates(
    m: Map<Seq<char>, i64>,
    jti: Seq<char>,
    exp: i64,
    other: Seq<char>,
    e: i64,
    now: i64,
)
    requires
        m.contains_key(jti),
        m[jti] == exp,
    ensures
        forall|later: i64| #[trigger] blacklisted(m, jti, later) == (later < exp),
        now < exp && other != jti ==> check_insert_step(m, other, e, now).contains_key(jti)
            && check_insert_step(m, other, e, now)[jti] == exp,
        now < exp && other != jti ==> blacklist_step(m, other, e, now).contains_key(jti)
            && blacklist_step(m, other, e, now)[jti] == exp,
        now < exp ==> is_replay(m, jti, now) && check_insert_step(m, jti, e, now) == evict(m, now)
            && evict(m, now).contains_key(jti) && evict(m, now)[jti] == exp,
{
    if now < exp {
        assert(evict(m, now).contains_key(jti));
    }
}

/// A JWT ID whose entry has expired (or that was never seen) is accepted again.
pub proof fn lemma_expired_jti_is_reusable(m: Map<Seq<char>, i64>, jti: Seq<char>, now: i64)
    requires
        m.contains_key(jti) ==> m[jti] <= now,
    ensures
        !is_replay(m, jti, now),
{
}

/// After any update at time `now`, every entry but the one just recorded is still alive:
/// expired entries never accumulate.
pub proof fn lemma_store_stays_bounded(
    m: Map<Seq<char>, i64>,
    jti: Seq<char>,
    exp: i64,
    now: i64,
)
    ensures
        forall|k: Seq<char>| #[trigger] check_insert_step(m, jti, exp, now).contains_key(k) && k != jti
            ==> check_insert_step(m, jti, exp, now)[k] > now,
        forall|k: Seq<char>| #[trigger] blacklist_step(m, jti, exp, now).contains_key(k) && k != jti
            ==> blacklist_step(m, jti, exp, now)[k] > now,
{
}

/// What `check_and_insert(jti, exp)` does to the store `before`, giving `after` and `res`, at
/// clock reading `now`: evict, then refuse a JWT ID still present, or record it.
pub open spec fn check_outcome(
    before: Map<Seq<char>, i64>,
    jti: Seq<char>,
    exp: i64,
    after: Map<Seq<char>, i64>,
    res: Result<(), OidcError>,
    now: i64,
) -> bool {
    &&& after == check_insert_step(before, jti, exp, now)
    &&& (is_replay(before, jti, now) ==> res matches Err(OidcError::JtiReplay))
    &&& (!is_replay(before, jti, now) ==> res is Ok)
}

/// A JWT ID that `check_and_insert` accepted with expiry `exp` is refused by the next
/// `check_and_insert` of the same ID whenever the clock then still reads before `exp`, and its
/// entry is kept with the same expiry.
pub proof fn lemma_consumed_jti_is_refused_until_expiry(
    m0: Map<Seq<char>, i64>,
    m1: Map<Seq<char>, i64>,
    m2: Map<Seq<char>, i64>,
    jti: Seq<char>,
    exp: i64,
    exp2: i64,
    r1: Result<(), OidcError>,
    r2: Result<(), OidcError>,
    t1: i64,
    t2: i64,
)
    requires
        check_outcome(m0, jti, exp, m1, r1, t1),
        r1 is Ok,
        check_outcome(m1, jti, exp2, m2, r2, t2),
        t2 < exp,
    ensures
        r2 matches Err(OidcError::JtiReplay),
        m2.contains_key(jti) && m2[jti] == exp,
{
    lemma_entry_survives_other_updates(m1, jti, exp, jti, exp2, t2);
}

/// After `blacklist(jti, exp)`, `is_blacklisted(jti)` answers `true` exactly when the clock reads
/// before `exp`.
pub proof fn lemma_blacklisted_answer_follows_the_clock(
    m0: Map<Seq<char>, i64>,
    m1: Map<Seq<char>, i64>,
    jti: Seq<char>,
    exp: i64,
    t1: i64,
    t2: i64,
    answer: bool,
)
    requires
        m1 == blacklist_step(m0, jti, exp, t1),
        answer == blacklisted(m1, jti, t2),
    ensures
        answer == (t2 < exp),
{
}

/// In-memory JTI store for replay protection.
///
/// Expired entries are evicted before each insertion, which keeps the store bounded.
/// The store is process-local.
pub struct JtiStore {
    entries: Vec<(String, i64)>,
}

impl JtiStore {
    /// The entries as `(jti, exp)` pairs of plain values.
    pub closed spec fn entry_seq(&self) -> Seq<(Seq<char>, i64)> {
        self.entries@.map_values(|e: (String, i64)| (e.0@, e.1))
    }

    /// No JWT ID is recorded twice.
    pub closed spec fn wf(&self) -> bool {
        keys_unique(self.entry_seq())
    }
}

impl View for JtiStore {
    type V = Map<Seq<char>, i64>;

    closed spec fn view(&self) -> Map<Seq<char>, i64> {
        map_of(self.entry_seq())
    }
}

/// In a list without repeated keys, the map gives each listed key its listed expiry.
proof fn lemma_map_of_at(s: Seq<(Seq<char>, i64)>, i: int)
    requires
        keys_unique(s),
        0 <= i < s.len(),
    ensures
        map_of(s).contains_key(s[i].0),
        map_of(s)[s[i].0] == s[i].1,
{
    let k = s[i].0;
    assert(has_key(s, k));
    let j = choose|j: int| 0 <= j < s.len() && (#[trigger] s[j]).0 == k;
    assert(j == i);
}

/// Pushing a fresh key adds it to the map.
proof fn lemma_map_of_push(s: Seq<(Seq<char>, i64)>, k: Seq<char>, v: i64)
    requires
        keys_unique(s),
        !has_key(s, k),
    ensures
        keys_unique(s.push((k, v))),
        map_of(s.push((k, v))) =~= map_of(s).insert(k, v),
{
    let t = s.push((k, v));
    assert forall|i: int, j: int| 0 <= i < t.len() && 0 <= j < t.len() && i != j implies (
    #[trigger] t[i]).0 != (#[trigger] t[j]).0 by {
        if i < s.len() && j < s.len() {
            assert(t[i] == s[i] && t[j] == s[j]);
        } else if i < s.len() {
            assert(t[i] == s[i]);
        } else {
            assert(t[j] == s[j]);
        }
    }
    assert forall|q: Seq<char>| #[trigger] map_of(t).contains_key(q) <==> map_of(s).insert(
        k,
        v,
    ).contains_key(q) by {
        if has_key(s, q) {
            let i = choose|i: int| 0 <= i < s.len() && (#[trigger] s[i]).0 == q;
            assert(t[i] == s[i]);
        }
        if has_key(t, q) && q != k {
            let i = choose|i: int| 0 <= i < t.len() && (#[trigger] t[i]).0 == q;
            assert(i < s.len());
            assert(s[i] == t[i]);
        }
        if q == k {
            assert(t[s.len() as int].0 == k);
        }
    }
    assert forall|q: Seq<char>| #[trigger] map_of(t).contains_key(q) implies map_of(t)[q]
        == map_of(s).insert(k, v)[q] by {
        let i = choose|i: int| 0 <= i < t.len() && (#[trigger] t[i]).0 == q;
        lemma_map_of_at(t, i);
        if i < s.len() {
            assert(t[i] == s[i]);
            lemma_map_of_at(s, i);
        }
    }
}

impl JtiStore {
    /// An empty store.
    pub fn new() -> (s: JtiStore)
        ensures
            s.wf(),
            s@ == Map::<Seq<char>, i64>::empty(),
    {
        let s = JtiStore { entries: Vec::new() };
        proof {
            assert(s.entry_seq() =~= Seq::<(Seq<char>, i64)>::empty());
            assert(s@ =~= Map::<Seq<char>, i64>::empty());
        }
        s
    }

    /// An empty store (`Default`).
    pub fn default() -> (s: JtiStore)
        ensures
            s.wf(),
            s@ == Map::<Seq<char>, i64>::empty(),
    {
        Self::new()
    }

    /// Position of `jti` among the entries.
    fn position(&self, jti: &String) -> (r: Option<usize>)
        requires
            self.wf(),
        ensures
            r matches Some(i) ==> i < self.entry_seq().len() && self.entry_seq()[i as int].0 == jti@,
            r is None ==> !has_key(self.entry_seq(), jti@),
    {
        let mut i: usize = 0;
        while i < self.entries.len()
            invariant
                i <= self.entries@.len(),
                self.entry_seq().len() == self.entries@.len(),
                forall|k: int| 0 <= k < i ==> (#[trigger] self.entry_seq()[k]).0 != jti@,
            decreases self.entries@.len() - i,
        {
            if self.entries[i].0 == *jti {
                return Some(i);
            }
            i = i + 1;
        }
        None
    }

    /// Drops every entry whose expiry is not strictly after `now`.
    fn evict_expired(&mut self, now: i64)
        requires
            old(self).wf(),
        ensures
            final(self).wf(),
            final(self)@ == evict(old(self)@, now),
    {
        let ghost s0 = self.entry_seq();
        let mut kept: Vec<(String, i64)> = Vec::new();
        let mut i: usize = 0;
        let n = self.entries.len();
        let ghost kept_seq = Seq::<(Seq<char>, i64)>::empty();
        while i < n
            invariant
                n == self.entries@.len(),
                i <= n,
                s0 == self.entry_seq(),
                keys_unique(s0),
                kept_seq == kept@.map_values(|e: (String, i64)| (e.0@, e.1)),
                keys_unique(kept_seq),
                forall|k: Seq<char>| has_key(kept_seq, k) ==> exists|j: int| 0 <= j < i && (
                #[trigger] s0[j]).0 == k,
                map_of(kept_seq) =~= map_of(s0.take(i as int)).restrict(
                    map_of(s0.take(i as int)).dom().filter(|k: Seq<char>| map_of(s0.take(i as int))[k] > now),
                ),
                keys_unique(s0.take(i as int)),
            decreases n - i,
        {
            let e = &self.entries[i];
            let ghost p = s0.take(i as int);
            let ghost q = s0.take(i + 1);
            proof {
                assert(q == p.push(s0[i as int]));
                assert(!has_key(p, s0[i as int].0)) by {
                    if has_key(p, s0[i as int].0) {
                        let j = choose|j: int| 0 <= j < p.len() && (#[trigger] p[j]).0 == s0[i as int].0;
                        assert(p[j] == s0[j]);
                    }
                }
                lemma_map_of_push(p, s0[i as int].0, s0[i as int].1);
            }
            if e.1 > now {
                let key = e.0.clone();
                proof {
                    assert(!has_key(kept_seq, s0[i as int].0)) by {
                        if has_key(kept_seq, s0[i as int].0) {
                            let j = choose|j: int| 0 <= j < i && (#[trigger] s0[j]).0 == s0[i as int].0;
                        }
                    }
                    lemma_map_of_push(kept_seq, key@, e.1);
                }
                kept.push((key, e.1));
                proof {
                    let old_kept = kept_seq;
                    kept_seq = kept_seq.push((key@, e.1));
                    assert(kept_seq =~= kept@.map_values(|e: (String, i64)| (e.0@, e.1)));
                    assert forall|k: Seq<char>| has_key(kept_seq, k) implies exists|j: int|
                        0 <= j < i + 1 && (#[trigger] s0[j]).0 == k by {
                        let m = choose|m: int| 0 <= m < kept_seq.len() && (#[trigger] kept_seq[m]).0 == k;
                        if m < old_kept.len() {
                            assert(kept_seq[m] == old_kept[m]);
                            assert(has_key(old_kept, k));
                        } else {
                            assert(s0[i as int].0 == k);
                        }
                    }
                }
            } else {
                proof {
                    assert forall|k: Seq<char>| has_key(kept_seq, k) implies exists|j: int|
                        0 <= j < i + 1 && (#[trigger] s0[j]).0 == k by {
                        let j = choose|j: int| 0 <= j < i && (#[trigger] s0[j]).0 == k;
                    }
                }
            }
            proof {
                let mq = map_of(q);
                let mp = map_of(p);
                assert(map_of(kept_seq) =~= mq.restrict(mq.dom().filter(|k: Seq<char>| mq[k] > now)));
            }
            i = i + 1;
        }
        proof {
            assert(s0.take(n as int) =~= s0);
        }
        self.entries = kept;
        proof {
            assert(self.entry_seq() == kept_seq);
        }
    }

    /// Records `jti` with expiry `exp`, replacing an earlier expiry, where `jti` may already be
    /// present.
    fn upsert(&mut self, jti: String, exp: i64)
        requires
            old(self).wf(),
        ensures
            final(self).wf(),
            final(self)@ == old(self)@.insert(jti@, exp),
    {
        match self.position(&jti) {
            None => {
                proof {
                    lemma_map_of_push(self.entry_seq(), jti@, exp);
                }
                let ghost k = jti@;
                self.entries.push((jti, exp));
                proof {
                    assert(self.entry_seq() =~= old(self).entry_seq().push((k, exp)));
                }
            },
            Some(i) => {
                let ghost s0 = self.entry_seq();
                let ghost k = jti@;
                self.entries.set(i, (jti, exp));
                proof {
                    let s1 = self.entry_seq();
                    assert(s1 =~= s0.update(i as int, (k, exp)));
                    assert forall|a: int, b: int| 0 <= a < s1.len() && 0 <= b < s1.len() && a != b implies (
                    #[trigger] s1[a]).0 != (#[trigger] s1[b]).0 by {
                        assert(s1[a].0 == s0[a].0 && s1[b].0 == s0[b].0);
                    }
                    assert forall|q: Seq<char>| #[trigger] map_of(s1).contains_key(q)
                        <==> map_of(s0).insert(k, exp).contains_key(q) by {
                        if has_key(s0, q) {
                            let a = choose|a: int| 0 <= a < s0.len() && (#[trigger] s0[a]).0 == q;
                            assert(s1[a].0 == q);
                        }
                        if has_key(s1, q) {
                            let a = choose|a: int| 0 <= a < s1.len() && (#[trigger] s1[a]).0 == q;
                            assert(s0[a].0 == q);
                        }
                    }
                    assert forall|q: Seq<char>| #[trigger] map_of(s1).contains_key(q) implies map_of(
                        s1,
                    )[q] == map_of(s0).insert(k, exp)[q] by {
                        let a = choose|a: int| 0 <= a < s1.len() && (#[trigger] s1[a]).0 == q;
                        lemma_map_of_at(s1, a);
                        if a != i {
                            lemma_map_of_at(s0, a);
                        }
                    }
                    assert(map_of(s1) =~= map_of(s0).insert(k, exp));
                }
            },
        }
    }

    /// Explicitly blacklists `jti` until `exp`, at clock reading `now`, without a replay check.
    pub fn blacklist_at(&mut self, jti: &str, exp: i64, now: i64)
        requires
            old(self).wf(),
        ensures
            final(self).wf(),
            final(self)@ == blacklist_step(old(self)@, jti@, exp, now),
    {
        self.evict_expired(now);
        self.upsert(to_owned_string(jti), exp);
    }

    /// Whether `jti` is blacklisted and not yet expired at clock reading `now`.
    pub fn is_blacklisted_at(&self, jti: &str, now: i64) -> (b: bool)
        requires
            self.wf(),
        ensures
            b == blacklisted(self@, jti@, now),
    {
        let key = to_owned_string(jti);
        match self.position(&key) {
            Some(i) => {
                proof {
                    lemma_map_of_at(self.entry_seq(), i as int);
                }
                self.entries[i].1 > now
            },
            None => false,
        }
    }

    /// Checks that `jti` has not been used, at clock reading `now`.
    ///
    /// Evicts expired entries first; returns `Err(JtiReplay)` when `jti` is still present,
    /// otherwise records it with expiry `exp`.
    pub fn check_and_insert_at(&mut self, jti: &str, exp: i64, now: i64) -> (res: Result<(), OidcError>)
        requires
            old(self).wf(),
        ensures
            final(self).wf(),
            final(self)@ == check_insert_step(old(self)@, jti@, exp, now),
            is_replay(old(self)@, jti@, now) ==> res matches Err(OidcError::JtiReplay),
            !is_replay(old(self)@, jti@, now) ==> res is Ok,
    {
        self.evict_expired(now);
        let key = to_owned_string(jti);
        if self.position(&key).is_some() {
            return Err(OidcError::JtiReplay);
        }
        proof {
            lemma_map_of_push(self.entry_seq(), key@, exp);
        }
        let ghost k = key@;
        let ghost mid = self.entry_seq();
        self.entries.push((key, exp));
        proof {
            assert(self.entry_seq() =~= mid.push((k, exp)));
        }
        Ok(())
    }

    /// Explicitly blacklists `jti` until `exp` (for logout), evicting entries expired at the
    /// current clock reading.
    pub fn blacklist(&mut self, jti: &str, exp: i64)
        requires
            old(self).wf(),
        ensures
            final(self).wf(),
            exists|now: i64| is_clock_reading(now) && final(self)@ == #[trigger] blacklist_step(old(self)@, jti@, exp, now),
    {
        let now = read_clock();
        self.blacklist_at(jti, exp, now);
    }

    /// Whether `jti` is blacklisted and not yet expired at the current clock reading.
    pub fn is_blacklisted(&self, jti: &str) -> (b: bool)
        requires
            self.wf(),
        ensures
            exists|now: i64| is_clock_reading(now) && b == #[trigger] blacklisted(self@, jti@, now),
    {
        let now = read_clock();
        self.is_blacklisted_at(jti, now)
    }

    /// Checks that `jti` has not been used, at the current clock reading; see
    /// `check_and_insert_at`.
    pub fn check_and_insert(&mut self, jti: &str, exp: i64) -> (res: Result<(), OidcError>)
        requires
            old(self).wf(),
        ensures
            final(self).wf(),
            exists|now: i64|
                is_clock_reading(now) && #[trigger] check_outcome(old(self)@, jti@, exp, final(self)@, res, now),
    {
        let now = read_clock();
        let ghost before = self@;
        let res = self.check_and_insert_at(jti, exp, now);
        assert(check_outcome(before, jti@, exp, self@, res, now));
        res
    }
}

} // verus!
