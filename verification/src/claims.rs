//! OIDC ID-token claims and their JSON text: written in serde_json's field order and format,
//! and read back.
use vstd::prelude::*;

use crate::json::{
    is_digit, json_int, json_string, lemma_json_int_unique, lemma_json_string_unique, push_json_int,
    push_json_string, read_json_int, read_json_string,
};
use crate::text::{matches_at, to_owned_string};

verus! {

/// OIDC ID Token claims.
#[derive(Debug, Clone)]
pub struct Claims {
    /// Subject: always the VSID.
    pub sub: String,
    /// Issuer: `https://<server>`.
    pub iss: String,
    /// Audience: the client identifier.
    pub aud: String,
    /// Expiry (Unix timestamp).
    pub exp: i64,
    /// Issued-at (Unix timestamp).
    pub iat: i64,
    /// JWT ID, used for replay prevention and revocation.
    pub jti: String,
    /// Root DID of the authenticated user.
    pub did: String,
    /// Server domain.
    pub server: String,
    /// Alias type (always `public`).
    pub alias_type: String,
}

/// The claims as plain values.
pub struct ClaimsData {
    pub sub: Seq<char>,
    pub iss: Seq<char>,
    pub aud: Seq<char>,
    pub exp: i64,
    pub iat: i64,
    pub jti: Seq<char>,
    pub did: Seq<char>,
    pub server: Seq<char>,
    pub alias_type: Seq<char>,
}

impl View for Claims {
    type V = ClaimsData;

    open spec fn view(&self) -> ClaimsData {
        ClaimsData {
            sub: self.sub@,
            iss: self.iss@,
            aud: self.aud@,
            exp: self.exp,
            iat: self.iat,
            jti: self.jti@,
            did: self.did@,
            server: self.server@,
            alias_type: self.alias_type@,
        }
    }
}

pub open spec fn key_sub() -> Seq<char> {
    "{\"sub\":"@
}

pub open spec fn key_iss() -> Seq<char> {
    ",\"iss\":"@
}

pub open spec fn key_aud() -> Seq<char> {
    ",\"aud\":"@
}

pub open spec fn key_exp() -> Seq<char> {
    ",\"exp\":"@
}

pub open spec fn key_iat() -> Seq<char> {
    ",\"iat\":"@
}

pub open spec fn key_jti() -> Seq<char> {
    ",\"jti\":"@
}

pub open spec fn key_did() -> Seq<char> {
    ",\"did\":"@
}

pub open spec fn key_server() -> Seq<char> {
    ",\"server\":"@
}

pub open spec fn key_alias_type() -> Seq<char> {
    ",\"alias_type\":"@
}

pub open spec fn tail9(d: ClaimsData) -> Seq<char> {
    "}"@
}

pub open spec fn tail8(d: ClaimsData) -> Seq<char> {
    key_alias_type() + json_string(d.alias_type) + tail9(d)
}

pub open spec fn tail7(d: ClaimsData) -> Seq<char> {
    key_server() + json_string(d.server) + tail8(d)
}

pub open spec fn tail6(d: ClaimsData) -> Seq<char> {
    key_did() + json_string(d.did) + tail7(d)
}

pub open spec fn tail5(d: ClaimsData) -> Seq<char> {
    key_jti() + json_string(d.jti) + tail6(d)
}

pub open spec fn tail4(d: ClaimsData) -> Seq<char> {
    key_iat() + json_int(d.iat) + tail5(d)
}

pub open spec fn tail3(d: ClaimsData) -> Seq<char> {
    key_exp() + json_int(d.exp) + tail4(d)
}

pub open spec fn tail2(d: ClaimsData) -> Seq<char> {
    key_aud() + json_string(d.aud) + tail3(d)
}

pub open spec fn tail1(d: ClaimsData) -> Seq<char> {
    key_iss() + json_string(d.iss) + tail2(d)
}

/// The JSON text of the claims, as serde_json writes the claims struct:
/// `{"sub":..,"iss":..,"aud":..,"exp":..,"iat":..,"jti":..,"did":..,"server":..,"alias_type":..}`.
pub open spec fn claims_json(d: ClaimsData) -> Seq<char> {
    key_sub() + json_string(d.sub) + tail1(d)
}

/// `key` followed by the JSON string of `value`, then `tail`.
fn string_field(key: &str, value: &str, tail: &str) -> (r: String)
    ensures
        r@ == key@ + json_string(value@) + tail@,
{
    let mut out = to_owned_string(key);
    push_json_string(&mut out, value);
    out.append(tail);
    out
}

/// `key` followed by the JSON integer `value`, then `tail`.
fn int_field(key: &str, value: i64, tail: &str) -> (r: String)
    ensures
        r@ == key@ + json_int(value) + tail@,
{
    let mut out = to_owned_string(key);
    push_json_int(&mut out, value);
    out.append(tail);
    out
}

/// A key followed by a JSON string: equal texts have equal strings and equal continuations.
proof fn lemma_string_stage(k: Seq<char>, a: Seq<char>, b: Seq<char>, x: Seq<char>, y: Seq<char>)
    requires
        k + json_string(a) + x == k + json_string(b) + y,
    ensures
        a == b,
        x == y,
{
    assert(json_string(a) + x =~= (k + json_string(a) + x).skip(k.len() as int));
    assert(json_string(b) + y =~= (k + json_string(b) + y).skip(k.len() as int));
    lemma_json_string_unique(a, b, x, y);
}

/// A key followed by a JSON integer and a continuation that starts with `,`: equal texts have
/// equal integers and equal continuations.
proof fn lemma_int_stage(k: Seq<char>, a: i64, b: i64, x: Seq<char>, y: Seq<char>)
    requires
        k + json_int(a) + x == k + json_int(b) + y,
        x.len() > 0 && x[0] == ',',
        y.len() > 0 && y[0] == ',',
    ensures
        a == b,
        x == y,
{
    assert(json_int(a) + x =~= (k + json_int(a) + x).skip(k.len() as int));
    assert(json_int(b) + y =~= (k + json_int(b) + y).skip(k.len() as int));
    lemma_json_int_unique(a, b, x, y);
}

/// Distinct claims have distinct JSON texts.
pub proof fn lemma_claims_json_injective(d1: ClaimsData, d2: ClaimsData)
    requires
        claims_json(d1) == claims_json(d2),
    ensures
        d1 == d2,
{
    reveal_strlit(",\"iat\":");
    reveal_strlit(",\"jti\":");
    lemma_string_stage(key_sub(), d1.sub, d2.sub, tail1(d1), tail1(d2));
    lemma_string_stage(key_iss(), d1.iss, d2.iss, tail2(d1), tail2(d2));
    lemma_string_stage(key_aud(), d1.aud, d2.aud, tail3(d1), tail3(d2));
    assert(tail4(d1)[0] == ',' && tail4(d2)[0] == ',');
    lemma_int_stage(key_exp(), d1.exp, d2.exp, tail4(d1), tail4(d2));
    assert(tail5(d1)[0] == ',' && tail5(d2)[0] == ',');
    lemma_int_stage(key_iat(), d1.iat, d2.iat, tail5(d1), tail5(d2));
    lemma_string_stage(key_jti(), d1.jti, d2.jti, tail6(d1), tail6(d2));
    lemma_string_stage(key_did(), d1.did, d2.did, tail7(d1), tail7(d2));
    lemma_string_stage(key_server(), d1.server, d2.server, tail8(d1), tail8(d2));
    lemma_string_stage(key_alias_type(), d1.alias_type, d2.alias_type, tail9(d1), tail9(d2));
}

/// Writes the JSON text of the claims.
pub fn write_claims_json(c: &Claims) -> (r: String)
    ensures
        r@ == claims_json(c@),
{
    let t8 = string_field(",\"alias_type\":", c.alias_type.as_str(), "}");
    let t7 = string_field(",\"server\":", c.server.as_str(), t8.as_str());
    let t6 = string_field(",\"did\":", c.did.as_str(), t7.as_str());
    let t5 = string_field(",\"jti\":", c.jti.as_str(), t6.as_str());
    let t4 = int_field(",\"iat\":", c.iat, t5.as_str());
    let t3 = int_field(",\"exp\":", c.exp, t4.as_str());
    let t2 = string_field(",\"aud\":", c.aud.as_str(), t3.as_str());
    let t1 = string_field(",\"iss\":", c.iss.as_str(), t2.as_str());
    string_field("{\"sub\":", c.sub.as_str(), t1.as_str())
}

/// Reads `key` followed by a JSON string at position `p`.
fn read_string_field(t: &str, p: usize, key: &str) -> (r: Option<(String, usize)>)
    requires
        p <= t@.len(),
    ensures
        r matches Some((s, q)) ==> p <= q <= t@.len() && t@.subrange(p as int, q as int) == key@
            + json_string(s@),
        forall|s: Seq<char>, rest: Seq<char>| #[trigger] (key@ + json_string(s) + rest) == t@.skip(p as int)
            ==> (r matches Some((s2, q)) && s2@ == s && t@.skip(q as int) == rest),
{
    let n = t.unicode_len();
    if !matches_at(t, p, key) {
        proof {
            assert forall|s: Seq<char>, rest: Seq<char>| #[trigger] (key@ + json_string(s) + rest) == t@.skip(p as int)
                implies false by {
                let whole = key@ + json_string(s) + rest;
                assert(whole.take(key@.len() as int) =~= key@);
                assert(t@.skip(p as int).take(key@.len() as int) == key@);
                assert(t@.skip(p as int).len() == t@.len() - p);
                assert(key@.len() <= t@.len() - p);
            }
        }
        return None;
    }
    let k = key.unicode_len();
    let v = p + k;
    let res = read_json_string(t, v);
    match res {
        Some((s, q)) => {
            proof {
                assert(t@.subrange(p as int, q as int) =~= t@.subrange(p as int, v as int) + t@.subrange(v as int, q as int));
                assert(t@.subrange(p as int, v as int) =~= key@);
                assert forall|s1: Seq<char>, rest: Seq<char>| #[trigger] (key@ + json_string(s1) + rest) == t@.skip(p as int)
                    implies s@ == s1 && t@.skip(q as int) == rest by {
                    assert(t@.skip(v as int) =~= t@.skip(p as int).skip(key@.len() as int));
                    assert((key@ + json_string(s1) + rest).skip(key@.len() as int) =~= json_string(s1) + rest);
                    assert(t@.skip(q as int) =~= t@.skip(v as int).skip(json_string(s1).len() as int));
                }
            }
            Some((s, q))
        },
        None => {
            proof {
                assert forall|s1: Seq<char>, rest: Seq<char>| #[trigger] (key@ + json_string(s1) + rest) == t@.skip(p as int)
                    implies false by {
                    assert(t@.skip(v as int) =~= t@.skip(p as int).skip(key@.len() as int));
                    assert((key@ + json_string(s1) + rest).skip(key@.len() as int) =~= json_string(s1) + rest);
                }
            }
            None
        },
    }
}

/// Reads `key` followed by a JSON integer (not followed by a digit) at position `p`.
fn read_int_field(t: &str, p: usize, key: &str) -> (r: Option<(i64, usize)>)
    requires
        p <= t@.len(),
    ensures
        r matches Some((n, q)) ==> p <= q <= t@.len() && t@.subrange(p as int, q as int) == key@
            + json_int(n),
        forall|n: i64, rest: Seq<char>| #[trigger] (key@ + json_int(n) + rest) == t@.skip(p as int) && (
        rest.len() == 0 || !is_digit(rest[0])) ==> (r == Some((n, (p + key@.len() + json_int(n).len()) as usize))
            && t@.skip(p + key@.len() + json_int(n).len()) == rest),
{
    let len = t.unicode_len();
    if !matches_at(t, p, key) {
        proof {
            assert forall|n: i64, rest: Seq<char>| #[trigger] (key@ + json_int(n) + rest) == t@.skip(p as int)
                && (rest.len() == 0 || !is_digit(rest[0])) implies false by {
                assert((key@ + json_int(n) + rest).take(key@.len() as int) =~= key@);
            }
        }
        return None;
    }
    let k = key.unicode_len();
    let v = p + k;
    let res = read_json_int(t, v);
    proof {
        assert forall|n: i64, rest: Seq<char>| #[trigger] (key@ + json_int(n) + rest) == t@.skip(p as int)
            && (rest.len() == 0 || !is_digit(rest[0])) implies res == Some((n, (v + json_int(n).len()) as usize))
            && t@.skip(p + key@.len() + json_int(n).len()) == rest by {
            assert(t@.skip(v as int) =~= t@.skip(p as int).skip(key@.len() as int));
            assert((key@ + json_int(n) + rest).skip(key@.len() as int) =~= json_int(n) + rest);
            assert(t@.skip(p + key@.len() + json_int(n).len()) =~= t@.skip(v as int).skip(json_int(n).len() as int));
        }
    }
    match res {
        Some((n, q)) => {
            proof {
                assert(t@.subrange(p as int, q as int) =~= t@.subrange(p as int, v as int) + t@.subrange(v as int, q as int));
                assert(t@.subrange(p as int, v as int) =~= key@);
            }
            Some((n, q))
        },
        None => None,
    }
}

/// The text from field `k` on (`k = 0` is the whole text, `k = 9` the closing brace).
pub open spec fn tail_of(d: ClaimsData, k: int) -> Seq<char> {
    if k == 0 {
        claims_json(d)
    } else if k == 1 {
        tail1(d)
    } else if k == 2 {
        tail2(d)
    } else if k == 3 {
        tail3(d)
    } else if k == 4 {
        tail4(d)
    } else if k == 5 {
        tail5(d)
    } else if k == 6 {
        tail6(d)
    } else if k == 7 {
        tail7(d)
    } else if k == 8 {
        tail8(d)
    } else {
        tail9(d)
    }
}

/// `d` and `g` agree on the fields before field `k`.
pub open spec fn agrees_before(d: ClaimsData, g: ClaimsData, k: int) -> bool {
    &&& k > 0 ==> d.sub == g.sub
    &&& k > 1 ==> d.iss == g.iss
    &&& k > 2 ==> d.aud == g.aud
    &&& k > 3 ==> d.exp == g.exp
    &&& k > 4 ==> d.iat == g.iat
    &&& k > 5 ==> d.jti == g.jti
    &&& k > 6 ==> d.did == g.did
    &&& k > 7 ==> d.server == g.server
    &&& k > 8 ==> d.alias_type == g.alias_type
}

/// Every claims value whose text is `t` has its field-`k` text at position `p` and agrees
/// with `g` on the fields read so far.
#[verifier::opaque]
spec fn reached(t: Seq<char>, p: int, k: int, g: ClaimsData) -> bool {
    forall|d: ClaimsData| #[trigger] claims_json(d) == t ==> t.skip(p) == tail_of(d, k) && agrees_before(d, g, k)
}

/// Reads string field `k` (whose key is `key`) at `p`, advancing the reading state.
fn read_string_stage(t: &str, p: usize, key: &str, k: Ghost<int>, g: Ghost<ClaimsData>) -> (r: Option<(String, usize)>)
    requires
        p <= t@.len(),
        0 <= k@ <= 8,
        k@ != 3 && k@ != 4,
        reached(t@, p as int, k@, g@),
        forall|d: ClaimsData| #[trigger] tail_of(d, k@) == key@ + json_string(field_text(d, k@)) + tail_of(d, k@ + 1),
    ensures
        r matches Some((s, q)) ==> p <= q <= t@.len() && t@.subrange(p as int, q as int) == key@
            + json_string(s@) && reached(t@, q as int, k@ + 1, with_text(g@, k@, s@)),
        r is None ==> forall|d: ClaimsData| #[trigger] claims_json(d) != t@,
{
    let r = read_string_field(t, p, key);
    proof {
        reveal(reached);
        match &r {
            Some((s, q)) => {
                assert forall|d: ClaimsData| #[trigger] claims_json(d) == t@ implies t@.skip(q as int)
                    == tail_of(d, k@ + 1) && agrees_before(d, with_text(g@, k@, s@), k@ + 1) by {
                    assert(key@ + json_string(field_text(d, k@)) + tail_of(d, k@ + 1) == t@.skip(p as int));
                }
            },
            None => {
                assert forall|d: ClaimsData| #[trigger] claims_json(d) != t@ by {
                    if claims_json(d) == t@ {
                        assert(key@ + json_string(field_text(d, k@)) + tail_of(d, k@ + 1) == t@.skip(p as int));
                    }
                }
            },
        }
    }
    r
}

/// Reads integer field `k` (3 = `exp`, 4 = `iat`) at `p`, advancing the reading state.
fn read_int_stage(t: &str, p: usize, key: &str, k: Ghost<int>, g: Ghost<ClaimsData>) -> (r: Option<(i64, usize)>)
    requires
        p <= t@.len(),
        k@ == 3 || k@ == 4,
        reached(t@, p as int, k@, g@),
        forall|d: ClaimsData| #[trigger] tail_of(d, k@) == key@ + json_int(field_int(d, k@)) + tail_of(d, k@ + 1),
        forall|d: ClaimsData| (#[trigger] tail_of(d, k@ + 1))[0] == ',',
    ensures
        r matches Some((n, q)) ==> p <= q <= t@.len() && t@.subrange(p as int, q as int) == key@
            + json_int(n) && reached(t@, q as int, k@ + 1, with_int(g@, k@, n)),
        r is None ==> forall|d: ClaimsData| #[trigger] claims_json(d) != t@,
{
    let r = read_int_field(t, p, key);
    proof {
        reveal(reached);
        match &r {
            Some((n, q)) => {
                assert forall|d: ClaimsData| #[trigger] claims_json(d) == t@ implies t@.skip(q as int)
                    == tail_of(d, k@ + 1) && agrees_before(d, with_int(g@, k@, *n), k@ + 1) by {
                    assert(key@ + json_int(field_int(d, k@)) + tail_of(d, k@ + 1) == t@.skip(p as int));
                    assert(tail_of(d, k@ + 1)[0] == ',');
                }
            },
            None => {
                assert forall|d: ClaimsData| #[trigger] claims_json(d) != t@ by {
                    if claims_json(d) == t@ {
                        assert(key@ + json_int(field_int(d, k@)) + tail_of(d, k@ + 1) == t@.skip(p as int));
                        assert(tail_of(d, k@ + 1)[0] == ',');
                    }
                }
            },
        }
    }
    r
}

/// The text-valued field `k` of `d`.
pub open spec fn field_text(d: ClaimsData, k: int) -> Seq<char> {
    if k == 0 {
        d.sub
    } else if k == 1 {
        d.iss
    } else if k == 2 {
        d.aud
    } else if k == 5 {
        d.jti
    } else if k == 6 {
        d.did
    } else if k == 7 {
        d.server
    } else {
        d.alias_type
    }
}

/// The integer-valued field `k` of `d`.
pub open spec fn field_int(d: ClaimsData, k: int) -> i64 {
    if k == 3 {
        d.exp
    } else {
        d.iat
    }
}

/// `g` with text field `k` set to `s`.
pub open spec fn with_text(g: ClaimsData, k: int, s: Seq<char>) -> ClaimsData {
    if k == 0 {
        ClaimsData { sub: s, ..g }
    } else if k == 1 {
        ClaimsData { iss: s, ..g }
    } else if k == 2 {
        ClaimsData { aud: s, ..g }
    } else if k == 5 {
        ClaimsData { jti: s, ..g }
    } else if k == 6 {
        ClaimsData { did: s, ..g }
    } else if k == 7 {
        ClaimsData { server: s, ..g }
    } else {
        ClaimsData { alias_type: s, ..g }
    }
}

/// `g` with integer field `k` set to `n`.
pub open spec fn with_int(g: ClaimsData, k: int, n: i64) -> ClaimsData {
    if k == 3 {
        ClaimsData { exp: n, ..g }
    } else {
        ClaimsData { iat: n, ..g }
    }
}

/// From piece `k` on, the pieces read make up the text from field `k` on.
proof fn lemma_pieces_make_tail(t: Seq<char>, p: Seq<int>, c: ClaimsData, k: int)
    requires
        0 <= k <= 9,
        p.len() == 10,
        forall|j: int| 0 <= j < 9 ==> 0 <= #[trigger] p[j] <= p[j + 1] <= t.len(),
        p[9] + 1 == t.len(),
        t.subrange(p[9], t.len() as int) == tail9(c),
        forall|j: int| 0 <= j < 9 ==> #[trigger] tail_of(c, j) == t.subrange(p[j], p[j + 1]) + tail_of(c, j + 1),
    ensures
        t.skip(p[k]) == tail_of(c, k),
    decreases 9 - k,
{
    if k == 9 {
        assert(t.skip(p[9]) =~= tail_of(c, 9));
    } else {
        lemma_pieces_make_tail(t, p, c, k + 1);
        assert(tail_of(c, k) == t.subrange(p[k], p[k + 1]) + tail_of(c, k + 1));
        assert(t.skip(p[k]) =~= t.subrange(p[k], p[k + 1]) + t.skip(p[k + 1]));
    }
}

/// Reads claims from their JSON text, in the form that `write_claims_json` writes.
///
/// Exactly the texts that `write_claims_json` produces are accepted, and they give back the
/// claims that were written. Other JSON texts of claims (another member order, whitespace
/// between tokens, further members) are refused: tokens are only ever issued in this form.
#[verifier::rlimit(50)]
pub fn read_claims_json(t: &str) -> (r: Option<Claims>)
    ensures
        r matches Some(c) ==> claims_json(c@) == t@,
        forall|d: ClaimsData| claims_json(d) == t@ ==> (r matches Some(c) && c@ == d),
{
    let n = t.unicode_len();
    let ghost g0 = ClaimsData {
        sub: Seq::empty(),
        iss: Seq::empty(),
        aud: Seq::empty(),
        exp: 0,
        iat: 0,
        jti: Seq::empty(),
        did: Seq::empty(),
        server: Seq::empty(),
        alias_type: Seq::empty(),
    };
    assert(reached(t@, 0, 0, g0)) by {
        reveal(reached);
        assert(t@.skip(0) =~= t@);
    }
    proof {
        reveal_strlit(",\"exp\":");
        reveal_strlit(",\"iat\":");
        reveal_strlit(",\"jti\":");
    }
    let (sub, p1) = match read_string_stage(t, 0, "{\"sub\":", Ghost(0), Ghost(g0)) {
        Some(x) => x,
        None => { return None; },
    };
    let ghost g1 = with_text(g0, 0, sub@);
    let (iss, p2) = match read_string_stage(t, p1, ",\"iss\":", Ghost(1), Ghost(g1)) {
        Some(x) => x,
        None => { return None; },
    };
    let ghost g2 = with_text(g1, 1, iss@);
    let (aud, p3) = match read_string_stage(t, p2, ",\"aud\":", Ghost(2), Ghost(g2)) {
        Some(x) => x,
        None => { return None; },
    };
    let ghost g3 = with_text(g2, 2, aud@);
    let (exp, p4) = match read_int_stage(t, p3, ",\"exp\":", Ghost(3), Ghost(g3)) {
        Some(x) => x,
        None => { return None; },
    };
    let ghost g4 = with_int(g3, 3, exp);
    let (iat, p5) = match read_int_stage(t, p4, ",\"iat\":", Ghost(4), Ghost(g4)) {
        Some(x) => x,
        None => { return None; },
    };
    let ghost g5 = with_int(g4, 4, iat);
    let (jti, p6) = match read_string_stage(t, p5, ",\"jti\":", Ghost(5), Ghost(g5)) {
        Some(x) => x,
        None => { return None; },
    };
    let ghost g6 = with_text(g5, 5, jti@);
    let (did, p7) = match read_string_stage(t, p6, ",\"did\":", Ghost(6), Ghost(g6)) {
        Some(x) => x,
        None => { return None; },
    };
    let ghost g7 = with_text(g6, 6, did@);
    let (server, p8) = match read_string_stage(t, p7, ",\"server\":", Ghost(7), Ghost(g7)) {
        Some(x) => x,
        None => { return None; },
    };
    let ghost g8 = with_text(g7, 7, server@);
    let (alias_type, p9) = match read_string_stage(t, p8, ",\"alias_type\":", Ghost(8), Ghost(g8)) {
        Some(x) => x,
        None => { return None; },
    };
    let ghost g9 = with_text(g8, 8, alias_type@);
    if !(p9 < n && n - p9 == 1 && matches_at(t, p9, "}")) {
        proof {
            reveal(reached);
            reveal_strlit("}");
            assert forall|d: ClaimsData| claims_json(d) == t@ implies false by {
                assert(t@.skip(p9 as int) == tail_of(d, 9));
                assert(t@.skip(p9 as int).take(1) =~= "}"@);
            }
        }
        return None;
    }
    let c = Claims { sub, iss, aud, exp, iat, jti, did, server, alias_type };
    proof {
        reveal(reached);
        reveal_strlit("}");
        assert(c@ == g9);
        let ps = seq![0int, p1 as int, p2 as int, p3 as int, p4 as int, p5 as int, p6 as int, p7 as int, p8 as int, p9 as int];
        assert(t@.subrange(p9 as int, n as int) =~= tail9(c@));
        lemma_pieces_make_tail(t@, ps, c@, 0);
        assert(t@.skip(0) =~= t@);
        assert forall|d: ClaimsData| claims_json(d) == t@ implies c@ == d by {
            assert(agrees_before(d, g9, 9));
        }
    }
    Some(c)
}

} // verus!
