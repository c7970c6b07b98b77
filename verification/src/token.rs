//! Issuing and validating OIDC ID tokens (EdDSA-signed JWTs) with replay protection.
use vstd::prelude::*;

use crate::claims::{
    claims_json, lemma_claims_json_injective, read_claims_json, write_claims_json, Claims, ClaimsData,
};
use crate::jti::{
    blacklisted, check_insert_step, evict, is_clock_reading, is_replay, lemma_entry_survives_other_updates,
    read_clock, JtiStore, OidcError,
};
use crate::signing_key::{
    draw_uuid, ed25519_pkcs8, ed25519_public, is_drawn_uuid, is_uuid_v4_text, OidcSigningKey,
};
use crate::text::to_owned_string;
use crate::vsid::Vsid;

verus! {

/// Declares `jsonwebtoken`'s error so it can be carried through verified code.
#[verifier::external_type_specification]
#[verifier::external_body]
pub struct ExJwtError(jsonwebtoken::errors::Error);

/// The compact JWT (`header.payload.signature`) that `jsonwebtoken::encode` produces for an
/// EdDSA header with key ID `kid`, the JSON text `payload` as claims, and the Ed25519 key in the
/// PKCS#8 document `der`.
pub uninterp spec fn jwt_eddsa_compact(kid: Seq<char>, payload: Seq<char>, der: Seq<u8>) -> Seq<char>;

/// The JSON text of the claims carried by a compact JWT: its middle segment, base64url-decoded,
/// as `jsonwebtoken::decode` reads it into a raw JSON value, that is, trimmed of surrounding
/// whitespace.
pub uninterp spec fn jwt_payload(jwt: Seq<char>) -> Seq<char>;

/// Whether the compact JWT `jwt` carries a valid EdDSA (Ed25519) signature, over its header and
/// payload segments, under the 32-byte public key `pk`, as `jsonwebtoken::decode` checks it with
/// `DecodingKey::from_ed_der(pk)`. Ed25519 verification depends on its arguments alone.
pub uninterp spec fn jwt_signed_by(pk: Seq<u8>, jwt: Seq<char>) -> bool;

/// A character that JSON treats as insignificant whitespace.
pub open spec fn is_json_ws(c: char) -> bool {
    c == ' ' || c == '\n' || c == '\t' || c == '\r'
}

/// `jsonwebtoken::encode` with an EdDSA header carrying `kid`, the JSON text `payload` as the
/// claims (through `serde_json`'s `RawValue`, which checks it is JSON and writes it verbatim),
/// and `EncodingKey::from_ed_der(der)`. The claim: a token that comes out is the one named by
/// `jwt_eddsa_compact` (Ed25519 signing is deterministic), and its middle segment carries the
/// payload text unchanged when the text has no surrounding whitespace. Signing succeeds when the
/// key is a PKCS#8 document that `ed25519-dalek` wrote for a 32-byte seed and the payload is the
/// JSON text of a claims value: the header always serialises, the raw value accepts valid JSON,
/// the key's family is EdDSA and parses back, and Ed25519 signing cannot fail. A token signed
/// with the key of seed `s` verifies under that seed's public key (Ed25519 correctness).
#[verifier::external_body]
fn jwt_sign_eddsa(kid: &str, payload: &str, der: &[u8]) -> (r: Result<String, jsonwebtoken::errors::Error>)
    ensures
        r is Ok ==> r->Ok_0@ == jwt_eddsa_compact(kid@, payload@, der@),
        r is Ok ==> forall|s: Seq<u8>|
            s.len() == 32 && der@ == #[trigger] ed25519_pkcs8(s) ==> jwt_signed_by(ed25519_public(s), r->Ok_0@),
        (exists|seed: Seq<u8>| seed.len() == 32 && der@ == #[trigger] ed25519_pkcs8(seed)) && (exists|d: ClaimsData|
            payload@ == #[trigger] claims_json(d)) ==> r is Ok,
        r is Ok && payload@.len() > 0 && !is_json_ws(payload@[0]) && !is_json_ws(payload@.last())
            ==> jwt_payload(r->Ok_0@) == payload@,
{
    let mut header = jsonwebtoken::Header::new(jsonwebtoken::Algorithm::EdDSA);
    header.kid = Some(kid.to_string());
    let raw = serde_json::value::RawValue::from_string(payload.to_string())?;
    jsonwebtoken::encode(&header, &raw, &jsonwebtoken::EncodingKey::from_ed_der(der))
}

/// `jsonwebtoken::decode` of `jwt` with `Validation::new(Algorithm::EdDSA)`, the expected issuer,
/// the accepted audiences (checked only when `check_audience` is set), no clock leeway (the crate
/// subtracts the leeway from the clock in `u64`, so only a leeway of 0 is admitted), and
/// `DecodingKey::from_ed_der(public_key)`; the claims are taken as raw JSON text. The claim: an
/// accepted token carries a valid signature under `public_key` (`jwt_signed_by`) and hands back
/// its payload text (`jwt_payload`), and when that text is the JSON of
/// a claims value, its `iss` is the expected issuer and, when the audience is checked against a
/// single value, its `aud` is that value (the crate refuses a differing single issuer or
/// audience). Whether the token is accepted also depends on the clock (`exp`), and is left open.
#[verifier::external_body]
fn jwt_verify_eddsa(
    jwt: &str,
    issuer: &str,
    audiences: &[&str],
    check_audience: bool,
    leeway: u64,
    public_key: &[u8; 32],
) -> (r: Result<String, jsonwebtoken::errors::Error>)
    requires
        leeway == 0,
    ensures
        r is Ok ==> jwt_signed_by(public_key@, jwt@),
        r is Ok ==> r->Ok_0@ == jwt_payload(jwt@),
        r is Ok ==> forall|d: ClaimsData| #[trigger] claims_json(d) == r->Ok_0@ ==> d.iss == issuer@,
        r is Ok && check_audience && audiences@.len() == 1 ==> forall|d: ClaimsData|
            #[trigger] claims_json(d) == r->Ok_0@ ==> d.aud == audiences@[0]@,
{
    let mut validation = jsonwebtoken::Validation::new(jsonwebtoken::Algorithm::EdDSA);
    validation.set_audience(audiences);
    validation.validate_aud = check_audience;
    validation.set_issuer(&[issuer]);
    validation.leeway = leeway;
    let key = jsonwebtoken::DecodingKey::from_ed_der(public_key);
    jsonwebtoken::decode::<Box<serde_json::value::RawValue>>(jwt, &key, &validation).map(|d| d.claims.get().to_string())
}

/// How `jsonwebtoken` refused a token, as far as this library tells refusals apart.
#[derive(Debug, Clone, Copy, PartialEq, Eq)]
pub enum JwtFailure {
    /// `ErrorKind::ExpiredSignature`.
    Expired,
    /// `ErrorKind::InvalidAudience`.
    WrongAudience,
    /// Any other kind.
    Other,
}

/// The kind of a `jsonwebtoken` error (`Error::kind`), sorted into the three cases above.
#[verifier::external_body]
fn jwt_failure_kind(e: &jsonwebtoken::errors::Error) -> JwtFailure {
    match e.kind() {
        jsonwebtoken::errors::ErrorKind::ExpiredSignature => JwtFailure::Expired,
        jsonwebtoken::errors::ErrorKind::InvalidAudience => JwtFailure::WrongAudience,
        _ => JwtFailure::Other,
    }
}

/// The message that a `jsonwebtoken` error displays; nothing is claimed of its text.
#[verifier::external_body]
fn jwt_error_text(e: &jsonwebtoken::errors::Error) -> String {
    format!("{e}")
}

/// The library's error for a refusal by the JWT library: an expired token and a wrong audience
/// have their own variants, every other refusal carries the library's message.
pub fn from_jwt_failure(kind: JwtFailure, message: String) -> (r: OidcError)
    ensures
        kind == JwtFailure::Expired ==> r is Expired,
        kind == JwtFailure::WrongAudience ==> r is InvalidAudience,
        kind == JwtFailure::Other ==> r == OidcError::Jwt(message),
{
    match kind {
        JwtFailure::Expired => OidcError::Expired,
        JwtFailure::WrongAudience => OidcError::InvalidAudience,
        JwtFailure::Other => OidcError::Jwt(message),
    }
}

/// Maps a `jsonwebtoken` error to the library's error.
fn jwt_refusal(e: &jsonwebtoken::errors::Error) -> (r: OidcError)
    ensures
        r is Expired || r is InvalidAudience || r is Jwt,
{
    let kind = jwt_failure_kind(e);
    let message = jwt_error_text(e);
    from_jwt_failure(kind, message)
}

/// Parameters for issuing an OIDC ID token.
pub struct IssuanceParams<'a> {
    /// Virtual Stable Identifier: always the `sub` claim.
    pub vsid: &'a Vsid,
    /// Issuer URL (for example `https://example.com`).
    pub issuer: &'a str,
    /// Client identifier: the `aud` claim.
    pub client_id: &'a str,
    /// Root DID of the authenticated user.
    pub user_did: &'a str,
    /// Server domain (for example `example.com`).
    pub server: &'a str,
    /// Token lifetime in seconds, added to the issuing time.
    pub ttl_secs: u64,
}

/// The lifetime fits: it is in the `i64` range, and so is the expiry `now + ttl`.
pub open spec fn ttl_fits(now: i64, ttl_secs: u64) -> bool {
    ttl_secs <= i64::MAX && now + ttl_secs <= i64::MAX
}

/// The claims of a token issued at `now` with JWT ID `jti`.
pub open spec fn issued_claims(p: IssuanceParams, now: i64, jti: Seq<char>) -> ClaimsData {
    ClaimsData {
        sub: p.vsid@,
        iss: p.issuer@,
        aud: p.client_id@,
        exp: (now + p.ttl_secs) as i64,
        iat: now,
        jti: jti,
        did: p.user_did@,
        server: p.server@,
        alias_type: "public"@,
    }
}

/// The claims of a token issued at `now_unix` with JWT ID `jti`; `Err(InvalidTtl)` exactly when
/// the lifetime or the expiry `now_unix + ttl_secs` does not fit an `i64`.
pub fn build_claims(params: &IssuanceParams, now_unix: i64, jti: String) -> (r: Result<Claims, OidcError>)
    ensures
        ttl_fits(now_unix, params.ttl_secs) <==> r is Ok,
        r is Ok ==> r->Ok_0@ == issued_claims(*params, now_unix, jti@),
        r is Err ==> r->Err_0 is InvalidTtl,
{
    if params.ttl_secs > i64::MAX as u64 {
        return Err(OidcError::InvalidTtl);
    }
    let ttl = params.ttl_secs as i64;
    if now_unix > i64::MAX - ttl {
        return Err(OidcError::InvalidTtl);
    }
    Ok(Claims {
        sub: params.vsid.to_string(),
        iss: to_owned_string(params.issuer),
        aud: to_owned_string(params.client_id),
        exp: now_unix + ttl,
        iat: now_unix,
        jti,
        did: to_owned_string(params.user_did),
        server: to_owned_string(params.server),
        alias_type: to_owned_string("public"),
    })
}

/// The JSON text of any claims starts with `{` and ends with `}`.
proof fn lemma_claims_json_braces(d: ClaimsData)
    ensures
        claims_json(d).len() > 0,
        claims_json(d)[0] == '{',
        claims_json(d).last() == '}',
{
    reveal_strlit("{\"sub\":");
    reveal_strlit("}");
}

/// Issues an OIDC ID token signed with `key`, issued at `now_unix` (seconds), with a fresh random
/// JWT ID.
///
/// `Err(InvalidTtl)` exactly when the lifetime or the expiry does not fit an `i64`; otherwise a
/// token comes out. The token is the EdDSA JWT of the issued claims under
/// the key, for some random version-4 UUID as JWT ID, and carries their JSON text.
pub fn issue_token(params: &IssuanceParams, key: &OidcSigningKey, now_unix: i64) -> (r: Result<String, OidcError>)
    ensures
        !ttl_fits(now_unix, params.ttl_secs) <==> r matches Err(OidcError::InvalidTtl),
        ttl_fits(now_unix, params.ttl_secs) ==> r is Ok,
        r is Ok ==> jwt_signed_by(ed25519_public(key.seed_view()), r->Ok_0@),
        r is Ok ==> exists|jti: Seq<char>|
            {
                &&& is_uuid_v4_text(jti)
                &&& is_drawn_uuid(jti)
                &&& r->Ok_0@ == jwt_eddsa_compact(
                    key.kid_view(),
                    claims_json(#[trigger] issued_claims(*params, now_unix, jti)),
                    ed25519_pkcs8(key.seed_view()),
                )
                &&& jwt_payload(r->Ok_0@) == claims_json(issued_claims(*params, now_unix, jti))
            },
{
    let jti = draw_uuid();
    let ghost jti_text = jti@;
    let claims = match build_claims(params, now_unix, jti) {
        Ok(c) => c,
        Err(e) => {
            return Err(e);
        },
    };
    let payload = write_claims_json(&claims);
    let der = match key.pkcs8_der() {
        Some(d) => d,
        None => {
            return Err(OidcError::Jwt(to_owned_string("Ed25519 key could not be encoded as PKCS#8")));
        },
    };
    proof {
        lemma_claims_json_braces(claims@);
        key.lemma_seed_len();
        assert(der@ == ed25519_pkcs8(key.seed_view()));
        assert(payload@ == claims_json(claims@));
    }
    match jwt_sign_eddsa(key.kid(), payload.as_str(), der.as_slice()) {
        Ok(t) => {
            assert(is_uuid_v4_text(jti_text) && is_drawn_uuid(jti_text));
            Ok(t)
        },
        Err(e) => Err(jwt_refusal(&e)),
    }
}

/// Accepts the claims text of a token whose signature, issuer, audience and expiry were checked,
/// at clock reading `now`, consuming its JWT ID.
///
/// The text must be the JSON of a claims value (`Jwt` otherwise, the store unchanged). Then the
/// JWT ID is checked and recorded in `jti_store`: `JtiReplay` when it was used before and has not
/// expired, the claims otherwise.
pub fn accept_claims_at(payload: &str, jti_store: &mut JtiStore, now: i64) -> (r: Result<Claims, OidcError>)
    requires
        old(jti_store).wf(),
    ensures
        final(jti_store).wf(),
        (forall|d: ClaimsData| claims_json(d) != payload@) ==> (r is Err && r->Err_0 is Jwt
            && final(jti_store)@ == old(jti_store)@),
        forall|d: ClaimsData| #[trigger] claims_json(d) == payload@ ==> {
            &&& final(jti_store)@ == check_insert_step(old(jti_store)@, d.jti, d.exp, now)
            &&& is_replay(old(jti_store)@, d.jti, now) ==> (r matches Err(OidcError::JtiReplay))
            &&& !is_replay(old(jti_store)@, d.jti, now) ==> (r is Ok && r->Ok_0@ == d)
        },
{
    match read_claims_json(payload) {
        None => Err(OidcError::Jwt(to_owned_string("token claims are not in the issued form"))),
        Some(c) => {
            match jti_store.check_and_insert_at(c.jti.as_str(), c.exp, now) {
                Ok(()) => Ok(c),
                Err(e) => Err(e),
            }
        },
    }
}

/// Checks the claims text of a token whose signature, issuer, audience and expiry were checked,
/// at clock reading `now`, without consuming its JWT ID.
///
/// The text must be the JSON of a claims value (`Jwt` otherwise); `JtiReplay` when the JWT ID is
/// blacklisted and not yet expired, the claims otherwise.
pub fn check_claims_at(payload: &str, jti_store: &JtiStore, now: i64) -> (r: Result<Claims, OidcError>)
    requires
        jti_store.wf(),
    ensures
        (forall|d: ClaimsData| claims_json(d) != payload@) ==> (r is Err && r->Err_0 is Jwt),
        forall|d: ClaimsData| #[trigger] claims_json(d) == payload@ ==> {
            &&& blacklisted(jti_store@, d.jti, now) ==> (r matches Err(OidcError::JtiReplay))
            &&& !blacklisted(jti_store@, d.jti, now) ==> (r is Ok && r->Ok_0@ == d)
        },
{
    match read_claims_json(payload) {
        None => Err(OidcError::Jwt(to_owned_string("token claims are not in the issued form"))),
        Some(c) => {
            if jti_store.is_blacklisted_at(c.jti.as_str(), now) {
                Err(OidcError::JtiReplay)
            } else {
                Ok(c)
            }
        },
    }
}

/// The clock leeway used when checking `exp`: none, so that a token stops validating exactly
/// when its JWT ID leaves the replay store.
pub const VALIDATION_LEEWAY_SECS: u64 = 0;

/// Validates an OIDC ID token and returns its claims, consuming its JWT ID (one-time use).
///
/// Checks signature, expiry, issuer and audience (through the JWT library) and JWT ID replay.
/// A token that is accepted carries a valid signature under `key`, and the claims that come back
/// are the token's own claims, with the expected issuer and audience; their JWT ID was fresh and
/// is now recorded. Only claims texts in the form this library writes are accepted
/// (`read_claims_json`); any other claims text is refused as `Jwt`.
pub fn validate_token(jwt: &str, expected_issuer: &str, expected_aud: &str, key: &OidcSigningKey, jti_store: &mut JtiStore) -> (r: Result<Claims, OidcError>)
    requires
        old(jti_store).wf(),
    ensures
        final(jti_store).wf(),
        r is Ok ==> jwt_signed_by(ed25519_public(key.seed_view()), jwt@),
        r is Ok ==> {
            &&& claims_json(r->Ok_0@) == jwt_payload(jwt@)
            &&& r->Ok_0@.iss == expected_issuer@
            &&& r->Ok_0@.aud == expected_aud@
            &&& exists|now: i64|
                {
                    &&& is_clock_reading(now)
                    &&& !is_replay(old(jti_store)@, r->Ok_0@.jti, now)
                    &&& final(jti_store)@ == #[trigger] check_insert_step(old(jti_store)@, r->Ok_0@.jti, r->Ok_0@.exp, now)
                }
        },
        r matches Err(OidcError::JtiReplay) ==> exists|d: ClaimsData, now: i64|
            {
                &&& is_clock_reading(now)
                &&& #[trigger] claims_json(d) == jwt_payload(jwt@)
                &&& is_replay(old(jti_store)@, d.jti, now)
                &&& final(jti_store)@ == #[trigger] check_insert_step(old(jti_store)@, d.jti, d.exp, now)
            },
        !(r is Ok || r matches Err(OidcError::JtiReplay)) ==> final(jti_store)@ == old(jti_store)@,
{
    let public_key = key.verifying_key();
    let audiences = [expected_aud];
    proof {
        assert(audiences@.len() == 1 && audiences@[0] == expected_aud);
    }
    match jwt_verify_eddsa(jwt, expected_issuer, &audiences, true, VALIDATION_LEEWAY_SECS, &public_key) {
        Err(e) => Err(jwt_refusal(&e)),
        Ok(payload) => {
            let now = read_clock();
            let r = accept_claims_at(payload.as_str(), jti_store, now);
            proof {
                match &r {
                    Ok(c) => {
                        assert(claims_json(c@) == payload@);
                    },
                    Err(OidcError::JtiReplay) => {
                        let d = choose|d: ClaimsData| claims_json(d) == payload@;
                        assert(claims_json(d) == payload@);
                    },
                    _ => {},
                }
            }
            r
        },
    }
}

/// What `decode_token_at` promises of its result `r` at clock reading `now`: accepted claims are
/// the token's own, with the expected issuer (and audience), and not blacklisted at `now`; a
/// replay refusal names claims of the token that are blacklisted at `now`.
pub open spec fn decode_outcome(
    jwt: Seq<char>,
    issuer: Seq<char>,
    aud: Option<Seq<char>>,
    m: Map<Seq<char>, i64>,
    r: Result<Claims, OidcError>,
    now: i64,
) -> bool {
    &&& r is Ok ==> {
        &&& claims_json(r->Ok_0@) == jwt_payload(jwt)
        &&& r->Ok_0@.iss == issuer
        &&& (aud matches Some(a) ==> r->Ok_0@.aud == a)
        &&& !blacklisted(m, r->Ok_0@.jti, now)
    }
    &&& r matches Err(OidcError::JtiReplay) ==> exists|d: ClaimsData|
        #[trigger] claims_json(d) == jwt_payload(jwt) && blacklisted(m, d.jti, now)
}

/// The text of an optional string slice.
pub open spec fn opt_view(a: Option<&str>) -> Option<Seq<char>> {
    match a {
        Some(s) => Some(s@),
        None => None,
    }
}

/// Decodes and validates an OIDC ID token for repeated bearer use, without consuming its JWT ID,
/// consulting the JWT ID blacklist at clock reading `now`.
///
/// Checks signature, expiry and issuer (through the JWT library, with its own clock), the
/// audience when one is expected (`None` skips the audience check, for issuer-hosted endpoints
/// that serve every relying party), and the JWT ID blacklist: `JtiReplay` when the ID is
/// blacklisted at `now`. A token is accepted only under `key`'s public key, and only with a
/// claims text in the form this library writes (any other is refused as `Jwt`). Claims that come back are the token's own claims, with the expected
/// issuer (and audience), and their JWT ID is not blacklisted at `now`.
pub fn decode_token_at(
    jwt: &str,
    expected_issuer: &str,
    expected_aud: Option<&str>,
    key: &OidcSigningKey,
    jti_store: &JtiStore,
    now: i64,
) -> (r: Result<Claims, OidcError>)
    requires
        jti_store.wf(),
    ensures
        r is Ok ==> jwt_signed_by(ed25519_public(key.seed_view()), jwt@),
        decode_outcome(jwt@, expected_issuer@, opt_view(expected_aud), jti_store@, r, now),
{
    let public_key = key.verifying_key();
    let (aud, check) = match expected_aud {
        Some(a) => (a, true),
        None => ("", false),
    };
    let audiences = [aud];
    proof {
        assert(audiences@.len() == 1 && audiences@[0] == aud);
    }
    match jwt_verify_eddsa(jwt, expected_issuer, &audiences, check, VALIDATION_LEEWAY_SECS, &public_key) {
        Err(e) => Err(jwt_refusal(&e)),
        Ok(payload) => {
            let r = check_claims_at(payload.as_str(), jti_store, now);
            proof {
                match &r {
                    Ok(c) => {
                        assert(claims_json(c@) == payload@);
                    },
                    Err(OidcError::JtiReplay) => {
                        let d = choose|d: ClaimsData| claims_json(d) == payload@;
                        assert(claims_json(d) == payload@);
                    },
                    _ => {},
                }
            }
            r
        },
    }
}

/// Decodes and validates an OIDC ID token for repeated bearer use, without consuming its JWT ID;
/// see `decode_token_at`, here with the blacklist consulted at the current clock reading.
pub fn decode_token(
    jwt: &str,
    expected_issuer: &str,
    expected_aud: Option<&str>,
    key: &OidcSigningKey,
    jti_store: &JtiStore,
) -> (r: Result<Claims, OidcError>)
    requires
        jti_store.wf(),
    ensures
        r is Ok ==> jwt_signed_by(ed25519_public(key.seed_view()), jwt@),
        exists|now: i64|
            is_clock_reading(now) && #[trigger] decode_outcome(jwt@, expected_issuer@, opt_view(expected_aud), jti_store@, r, now),
{
    let now = read_clock();
    decode_token_at(jwt, expected_issuer, expected_aud, key, jti_store, now)
}

/// A token that `issue_token` issued, when `validate_token` or `decode_token` accepts it, gives
/// back exactly the claims that were issued: the token carries the JSON of the issued claims,
/// the accepted claims are those whose JSON the token carries, and distinct claims have
/// distinct JSON.
pub proof fn lemma_accepted_token_gives_issued_claims(jwt: Seq<char>, issued: ClaimsData, accepted: ClaimsData)
    requires
        jwt_payload(jwt) == claims_json(issued),
        claims_json(accepted) == jwt_payload(jwt),
    ensures
        accepted == issued,
{
    lemma_claims_json_injective(accepted, issued);
}

/// A token whose JWT ID `validate_token` consumed (recording its expiry `exp` at clock reading
/// `t1`) stays refused as a replay while the clock reads before `exp`, whatever other token was
/// validated in between (which leaves the store as it was, or records its own ID at a clock
/// reading `t2` before `exp`).
pub proof fn lemma_consumed_token_stays_refused(
    m0: Map<Seq<char>, i64>,
    m1: Map<Seq<char>, i64>,
    m2: Map<Seq<char>, i64>,
    jti: Seq<char>,
    exp: i64,
    other: Seq<char>,
    other_exp: i64,
    t1: i64,
    t2: i64,
    t3: i64,
)
    requires
        !is_replay(m0, jti, t1),
        m1 == check_insert_step(m0, jti, exp, t1),
        m2 == m1 || (t2 < exp && m2 == check_insert_step(m1, other, other_exp, t2)),
        t3 < exp,
    ensures
        is_replay(m2, jti, t3),
{
    assert(m1.contains_key(jti) && m1[jti] == exp);
    if m2 != m1 {
        lemma_entry_survives_other_updates(m1, jti, exp, other, other_exp, t2);
    }
    assert(m2.contains_key(jti) && m2[jti] == exp);
    assert(evict(m2, t3).contains_key(jti));
}

} // verus!
