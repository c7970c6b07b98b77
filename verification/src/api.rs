//! Decisions of the HTTP API: error responses, the pending-ceremony sessions of the
//! registration and login flows, request validation, bearer-token extraction and rate-limit
//! keys. The application performs the I/O between these steps.
use vstd::prelude::*;

use crate::error::fault_text;
use crate::root_id::{root_fault, root_fault_subject, server_part, username_part, RootId};
use crate::session::{elapsed, evict_sessions, PendingTable, PENDING_SESSION_TTL_MS};
use crate::claims::{claims_json, ClaimsData};
use crate::json::{hex_char, hex_digit};
use crate::text::push_char;
use crate::signing_key::{ed25519_pkcs8, ed25519_public, is_drawn_uuid, is_uuid_v4_text, OidcSigningKey};
use crate::store::StoreError;
use crate::jti::JtiStore;
use crate::claims::Claims;
use crate::jti::blacklisted;
use crate::token::{
    decode_token_at, issue_token, jwt_eddsa_compact, jwt_payload, jwt_signed_by, IssuanceParams,
};
use crate::vsid::{compute_vsid, vsid_root_fault, vsid_text};
use crate::text::{
    ascii_lower_seq, concat_str, decimal, find_char_from, first_index_of, has_prefix,
    starts_with_str, to_owned_string, trim_end_all, trim_end_char, trim_end_ws, trim_start_ws,
    trim_whitespace, usize_to_decimal,
};

verus! {

/// Lifetime of an issued ID token, in seconds.
pub const TOKEN_TTL_SECS: u64 = 3600;

/// All errors that the API handlers return.
#[derive(Debug)]
pub enum ApiError {
    /// An unexpected failure; the text is for the server log only.
    Internal(String),
    NotFound,
    BadRequest(String),
    Conflict(String),
    Unauthorized,
    Forbidden,
    TooManyRequests,
    ServiceUnavailable,
}

/// The HTTP status of an error response.
pub open spec fn api_status(e: ApiError) -> u16 {
    match e {
        ApiError::Internal(_) => 500,
        ApiError::NotFound => 404,
        ApiError::BadRequest(_) => 400,
        ApiError::Conflict(_) => 409,
        ApiError::Unauthorized => 401,
        ApiError::Forbidden => 403,
        ApiError::TooManyRequests => 429,
        ApiError::ServiceUnavailable => 503,
    }
}

/// The `error` text of an error response body. Internal details never reach the client.
pub open spec fn api_body_message(e: ApiError) -> Seq<char> {
    match e {
        ApiError::Internal(_) => "internal server error"@,
        ApiError::NotFound => "not found"@,
        ApiError::BadRequest(m) => m@,
        ApiError::Conflict(m) => m@,
        ApiError::Unauthorized => "unauthorized"@,
        ApiError::Forbidden => "forbidden"@,
        ApiError::TooManyRequests => "too many requests"@,
        ApiError::ServiceUnavailable => "service unavailable"@,
    }
}

impl ApiError {
    /// The HTTP status code of the response for this error.
    pub fn status_code(&self) -> (c: u16)
        ensures
            c == api_status(*self),
    {
        match self {
            ApiError::Internal(_) => 500,
            ApiError::NotFound => 404,
            ApiError::BadRequest(_) => 400,
            ApiError::Conflict(_) => 409,
            ApiError::Unauthorized => 401,
            ApiError::Forbidden => 403,
            ApiError::TooManyRequests => 429,
            ApiError::ServiceUnavailable => 503,
        }
    }

    /// The `error` text of the response body for this error.
    pub fn body_message(&self) -> (r: String)
        ensures
            r@ == api_body_message(*self),
    {
        match self {
            ApiError::Internal(_) => "internal server error".to_owned(),
            ApiError::NotFound => "not found".to_owned(),
            ApiError::BadRequest(m) => to_owned_string(m.as_str()),
            ApiError::Conflict(m) => to_owned_string(m.as_str()),
            ApiError::Unauthorized => "unauthorized".to_owned(),
            ApiError::Forbidden => "forbidden".to_owned(),
            ApiError::TooManyRequests => "too many requests".to_owned(),
            ApiError::ServiceUnavailable => "service unavailable".to_owned(),
        }
    }

    /// The display form of the error.
    pub fn to_string(&self) -> (r: String)
        ensures
            self matches ApiError::BadRequest(m) ==> r@ == "bad request: "@ + m@,
            self matches ApiError::Conflict(m) ==> r@ == "conflict: "@ + m@,
            !(self is BadRequest) && !(self is Conflict) ==> r@ == api_body_message(*self),
    {
        match self {
            ApiError::BadRequest(m) => concat_str("bad request: ", m.as_str()),
            ApiError::Conflict(m) => concat_str("conflict: ", m.as_str()),
            _ => self.body_message(),
        }
    }
}

/// An in-flight registration ceremony.
pub struct PendingRegistration<S> {
    pub user_id: u128,
    pub username: String,
    pub server: String,
    pub state: S,
}

/// An in-flight authentication ceremony, bound to the relying party that asked for it.
pub struct PendingAuthentication<S> {
    pub user_id: u128,
    pub client_id: String,
    pub state: S,
}

/// The pending ceremonies of the API.
pub struct AppSessions<R, A> {
    registrations: PendingTable<PendingRegistration<R>>,
    authentications: PendingTable<PendingAuthentication<A>>,
}

/// How a ceremony session is finished: it is gone from the table either way; it is handed
/// out if it existed and at most the TTL has passed since it was created.
pub open spec fn finish_outcome<T>(entry: Option<(u64, T)>, now: u64, res: Result<T, ApiError>) -> bool {
    match entry {
        None => res matches Err(ApiError::BadRequest(m)) && m@ == "unknown session"@,
        Some((created_at, v)) => if elapsed(created_at, now) > PENDING_SESSION_TTL_MS as int {
            res matches Err(ApiError::BadRequest(m)) && m@ == "session expired"@
        } else {
            res == Ok::<T, ApiError>(v)
        },
    }
}

fn finish_from<T>(entry: Option<(u64, T)>, now: u64) -> (res: Result<T, ApiError>)
    ensures
        finish_outcome(entry, now, res),
{
    match entry {
        None => Err(ApiError::BadRequest("unknown session".to_owned())),
        Some((created_at, v)) => {
            let el = if now >= created_at { now - created_at } else { 0 };
            if el > PENDING_SESSION_TTL_MS {
                Err(ApiError::BadRequest("session expired".to_owned()))
            } else {
                Ok(v)
            }
        },
    }
}

impl<R, A> AppSessions<R, A> {
    /// Both tables are well formed.
    pub open spec fn wf(&self) -> bool {
        self.registrations().wf() && self.authentications().wf()
    }

    /// The pending registrations.
    pub closed spec fn registrations(&self) -> PendingTable<PendingRegistration<R>> {
        self.registrations
    }

    /// The pending authentications.
    pub closed spec fn authentications(&self) -> PendingTable<PendingAuthentication<A>> {
        self.authentications
    }

    /// No pending ceremony.
    pub fn new() -> (s: AppSessions<R, A>)
        ensures
            s.wf(),
            s.registrations()@ == Map::<u128, (u64, PendingRegistration<R>)>::empty(),
            s.authentications()@ == Map::<u128, (u64, PendingAuthentication<A>)>::empty(),
    {
        AppSessions { registrations: PendingTable::new(), authentications: PendingTable::new() }
    }

    /// Evicts pending sessions that are not younger than the TTL at `now`.
    pub fn evict_expired_pending(&mut self, now: u64)
        requires
            old(self).wf(),
        ensures
            final(self).wf(),
            final(self).registrations()@ == evict_sessions(old(self).registrations()@, now),
            final(self).authentications()@ == evict_sessions(old(self).authentications()@, now),
    {
        self.registrations.evict_expired(now);
        self.authentications.evict_expired(now);
    }

    /// Starts a registration ceremony at `now` under `session_id`, after evicting expired ones.
    pub fn begin_registration(&mut self, now: u64, session_id: u128, pending: PendingRegistration<R>)
        requires
            old(self).wf(),
        ensures
            final(self).wf(),
            final(self).registrations()@ == evict_sessions(old(self).registrations()@, now).insert(
                session_id,
                (now, pending),
            ),
            final(self).authentications()@ == evict_sessions(old(self).authentications()@, now),
    {
        self.evict_expired_pending(now);
        self.registrations.insert(session_id, now, pending);
    }

    /// Starts an authentication ceremony at `now` under `session_id`, after evicting expired
    /// ones.
    pub fn begin_authentication(&mut self, now: u64, session_id: u128, pending: PendingAuthentication<A>)
        requires
            old(self).wf(),
        ensures
            final(self).wf(),
            final(self).authentications()@ == evict_sessions(old(self).authentications()@, now).insert(
                session_id,
                (now, pending),
            ),
            final(self).registrations()@ == evict_sessions(old(self).registrations()@, now),
    {
        self.evict_expired_pending(now);
        self.authentications.insert(session_id, now, pending);
    }

    /// Takes the registration ceremony `session_id` for finishing at `now`.
    ///
    /// The session is consumed whatever the outcome; it is refused when unknown or when more
    /// than the TTL has elapsed since it began.
    pub fn finish_registration(&mut self, now: u64, session_id: u128) -> (res: Result<PendingRegistration<R>, ApiError>)
        requires
            old(self).wf(),
        ensures
            final(self).wf(),
            final(self).registrations()@ == old(self).registrations()@.remove(session_id),
            final(self).authentications()@ == old(self).authentications()@,
            finish_outcome(
                if old(self).registrations()@.contains_key(session_id) {
                    Some(old(self).registrations()@[session_id])
                } else {
                    None
                },
                now,
                res,
            ),
    {
        let entry = self.registrations.take(session_id);
        finish_from(entry, now)
    }

    /// Takes the authentication ceremony `session_id` for finishing at `now`; see
    /// `finish_registration`.
    pub fn finish_authentication(&mut self, now: u64, session_id: u128) -> (res: Result<PendingAuthentication<A>, ApiError>)
        requires
            old(self).wf(),
        ensures
            final(self).wf(),
            final(self).authentications()@ == old(self).authentications()@.remove(session_id),
            final(self).registrations()@ == old(self).registrations()@,
            finish_outcome(
                if old(self).authentications()@.contains_key(session_id) {
                    Some(old(self).authentications()@[session_id])
                } else {
                    None
                },
                now,
                res,
            ),
    {
        let entry = self.authentications.take(session_id);
        finish_from(entry, now)
    }
}

/// A finished ceremony cannot be finished again: its session is gone, so a second attempt
/// is refused as unknown.
pub proof fn lemma_session_single_use<T>(table: Map<u128, (u64, T)>, id: u128, now: u64, res: Result<T, ApiError>)
    requires
        finish_outcome(
            if table.remove(id).contains_key(id) { Some(table.remove(id)[id]) } else { None },
            now,
            res,
        ),
    ensures
        res matches Err(ApiError::BadRequest(m)) && m@ == "unknown session"@,
{
}

/// A session begun at `t` and finished no later than `t + TTL` is handed out.
pub proof fn lemma_fresh_session_is_usable<T>(t: u64, now: u64, v: T, res: Result<T, ApiError>)
    requires
        t <= now,
        now - t <= PENDING_SESSION_TTL_MS,
        finish_outcome(Some((t, v)), now, res),
    ensures
        res == Ok::<T, ApiError>(v),
{
}

/// Body of `POST /auth/register/begin`.
pub struct BeginRegisterRequest {
    pub username: String,
}

/// Body of `POST /auth/login/begin`.
pub struct BeginLoginRequest {
    pub username: String,
    /// Relying-party identifier (the OIDC `client_id`) that will receive the ID token; the
    /// token's audience and VSID are derived from it. Required.
    pub client_id: String,
}

/// Body of a successful `POST /auth/login/finish`.
pub struct LoginResponse {
    pub id_token: String,
    /// The user's id, as hyphenated lowercase UUID text.
    pub user_id: String,
}

/// Claims of a request authenticated by its bearer token.
pub struct AuthenticatedClaims(pub Claims);

/// The identity of a registration request: the username must parse as `username@server`;
/// otherwise the request is a bad request carrying the parser's message.
pub fn registration_identity(body: &BeginRegisterRequest) -> (res: Result<RootId, ApiError>)
    ensures
        match root_fault(body.username@) {
            Some(f) => res matches Err(ApiError::BadRequest(m)) && m@ == "invalid identifier: "@
                + fault_text(f, root_fault_subject(body.username@)),
            None => res matches Ok(id) && id.username@ == username_part(body.username@)
                && id.server@ == ascii_lower_seq(server_part(body.username@)),
        },
{
    match RootId::parse(body.username.as_str()) {
        Ok(id) => Ok(id),
        Err(e) => Err(ApiError::BadRequest(e.to_string())),
    }
}

/// `user <username> already exists`.
pub open spec fn user_exists_message(username: Seq<char>) -> Seq<char> {
    "user "@ + username + " already exists"@
}

/// Registration of a username that already has an account is a conflict.
pub fn reject_existing_user(username: &str, exists: bool) -> (res: Result<(), ApiError>)
    ensures
        !exists <==> res is Ok,
        exists ==> (res matches Err(ApiError::Conflict(m)) && m@ == user_exists_message(username@)),
{
    if exists {
        let mut m = concat_str("user ", username);
        m.append(" already exists");
        return Err(ApiError::Conflict(m));
    }
    Ok(())
}

/// The store's refusal of an atomic registration: a duplicate username is a conflict, any
/// other failure is internal.
pub fn registration_store_error(e: StoreError, username: &str) -> (r: ApiError)
    ensures
        e is Duplicate ==> (r matches ApiError::Conflict(m) && m@ == user_exists_message(username@)),
        !(e is Duplicate) ==> r is Internal,
{
    match e {
        StoreError::Duplicate => {
            let mut m = concat_str("user ", username);
            m.append(" already exists");
            ApiError::Conflict(m)
        },
        other => ApiError::Internal(other.to_string()),
    }
}

/// The identity and relying party of a login request: the username must parse (else a bad
/// request with the parser's message), then the client id must be non-empty.
pub fn login_identity(body: &BeginLoginRequest) -> (res: Result<RootId, ApiError>)
    ensures
        root_fault(body.username@) matches Some(f) ==> (res matches Err(ApiError::BadRequest(m))
            && m@ == "invalid identifier: "@ + fault_text(f, root_fault_subject(body.username@))),
        root_fault(body.username@) is None && body.client_id@.len() == 0 ==> (res matches Err(
            ApiError::BadRequest(m),
        ) && m@ == "client_id is required"@),
        root_fault(body.username@) is None && body.client_id@.len() > 0 ==> (res matches Ok(id)
            && id.username@ == username_part(body.username@) && id.server@ == ascii_lower_seq(
            server_part(body.username@),
        )),
{
    let id = match RootId::parse(body.username.as_str()) {
        Ok(id) => id,
        Err(e) => {
            return Err(ApiError::BadRequest(e.to_string()));
        },
    };
    if body.client_id.as_str().is_empty() {
        return Err(ApiError::BadRequest("client_id is required".to_owned()));
    }
    Ok(id)
}

/// Index of the first credential id equal to `target`.
pub fn find_credential(ids: &Vec<String>, target: &str) -> (r: Option<usize>)
    ensures
        r matches Some(i) ==> i < ids@.len() && ids@[i as int]@ == target@ && forall|k: int|
            0 <= k < i ==> (#[trigger] ids@[k])@ != target@,
        r is None ==> forall|k: int| 0 <= k < ids@.len() ==> (#[trigger] ids@[k])@ != target@,
{
    let t = to_owned_string(target);
    let mut i: usize = 0;
    while i < ids.len()
        invariant
            i <= ids@.len(),
            t@ == target@,
            forall|k: int| 0 <= k < i ==> (#[trigger] ids@[k])@ != target@,
        decreases ids@.len() - i,
    {
        if ids[i] == t {
            return Some(i);
        }
        i = i + 1;
    }
    None
}

/// The token issuer for a base URL: the URL text without trailing slashes.
pub fn issuer_from_base_url(base_url: &str) -> (r: String)
    ensures
        r@ == trim_end_all(base_url@, '/'),
{
    to_owned_string(trim_end_char(base_url, '/'))
}

/// The last `n` hexadecimal digits of `v` (lowercase, most significant first).
pub open spec fn hex_digits(v: nat, n: nat) -> Seq<char>
    decreases n,
{
    if n == 0 {
        seq![]
    } else {
        hex_digits(v / 16, (n - 1) as nat).push(hex_char((v % 16) as int))
    }
}

/// The hyphenated lowercase text of a 128-bit UUID: `8-4-4-4-12` hexadecimal digits.
pub open spec fn uuid_text(v: u128) -> Seq<char> {
    let h = hex_digits(v as nat, 32);
    h.subrange(0, 8) + seq!['-'] + h.subrange(8, 12) + seq!['-'] + h.subrange(12, 16) + seq!['-']
        + h.subrange(16, 20) + seq!['-'] + h.subrange(20, 32)
}

proof fn lemma_hex_digits_len(v: nat, n: nat)
    ensures
        hex_digits(v, n).len() == n,
    decreases n,
{
    if n > 0 {
        lemma_hex_digits_len(v / 16, (n - 1) as nat);
    }
}

/// Appends the last `n` hexadecimal digits of `v` to `out`.
fn push_hex_digits(out: &mut String, v: u128, n: usize)
    ensures
        final(out)@ == old(out)@ + hex_digits(v as nat, n as nat),
    decreases n,
{
    if n > 0 {
        push_hex_digits(out, v / 16, n - 1);
        let d = hex_digit((v % 16) as u8);
        push_char(out, d);
        proof {
            assert((v / 16) as nat == (v as nat) / 16);
            assert(final(out)@ =~= old(out)@ + hex_digits(v as nat, n as nat));
        }
    } else {
        proof {
            assert(old(out)@ + hex_digits(v as nat, 0) =~= old(out)@);
        }
    }
}

/// The hyphenated lowercase UUID text of a 128-bit id (what `Uuid::to_string` gives).
pub fn uuid_to_string(id: u128) -> (r: String)
    ensures
        r@ == uuid_text(id),
{
    let mut h = String::new();
    push_hex_digits(&mut h, id, 32);
    proof {
        lemma_hex_digits_len(id as nat, 32);
        assert(h@ =~= hex_digits(id as nat, 32));
    }
    let hs = h.as_str();
    let mut out = to_owned_string(hs.substring_char(0, 8));
    push_char(&mut out, '-');
    out.append(hs.substring_char(8, 12));
    push_char(&mut out, '-');
    out.append(hs.substring_char(12, 16));
    push_char(&mut out, '-');
    out.append(hs.substring_char(16, 20));
    push_char(&mut out, '-');
    out.append(hs.substring_char(20, 32));
    proof {
        assert(out@ =~= uuid_text(id));
    }
    out
}

/// The claims of the ID token issued at the end of a login: the subject is the VSID of the
/// user's root DID for the relying party, the issuer the base URL without trailing slashes, and
/// the token lives `TOKEN_TTL_SECS`.
pub open spec fn login_claims(
    base_url: Seq<char>,
    client_id: Seq<char>,
    user_did: Seq<char>,
    user_server: Seq<char>,
    salt: Seq<u8>,
    now: i64,
    jti: Seq<char>,
) -> ClaimsData {
    ClaimsData {
        sub: vsid_text(user_did, client_id, salt),
        iss: trim_end_all(base_url, '/'),
        aud: client_id,
        exp: (now + TOKEN_TTL_SECS) as i64,
        iat: now,
        jti: jti,
        did: user_did,
        server: user_server,
        alias_type: "public"@,
    }
}

/// Issues the ID token at the end of a successful login of user `user_id`, at clock reading
/// `now` (seconds).
///
/// The user's stored root DID must be a well-formed `did:web` DID and the expiry must fit an
/// `i64`; then the response comes out, otherwise the failure is internal. The response carries
/// the user's id as UUID text and a token with the login claims for some random version-4 UUID
/// as JWT ID.
pub fn login_token(
    user_id: u128,
    base_url: &str,
    client_id: &str,
    user_did: &str,
    user_server: &str,
    vsid_salt: &[u8],
    key: &OidcSigningKey,
    now: i64,
) -> (r: Result<LoginResponse, ApiError>)
    ensures
        vsid_root_fault(user_did@) is Some ==> r is Err && r->Err_0 is Internal,
        now + TOKEN_TTL_SECS > i64::MAX ==> r is Err && r->Err_0 is Internal,
        vsid_root_fault(user_did@) is None && now + TOKEN_TTL_SECS <= i64::MAX ==> r is Ok,
        r is Err ==> r->Err_0 is Internal,
        r is Ok ==> r->Ok_0.user_id@ == uuid_text(user_id),
        r is Ok ==> jwt_signed_by(ed25519_public(key.seed_view()), r->Ok_0.id_token@),
        r is Ok ==> exists|jti: Seq<char>|
            {
                &&& is_uuid_v4_text(jti)
                &&& is_drawn_uuid(jti)
                &&& r->Ok_0.id_token@ == jwt_eddsa_compact(
                    key.kid_view(),
                    claims_json(#[trigger] login_claims(base_url@, client_id@, user_did@, user_server@, vsid_salt@, now, jti)),
                    ed25519_pkcs8(key.seed_view()),
                )
                &&& jwt_payload(r->Ok_0.id_token@) == claims_json(
                    login_claims(base_url@, client_id@, user_did@, user_server@, vsid_salt@, now, jti),
                )
            },
{
    let issuer = issuer_from_base_url(base_url);
    let vsid = match compute_vsid(user_did, client_id, vsid_salt) {
        Ok(v) => v,
        Err(e) => {
            return Err(ApiError::Internal(e.to_string()));
        },
    };
    let params = IssuanceParams {
        vsid: &vsid,
        issuer: issuer.as_str(),
        client_id,
        user_did,
        server: user_server,
        ttl_secs: TOKEN_TTL_SECS,
    };
    match issue_token(&params, key, now) {
        Ok(t) => {
            proof {
                let jti = choose|jti: Seq<char>|
                    {
                        &&& is_uuid_v4_text(jti)
                        &&& is_drawn_uuid(jti)
                        &&& t@ == jwt_eddsa_compact(
                            key.kid_view(),
                            claims_json(#[trigger] crate::token::issued_claims(params, now, jti)),
                            ed25519_pkcs8(key.seed_view()),
                        )
                        &&& jwt_payload(t@) == claims_json(crate::token::issued_claims(params, now, jti))
                    };
                assert(crate::token::issued_claims(params, now, jti) == login_claims(
                    base_url@,
                    client_id@,
                    user_did@,
                    user_server@,
                    vsid_salt@,
                    now,
                    jti,
                ));
            }
            Ok(LoginResponse { id_token: t, user_id: uuid_to_string(user_id) })
        },
        Err(e) => Err(ApiError::Internal(e.to_string())),
    }
}

/// `Bearer ` as characters.
pub open spec fn bearer_prefix() -> Seq<char> {
    seq!['B', 'e', 'a', 'r', 'e', 'r', ' ']
}

/// The token of an `Authorization: Bearer <token>` header value, if it has that form.
pub fn bearer_token(header: Option<&str>) -> (r: Option<String>)
    ensures
        match header {
            None => r is None,
            Some(h) => if has_prefix(h@, bearer_prefix()) {
                r matches Some(t) && t@ == h@.skip(7)
            } else {
                r is None
            },
        },
{
    match header {
        None => None,
        Some(h) => {
            proof {
                reveal_strlit("Bearer ");
                assert("Bearer "@ =~= bearer_prefix());
            }
            if starts_with_str(h, "Bearer ") {
                let n = h.unicode_len();
                Some(to_owned_string(h.substring_char(7, n)))
            } else {
                None
            }
        },
    }
}

/// Authenticates a request by its `Authorization` header value.
///
/// The header must carry `Bearer <token>`, and the token must decode and validate against the
/// issuer (the base URL without trailing slashes) with no audience check, and its JWT ID must not
/// be blacklisted in `jti_store` at clock reading `now`; every refusal is `Unauthorized`. Claims
/// that come back are the token's own, issued by this issuer, with a JWT ID not blacklisted at
/// `now`. (The persistent blacklist is consulted next, with `admit_authenticated`.)
pub fn authenticate_bearer(
    header: Option<&str>,
    base_url: &str,
    key: &OidcSigningKey,
    jti_store: &JtiStore,
    now: i64,
) -> (r: Result<AuthenticatedClaims, ApiError>)
    requires
        jti_store.wf(),
    ensures
        r is Err ==> r->Err_0 is Unauthorized,
        match header {
            None => r is Err,
            Some(h) => !has_prefix(h@, bearer_prefix()) ==> r is Err,
        },
        r is Ok ==> (header matches Some(h) && has_prefix(h@, bearer_prefix())
            && claims_json(r->Ok_0.0@) == jwt_payload(h@.skip(7)) && r->Ok_0.0@.iss == trim_end_all(
            base_url@,
            '/',
        )),
        r is Ok ==> !blacklisted(jti_store@, r->Ok_0.0@.jti, now),
        r is Ok ==> (header matches Some(h) && jwt_signed_by(ed25519_public(key.seed_view()), h@.skip(7))),
{
    let token = match bearer_token(header) {
        Some(t) => t,
        None => {
            return Err(ApiError::Unauthorized);
        },
    };
    let issuer = issuer_from_base_url(base_url);
    match decode_token_at(token.as_str(), issuer.as_str(), None, key, jti_store, now) {
        Ok(c) => Ok(AuthenticatedClaims(c)),
        Err(_) => Err(ApiError::Unauthorized),
    }
}

/// The last step of authentication: claims are admitted only when the persistent blacklist was
/// consulted (`Some`) and does not hold their JWT ID; a failed lookup (`None`) or a revoked ID is
/// `Unauthorized`.
pub fn admit_authenticated(claims: AuthenticatedClaims, persistently_revoked: Option<bool>) -> (r: Result<AuthenticatedClaims, ApiError>)
    ensures
        persistently_revoked == Some(false) <==> r is Ok,
        r is Ok ==> r->Ok_0.0@ == claims.0@,
        r is Err ==> r->Err_0 is Unauthorized,
{
    match persistently_revoked {
        Some(false) => Ok(claims),
        _ => Err(ApiError::Unauthorized),
    }
}

/// The first comma-separated element of a forwarded-for header, trimmed of white space.
pub open spec fn first_forwarded(h: Seq<char>) -> Seq<char> {
    trim_start_ws(trim_end_ws(h.take(first_index_of(h, ','))))
}

/// The rate-limit key of a request.
///
/// With a trusted proxy, the first address of `x-forwarded-for` when it is non-empty; else
/// the TCP peer address; else the shared key `0.0.0.0`.
pub open spec fn rate_limit_key_of(trust_header: bool, forwarded_for: Option<Seq<char>>, peer_ip: Option<Seq<char>>) -> Seq<char> {
    if trust_header && forwarded_for is Some && first_forwarded(forwarded_for->0).len() > 0 {
        first_forwarded(forwarded_for->0)
    } else if peer_ip is Some {
        peer_ip->0
    } else {
        "0.0.0.0"@
    }
}

/// Computes the rate-limit key of a request; see `rate_limit_key_of`.
pub fn rate_limit_key(trust_header: bool, forwarded_for: Option<&str>, peer_ip: Option<&str>) -> (r: String)
    ensures
        r@ == rate_limit_key_of(
            trust_header,
            match forwarded_for {
                Some(h) => Some(h@),
                None => None,
            },
            match peer_ip {
                Some(p) => Some(p@),
                None => None,
            },
        ),
{
    if trust_header {
        if let Some(h) = forwarded_for {
            let i = find_char_from(h, ',', 0);
            proof {
                assert(h@.skip(0) =~= h@);
            }
            let first = trim_whitespace(h.substring_char(0, i));
            if !first.is_empty() {
                return to_owned_string(first);
            }
        }
    }
    match peer_ip {
        Some(p) => to_owned_string(p),
        None => "0.0.0.0".to_owned(),
    }
}

/// The `did:web` server component of a base URL's host and port: `host` alone, or
/// `host%3Aport` when the URL has a port.
pub open spec fn did_server_of(host: Seq<char>, port: Option<u16>) -> Seq<char> {
    match port {
        Some(p) => host + "%3A"@ + decimal(p as nat),
        None => host,
    }
}

/// Computes the `did:web` server component; see `did_server_of`.
pub fn did_server_component(host: &str, port: Option<u16>) -> (r: String)
    ensures
        r@ == did_server_of(host@, port),
{
    match port {
        Some(p) => {
            let mut s = concat_str(host, "%3A");
            let d = usize_to_decimal(p as usize);
            s.append(d.as_str());
            s
        },
        None => to_owned_string(host),
    }
}

} // verus!
