//! DIDs: `did:web` construction and URL mapping, `did:peer:2` generation and resolution, and
//! the DID Core document served at `.well-known/did.json`.
use vstd::prelude::*;

use crate::alias::{did_peer_of, did_peer_prefix, multicodec_ed25519};
use crate::codec::{base58_encode, bs58_decode, bs58_encode, bs58_error_text};
use crate::root_id::{build_did_web_string, did_web_of, did_web_prefix};
use crate::text::{
    concat_str, decimal, extend_bytes, find_char_from, first_index_of, has_prefix, push_char,
    replace_all, replace_char, replace_char_str, replace_str, starts_with_str, to_owned_string,
    usize_to_decimal,
};

verus! {

/// Declares `url::Url` so that verified code can carry it.
#[verifier::external_type_specification]
#[verifier::external_body]
pub struct ExUrl(url::Url);

/// Declares `url::ParseError` so that verified code can carry it.
#[verifier::external_type_specification]
#[verifier::external_body]
pub struct ExUrlParseError(url::ParseError);

/// What `url::Url::parse` makes of a text: its serialisation when the text is accepted,
/// `None` when it is refused.
pub uninterp spec fn url_parse(text: Seq<char>) -> Option<Seq<char>>;

/// The host of the URL that `url::Url::parse` makes of a text (`Url::host_str`), when it has
/// one.
pub uninterp spec fn url_host(text: Seq<char>) -> Option<Seq<char>>;

/// The port of the URL that `url::Url::parse` makes of a text, or the default port of its
/// scheme (`Url::port_or_known_default`), when there is one.
pub uninterp spec fn url_port_or_default(text: Seq<char>) -> Option<u16>;

/// `url::Url::parse`, returning the parsed URL with its serialisation (`Url::as_str`), its host
/// (`Url::host_str`) and its port or the scheme's default port (`Url::port_or_known_default`).
/// The claim: the call succeeds exactly when `url_parse` accepts the text, and the serialisation,
/// host and port are the ones that `url_parse`, `url_host` and `url_port_or_default` name.
#[verifier::external_body]
fn parse_url(text: &str) -> (r: Result<(url::Url, String, Option<String>, Option<u16>), url::ParseError>)
    ensures
        match url_parse(text@) {
            Some(t) => r is Ok && r->Ok_0.1@ == t,
            None => r is Err,
        },
        r is Ok ==> match url_host(text@) {
            Some(h) => r->Ok_0.2 is Some && r->Ok_0.2->Some_0@ == h,
            None => r->Ok_0.2 is None,
        },
        r is Ok ==> r->Ok_0.3 == url_port_or_default(text@),
{
    match url::Url::parse(text) {
        Ok(u) => {
            let s = u.as_str().to_string();
            let h = u.host_str().map(|x| x.to_string());
            let p = u.port_or_known_default();
            Ok((u, s, h, p))
        },
        Err(e) => Err(e),
    }
}

/// The message that `url::ParseError` displays (its `Display` impl); nothing is claimed of it.
#[verifier::external_body]
fn url_error_text(e: &url::ParseError) -> String {
    e.to_string()
}

/// Errors of DID handling.
#[derive(Debug)]
pub enum DidError {
    /// The DID does not have the expected method; the text says why.
    InvalidDid(String),
    /// The URL derived from a `did:web` DID was refused by the URL parser.
    Url(url::ParseError),
    /// Key material has the wrong length or encoding; the text says why.
    InvalidKey(String),
}

impl DidError {
    /// The display form of the error.
    pub fn to_string(&self) -> (r: String)
        ensures
            self matches DidError::InvalidDid(m) ==> r@ == "invalid DID: "@ + m@,
            self matches DidError::InvalidKey(m) ==> r@ == "invalid public key: "@ + m@,
    {
        match self {
            DidError::InvalidDid(m) => concat_str("invalid DID: ", m.as_str()),
            DidError::Url(e) => {
                let t = url_error_text(e);
                concat_str("URL parse error: ", t.as_str())
            },
            DidError::InvalidKey(m) => concat_str("invalid public key: ", m.as_str()),
        }
    }
}

/// A decentralised identifier, held as text.
#[derive(Debug, Clone, PartialEq, Eq)]
pub struct Did(String);

impl View for Did {
    type V = Seq<char>;

    closed spec fn view(&self) -> Seq<char> {
        self.0@
    }
}

impl Did {
    /// A DID with the given text (not validated).
    pub fn new(s: &str) -> (d: Did)
        ensures
            d@ == s@,
    {
        Did(to_owned_string(s))
    }

    /// The DID text.
    pub fn as_str(&self) -> (r: &str)
        ensures
            r@ == self@,
    {
        self.0.as_str()
    }

    /// The display form of the DID (its text).
    pub fn to_string(&self) -> (r: String)
        ensures
            r@ == self@,
    {
        to_owned_string(self.0.as_str())
    }
}

/// A URL derived from a DID, with its serialisation.
pub struct DidUrl {
    url: url::Url,
    text: String,
}

impl View for DidUrl {
    type V = Seq<char>;

    closed spec fn view(&self) -> Seq<char> {
        self.text@
    }
}

impl DidUrl {
    /// The serialised URL.
    pub fn as_str(&self) -> (r: &str)
        ensures
            r@ == self@,
    {
        self.text.as_str()
    }

    /// The parsed URL that this value holds (the one whose serialisation is `self@`).
    pub closed spec fn parsed(&self) -> url::Url {
        self.url
    }

    /// The parsed URL.
    pub fn url(&self) -> (r: &url::Url)
        ensures
            *r == self.parsed(),
    {
        &self.url
    }
}

/// `not a did:web DID: <did>`.
pub open spec fn not_did_web_message(did: Seq<char>) -> Seq<char> {
    "not a did:web DID: "@ + did
}

/// `not a did:peer:2.z DID: <did>`.
pub open spec fn not_did_peer_message(did: Seq<char>) -> Seq<char> {
    "not a did:peer:2.z DID: "@ + did
}

/// `expected 32 bytes, got <n>`.
pub open spec fn key_length_message(n: nat) -> Seq<char> {
    "expected 32 bytes, got "@ + decimal(n)
}

/// `expected 32 key bytes, got <n>`.
pub open spec fn decoded_length_message(n: nat) -> Seq<char> {
    "expected 32 key bytes, got "@ + decimal(n)
}

/// `invalid ed25519-pub multicodec prefix`.
pub open spec fn bad_multicodec_message() -> Seq<char> {
    "invalid ed25519-pub multicodec prefix"@
}

/// The host component of a `did:web` DID with its percent-encoded `:` and `/` decoded
/// (`%3A`, `%3a`, `%2F`, `%2f`, replaced in that order).
pub open spec fn decode_host(h: Seq<char>) -> Seq<char> {
    replace_all(
        replace_all(
            replace_all(replace_all(h, "%3A"@, ":"@), "%3a"@, ":"@),
            "%2F"@,
            "/"@,
        ),
        "%2f"@,
        "/"@,
    )
}

/// The URL text for a `did:web` DID (which starts with `did:web:`).
///
/// `did:web:<host>` maps to `https://<host>/.well-known/did.json`;
/// `did:web:<host>:<p1>:...:<pn>` maps to `https://<host>/<p1>/.../<pn>/did.json`.
pub open spec fn did_web_url_text(did: Seq<char>) -> Seq<char> {
    let ms = did.skip(8);
    let i = first_index_of(ms, ':');
    let host = decode_host(ms.take(i));
    if i == ms.len() {
        "https://"@ + host + "/.well-known/did.json"@
    } else {
        "https://"@ + host + "/"@ + replace_char(ms.skip(i + 1), ':', '/') + "/did.json"@
    }
}

/// Build a `did:web` DID for a user on a given server: `did:web:<server>:u:<username>`.
pub fn build_did_web(username: &str, server: &str) -> (d: Did)
    ensures
        d@ == did_web_of(username@, server@),
{
    Did(build_did_web_string(username, server))
}

/// Map a `did:web` DID to the URL of its DID document.
///
/// Colon-separated path components after the host become URL path segments; the host is
/// percent-decoded first so that `%3A` ports and `%2F` sub-paths come out literally.
pub fn did_web_to_url(did: &Did) -> (res: Result<DidUrl, DidError>)
    ensures
        !has_prefix(did@, did_web_prefix()) ==> (res matches Err(DidError::InvalidDid(m)) && m@
            == not_did_web_message(did@)),
        has_prefix(did@, did_web_prefix()) ==> match url_parse(did_web_url_text(did@)) {
            Some(t) => res matches Ok(u) && u@ == t,
            None => res matches Err(DidError::Url(_)),
        },
{
    proof {
        reveal_strlit("did:web:");
        assert("did:web:"@ =~= did_web_prefix());
    }
    let s = did.as_str();
    if !starts_with_str(s, "did:web:") {
        return Err(DidError::InvalidDid(concat_str("not a did:web DID: ", s)));
    }
    let n = s.unicode_len();
    let ms = s.substring_char(8, n);
    let m = ms.unicode_len();
    let i = find_char_from(ms, ':', 0);
    proof {
        assert(ms@ =~= s@.skip(8));
        assert(ms@.skip(0) =~= ms@);
        reveal_strlit("%3A");
        reveal_strlit("%3a");
        reveal_strlit("%2F");
        reveal_strlit("%2f");
    }
    let host0 = ms.substring_char(0, i);
    let h1 = replace_str(host0, "%3A", ":");
    let h2 = replace_str(h1.as_str(), "%3a", ":");
    let h3 = replace_str(h2.as_str(), "%2F", "/");
    let h4 = replace_str(h3.as_str(), "%2f", "/");
    let mut raw = concat_str("https://", h4.as_str());
    if i == m {
        raw.append("/.well-known/did.json");
    } else {
        raw.append("/");
        let path = replace_char_str(ms.substring_char(i + 1, m), ':', '/');
        raw.append(path.as_str());
        raw.append("/did.json");
        proof {
            assert(ms@.subrange(i + 1, m as int) =~= ms@.skip(i + 1));
        }
    }
    proof {
        assert(host0@ =~= ms@.take(i as int));
        assert(raw@ =~= did_web_url_text(did@));
    }
    match parse_url(raw.as_str()) {
        Ok(parts) => {
            let (url, text, _host, _port) = parts;
            Ok(DidUrl { url, text })
        },
        Err(e) => Err(DidError::Url(e)),
    }
}

/// Why a URL cannot be fetched from.
#[derive(Debug)]
pub enum FetchTargetError {
    /// The URL parser refused the text.
    Url(url::ParseError),
    /// The URL has no host.
    NoHost,
}

/// The host and port to resolve before fetching a DID document from `url`: the URL's host and
/// its port, or its scheme's default port, or 443.
pub fn fetch_target(url: &str) -> (r: Result<(String, u16), FetchTargetError>)
    ensures
        url_parse(url@) is None ==> r matches Err(FetchTargetError::Url(_)),
        url_parse(url@) is Some && url_host(url@) is None ==> r matches Err(FetchTargetError::NoHost),
        url_parse(url@) is Some && url_host(url@) is Some ==> (r matches Ok((h, p)) && h@
            == url_host(url@)->0 && p == match url_port_or_default(url@) {
            Some(q) => q,
            None => 443u16,
        }),
{
    match parse_url(url) {
        Err(e) => Err(FetchTargetError::Url(e)),
        Ok(parts) => {
            let (_url, _text, host, port) = parts;
            match host {
                None => Err(FetchTargetError::NoHost),
                Some(h) => {
                    let p = match port {
                        Some(q) => q,
                        None => 443,
                    };
                    Ok((h, p))
                },
            }
        },
    }
}

/// Generate a `did:peer:2` DID from a 32-byte Ed25519 public key:
/// `did:peer:2.z<base58btc(0xed 0x01 || key)>`.
pub fn generate_did_peer(public_key: &[u8]) -> (res: Result<Did, DidError>)
    ensures
        public_key@.len() != 32 ==> (res matches Err(DidError::InvalidKey(m)) && m@
            == key_length_message(public_key@.len())),
        public_key@.len() == 32 ==> (res matches Ok(d) && d@ == did_peer_of(public_key@)),
{
    if public_key.len() != 32 {
        let got = usize_to_decimal(public_key.len());
        return Err(DidError::InvalidKey(concat_str("expected 32 bytes, got ", got.as_str())));
    }
    let mut payload: Vec<u8> = Vec::with_capacity(34);
    payload.push(0xed);
    payload.push(0x01);
    extend_bytes(&mut payload, public_key);
    proof {
        assert(payload@ == multicodec_ed25519() + public_key@);
    }
    let encoded = bs58_encode(payload.as_slice());
    let text = concat_str("did:peer:2.z", encoded.as_str());
    proof {
        reveal_strlit("did:peer:2.z");
        assert("did:peer:2.z"@ =~= did_peer_prefix());
    }
    Ok(Did(text))
}

/// Some byte string has `t` as its base58btc text.
pub open spec fn base58_decodes(t: Seq<char>) -> bool {
    exists|b: Seq<u8>| #[trigger] base58_encode(b) == t
}

/// What resolving a `did:peer:2.z` DID whose payload decodes to `b` yields.
pub open spec fn peer_key_outcome(b: Seq<u8>, res: Result<[u8; 32], DidError>) -> bool {
    if b.len() < 2 || b[0] != 0xed || b[1] != 0x01 {
        res matches Err(DidError::InvalidKey(m)) && m@ == bad_multicodec_message()
    } else if b.len() != 34 {
        res matches Err(DidError::InvalidKey(m)) && m@ == decoded_length_message(
            (b.len() - 2) as nat,
        )
    } else {
        res matches Ok(k) && k@ == b.skip(2)
    }
}

/// Resolve a `did:peer:2` DID back to its 32-byte Ed25519 public key.
pub fn resolve_did_peer(did: &Did) -> (res: Result<[u8; 32], DidError>)
    ensures
        !has_prefix(did@, did_peer_prefix()) ==> (res matches Err(DidError::InvalidDid(m)) && m@
            == not_did_peer_message(did@)),
        has_prefix(did@, did_peer_prefix()) && !base58_decodes(did@.skip(12)) ==> res matches Err(
            DidError::InvalidKey(_),
        ),
        has_prefix(did@, did_peer_prefix()) ==> forall|b: Seq<u8>| #[trigger]
            base58_encode(b) == did@.skip(12) ==> peer_key_outcome(b, res),
        forall|k: Seq<u8>| k.len() == 32 && did@ == #[trigger] did_peer_of(k) ==> (res matches Ok(
            key,
        ) && key@ == k),
{
    proof {
        reveal_strlit("did:peer:2.z");
        assert("did:peer:2.z"@ =~= did_peer_prefix());
    }
    let s = did.as_str();
    if !starts_with_str(s, "did:peer:2.z") {
        proof {
            assert forall|k: Seq<u8>| k.len() == 32 && did@ == #[trigger] did_peer_of(k) implies false by {
                assert(did@.take(12) =~= did_peer_prefix());
            }
        }
        return Err(DidError::InvalidDid(concat_str("not a did:peer:2.z DID: ", s)));
    }
    let n = s.unicode_len();
    let suffix = s.substring_char(12, n);
    proof {
        assert(suffix@ =~= s@.skip(12));
        assert forall|k: Seq<u8>| k.len() == 32 && did@ == #[trigger] did_peer_of(k) implies base58_encode(
            multicodec_ed25519() + k,
        ) == suffix@ by {
            assert(did@.skip(12) =~= base58_encode(multicodec_ed25519() + k));
        }
    }
    let decoded = match bs58_decode(suffix) {
        Ok(v) => v,
        Err(e) => {
            return Err(DidError::InvalidKey(bs58_error_text(&e)));
        },
    };
    proof {
        assert forall|k: Seq<u8>| k.len() == 32 && did@ == #[trigger] did_peer_of(k) implies decoded@
            == multicodec_ed25519() + k by {
            assert(base58_encode(multicodec_ed25519() + k) == suffix@);
        }
    }
    if decoded.len() < 2 || decoded[0] != 0xed || decoded[1] != 0x01 {
        return Err(DidError::InvalidKey(to_owned_string("invalid ed25519-pub multicodec prefix")));
    }
    if decoded.len() - 2 != 32 {
        let got = usize_to_decimal(decoded.len() - 2);
        return Err(
            DidError::InvalidKey(concat_str("expected 32 key bytes, got ", got.as_str())),
        );
    }
    let d = &decoded;
    let key: [u8; 32] = [
        d[2], d[3], d[4], d[5], d[6], d[7], d[8], d[9], d[10], d[11], d[12], d[13], d[14], d[15],
        d[16], d[17], d[18], d[19], d[20], d[21], d[22], d[23], d[24], d[25], d[26], d[27], d[28],
        d[29], d[30], d[31], d[32], d[33],
    ];
    proof {
        assert(key@ =~= decoded@.skip(2));
    }
    Ok(key)
}

/// A verification method of a DID document.
#[derive(Debug, Clone)]
pub struct VerificationMethod {
    pub id: String,
    pub key_type: String,
    pub controller: String,
    pub public_key_multibase: String,
}

/// A DID Core document.
#[derive(Debug, Clone)]
pub struct DIDDocument {
    pub context: Vec<String>,
    pub id: String,
    pub verification_method: Vec<VerificationMethod>,
    pub authentication: Vec<String>,
}

/// The `publicKeyMultibase` of an Ed25519 key: `z<base58btc(0xed 0x01 || key)>`.
pub open spec fn ed25519_multibase(key: Seq<u8>) -> Seq<char> {
    seq!['z'] + base58_encode(multicodec_ed25519() + key)
}

/// The DID document for `did` with one Ed25519 verification method `<did>#key-1` holding `key`.
pub open spec fn is_ed25519_document(doc: DIDDocument, did: Seq<char>, key: Seq<u8>) -> bool {
    &&& doc.id@ == did
    &&& doc.context@.len() == 2
    &&& doc.context@[0]@ == "https://www.w3.org/ns/did/v1"@
    &&& doc.context@[1]@ == "https://w3id.org/security/suites/ed25519-2020/v1"@
    &&& doc.verification_method@.len() == 1
    &&& doc.verification_method@[0].id@ == did + "#key-1"@
    &&& doc.verification_method@[0].key_type@ == "Ed25519VerificationKey2020"@
    &&& doc.verification_method@[0].controller@ == did
    &&& doc.verification_method@[0].public_key_multibase@ == ed25519_multibase(key)
    &&& doc.authentication@.len() == 1
    &&& doc.authentication@[0]@ == did + "#key-1"@
}

/// Build a DID Core document for `username` on `server` with the given 32-byte Ed25519 key.
pub fn did_document_handler(username: &str, server: &str, public_key_bytes: &[u8]) -> (res: Result<
    DIDDocument,
    DidError,
>)
    ensures
        public_key_bytes@.len() != 32 ==> (res matches Err(DidError::InvalidKey(m)) && m@
            == key_length_message(public_key_bytes@.len())),
        public_key_bytes@.len() == 32 ==> (res matches Ok(doc) && is_ed25519_document(
            doc,
            did_web_of(username@, server@),
            public_key_bytes@,
        )),
{
    if public_key_bytes.len() != 32 {
        let got = usize_to_decimal(public_key_bytes.len());
        return Err(DidError::InvalidKey(concat_str("expected 32 bytes, got ", got.as_str())));
    }
    let did = build_did_web(username, server);
    let method_id = concat_str(did.as_str(), "#key-1");
    let mut payload: Vec<u8> = Vec::with_capacity(34);
    payload.push(0xed);
    payload.push(0x01);
    extend_bytes(&mut payload, public_key_bytes);
    proof {
        assert(payload@ == multicodec_ed25519() + public_key_bytes@);
    }
    let encoded = bs58_encode(payload.as_slice());
    let mut multibase = String::new();
    push_char(&mut multibase, 'z');
    multibase.append(encoded.as_str());
    let mut context: Vec<String> = Vec::new();
    context.push(to_owned_string("https://www.w3.org/ns/did/v1"));
    context.push(to_owned_string("https://w3id.org/security/suites/ed25519-2020/v1"));
    let method = VerificationMethod {
        id: to_owned_string(method_id.as_str()),
        key_type: to_owned_string("Ed25519VerificationKey2020"),
        controller: did.to_string(),
        public_key_multibase: multibase,
    };
    let mut verification_method: Vec<VerificationMethod> = Vec::new();
    verification_method.push(method);
    let mut authentication: Vec<String> = Vec::new();
    authentication.push(method_id);
    let doc = DIDDocument { context, id: did.to_string(), verification_method, authentication };
    proof {
        assert(multibase@ =~= ed25519_multibase(public_key_bytes@));
    }
    Ok(doc)
}

} // verus!
