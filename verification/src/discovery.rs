//! OpenID Connect discovery: the JSON Web Key Set of the signing keys and the
//! `.well-known/openid-configuration` metadata.
use vstd::prelude::*;

use crate::codec::{base64url_encode, base64url_unpadded};
use crate::signing_key::{ed25519_public, OidcSigningKey};
use crate::text::{concat_str, to_owned_string, trim_end_all, trim_end_char};

verus! {

/// A single JSON Web Key (Ed25519 / OKP).
#[derive(Debug, Clone)]
pub struct Jwk {
    pub kty: String,
    pub crv: String,
    /// Base64url-encoded public key bytes (32 bytes for Ed25519).
    pub x: String,
    pub kid: String,
    pub alg: String,
    /// The `use` member.
    pub key_use: String,
}

/// A JSON Web Key Set.
#[derive(Debug, Clone)]
pub struct JwkSet {
    pub keys: Vec<Jwk>,
}

/// OpenID Connect Discovery 1.0 metadata.
///
/// ID tokens are obtained through the WebAuthn API rather than the OAuth 2.0 authorization code
/// flow, so `authorization_endpoint` and `token_endpoint` are absent.
#[derive(Debug, Clone)]
pub struct OpenIDConfiguration {
    pub issuer: String,
    pub authorization_endpoint: Option<String>,
    pub token_endpoint: Option<String>,
    pub jwks_uri: String,
    pub response_types_supported: Vec<String>,
    pub subject_types_supported: Vec<String>,
    pub id_token_signing_alg_values_supported: Vec<String>,
}

/// `j` is the JWK of `k`: an Ed25519 OKP signature key whose `x` is the base64url (unpadded)
/// text of the public key and whose `kid` is the key's ID.
pub open spec fn is_jwk_of(j: Jwk, k: OidcSigningKey) -> bool {
    &&& j.kty@ == "OKP"@
    &&& j.crv@ == "Ed25519"@
    &&& j.x@ == base64url_unpadded(ed25519_public(k.seed_view()))
    &&& j.kid@ == k.kid_view()
    &&& j.alg@ == "EdDSA"@
    &&& j.key_use@ == "sig"@
}

/// The JWK of one signing key.
fn jwk_of(k: &OidcSigningKey) -> (j: Jwk)
    ensures
        is_jwk_of(j, *k),
{
    let vk = k.verifying_key();
    Jwk {
        kty: to_owned_string("OKP"),
        crv: to_owned_string("Ed25519"),
        x: base64url_encode(&vk),
        kid: to_owned_string(k.kid()),
        alg: to_owned_string("EdDSA"),
        key_use: to_owned_string("sig"),
    }
}

/// Builds the JWKS of the signing keys: one JWK per key, in order.
pub fn build_jwks(keys: &[&OidcSigningKey]) -> (r: JwkSet)
    ensures
        r.keys@.len() == keys@.len(),
        forall|i: int| 0 <= i < keys@.len() ==> is_jwk_of(#[trigger] r.keys@[i], *keys@[i]),
{
    let mut out: Vec<Jwk> = Vec::new();
    let mut i: usize = 0;
    while i < keys.len()
        invariant
            i <= keys@.len(),
            out@.len() == i,
            forall|j: int| 0 <= j < i ==> is_jwk_of(#[trigger] out@[j], *keys@[j]),
        decreases keys@.len() - i,
    {
        let j = jwk_of(keys[i]);
        out.push(j);
        i = i + 1;
    }
    JwkSet { keys: out }
}

/// The path of the JWKS document under the issuer.
pub open spec fn jwks_path() -> Seq<char> {
    "/.well-known/jwks.json"@
}

/// A one-element list holding `s`.
fn single(s: &str) -> (r: Vec<String>)
    ensures
        r@.len() == 1,
        r@[0]@ == s@,
{
    let mut v: Vec<String> = Vec::new();
    v.push(to_owned_string(s));
    v
}

/// Builds the `.well-known/openid-configuration` metadata for a base URL, given by its
/// serialisation (`Url::as_str`).
///
/// The issuer is the base URL without its trailing slashes; the JWKS lives at
/// `<issuer>/.well-known/jwks.json`; only `id_token` responses, `pairwise` subjects (the VSID
/// differs per client) and EdDSA signatures are offered.
pub fn build_openid_configuration(base_url: &str) -> (r: OpenIDConfiguration)
    ensures
        r.issuer@ == trim_end_all(base_url@, '/'),
        r.authorization_endpoint is None,
        r.token_endpoint is None,
        r.jwks_uri@ == trim_end_all(base_url@, '/') + jwks_path(),
        r.response_types_supported@.len() == 1,
        r.response_types_supported@[0]@ == "id_token"@,
        r.subject_types_supported@.len() == 1,
        r.subject_types_supported@[0]@ == "pairwise"@,
        r.id_token_signing_alg_values_supported@.len() == 1,
        r.id_token_signing_alg_values_supported@[0]@ == "EdDSA"@,
{
    let base = trim_end_char(base_url, '/');
    OpenIDConfiguration {
        issuer: to_owned_string(base),
        authorization_endpoint: None,
        token_endpoint: None,
        jwks_uri: concat_str(base, "/.well-known/jwks.json"),
        response_types_supported: single("id_token"),
        subject_types_supported: single("pairwise"),
        id_token_signing_alg_values_supported: single("EdDSA"),
    }
}

/// The issuer of the discovery metadata never ends with `/`, so the JWKS URI joins it with
/// exactly one slash.
pub proof fn lemma_issuer_has_no_trailing_slash(base_url: Seq<char>)
    ensures
        trim_end_all(base_url, '/').len() == 0 || trim_end_all(base_url, '/').last() != '/',
    decreases base_url.len(),
{
    if base_url.len() > 0 && base_url.last() == '/' {
        lemma_issuer_has_no_trailing_slash(base_url.drop_last());
    }
}

} // verus!
