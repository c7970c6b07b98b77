//! The Ed25519 key that signs and verifies OIDC ID tokens, and the random identifiers it
//! is issued with.
use vstd::prelude::*;

use pkcs8::EncodePrivateKey;

verus! {

/// The Ed25519 public key (32 bytes) that belongs to a 32-byte secret seed, as
/// `ed25519_dalek::SigningKey::from_bytes(seed).verifying_key()` derives it.
pub uninterp spec fn ed25519_public(seed: Seq<u8>) -> Seq<u8>;

/// The PKCS#8 DER document of the Ed25519 key with a given 32-byte seed, as
/// `ed25519_dalek::SigningKey::to_pkcs8_der` writes it.
pub uninterp spec fn ed25519_pkcs8(seed: Seq<u8>) -> Seq<u8>;

/// A lowercase hexadecimal digit.
pub open spec fn is_lower_hex(c: char) -> bool {
    ('0' <= c && c <= '9') || ('a' <= c && c <= 'f')
}

/// The hyphenated lowercase text of a random (version 4, RFC 4122 variant) UUID:
/// `xxxxxxxx-xxxx-4xxx-yxxx-xxxxxxxxxxxx` with `y` one of `8 9 a b`.
pub open spec fn is_uuid_v4_text(s: Seq<char>) -> bool {
    &&& s.len() == 36
    &&& forall|i: int|
        0 <= i < 36 ==> if i == 8 || i == 13 || i == 18 || i == 23 {
            #[trigger] s[i] == '-'
        } else {
            is_lower_hex(s[i])
        }
    &&& s[14] == '4'
    &&& (s[19] == '8' || s[19] == '9' || s[19] == 'a' || s[19] == 'b')
}

/// A fresh random UUID (`uuid::Uuid::new_v4`) in its display form. The claim, from the crate's
/// masking of the version and variant bits and its lowercase hyphenated `Display`: the text has
/// the shape of a version-4 UUID. Which UUID comes out is left open: it is random.
#[verifier::external_body]
pub(crate) fn new_uuid_v4() -> (r: String)
    ensures
        is_uuid_v4_text(r@),
{
    uuid::Uuid::new_v4().to_string()
}

/// A fresh random Ed25519 seed (`SigningKey::generate(&mut OsRng)`, then `to_bytes`). Nothing
/// is claimed of the bytes: they come from the operating system's random source.
#[verifier::external_body]
fn random_ed25519_seed() -> [u8; 32] {
    ed25519_dalek::SigningKey::generate(&mut rand_core::OsRng).to_bytes()
}

/// The Ed25519 public key of a seed (`SigningKey::from_bytes(seed).verifying_key().to_bytes()`).
/// The claim: the bytes are those that `ed25519_public` names for the seed.
#[verifier::external_body]
fn ed25519_public_key(seed: &[u8; 32]) -> (r: [u8; 32])
    ensures
        r@ == ed25519_public(seed@),
{
    ed25519_dalek::SigningKey::from_bytes(seed).verifying_key().to_bytes()
}

/// The PKCS#8 DER document of the key with a given seed (`SigningKey::to_pkcs8_der`). The claim:
/// the encoding succeeds (the key pair is written into a fixed-size structure whose DER encoding
/// cannot fail) and its bytes are those that `ed25519_pkcs8` names.
#[verifier::external_body]
pub(crate) fn ed25519_pkcs8_der(seed: &[u8; 32]) -> (r: Option<Vec<u8>>)
    ensures
        r is Some,
        r is Some ==> r->Some_0@ == ed25519_pkcs8(seed@),
{
    ed25519_dalek::SigningKey::from_bytes(seed).to_pkcs8_der().ok().map(|d| d.as_bytes().to_vec())
}

/// `s` is the text of a UUID that the random generator (`new_uuid_v4`) drew: a possible result
/// of a draw, not a value chosen by the caller.
pub closed spec fn is_drawn_uuid(s: Seq<char>) -> bool {
    exists|r: String| #[trigger] call_ensures(new_uuid_v4, (), r) && r@ == s
}

/// `s` is a seed that the operating system's random source gave (`random_ed25519_seed`).
pub closed spec fn is_drawn_seed(s: Seq<u8>) -> bool {
    exists|a: [u8; 32]| #[trigger] call_ensures(random_ed25519_seed, (), a) && a@ == s
}

/// Draws a fresh random UUID, recording that it is a draw of the generator.
pub(crate) fn draw_uuid() -> (r: String)
    ensures
        is_drawn_uuid(r@),
        is_uuid_v4_text(r@),
{
    let draw = new_uuid_v4;
    draw()
}

/// Draws a fresh random seed, recording that it is a draw of the random source.
fn draw_seed() -> (r: [u8; 32])
    ensures
        is_drawn_seed(r@),
{
    let draw = random_ed25519_seed;
    draw()
}

/// An Ed25519 signing key used to issue and verify OIDC ID tokens, with its key ID.
pub struct OidcSigningKey {
    kid: String,
    seed: [u8; 32],
}

impl OidcSigningKey {
    /// The key ID.
    pub closed spec fn kid_view(&self) -> Seq<char> {
        self.kid@
    }

    /// The 32-byte secret seed.
    pub closed spec fn seed_view(&self) -> Seq<u8> {
        self.seed@
    }

    /// The seed is 32 bytes long.
    pub proof fn lemma_seed_len(&self)
        ensures
            self.seed_view().len() == 32,
    {
    }

    /// Generates a fresh Ed25519 keypair with a random UUID as its key ID: both the seed and the
    /// key ID are draws of the random sources, never values fixed by the library.
    pub fn generate() -> (k: OidcSigningKey)
        ensures
            is_uuid_v4_text(k.kid_view()),
            is_drawn_uuid(k.kid_view()),
            is_drawn_seed(k.seed_view()),
            k.seed_view().len() == 32,
    {
        let seed = draw_seed();
        OidcSigningKey { kid: draw_uuid(), seed }
    }

    /// Rebuilds a key from its key ID and raw 32-byte seed. No key derivation takes place: the
    /// seed is used as given.
    pub fn from_raw_bytes(kid: String, bytes: &[u8; 32]) -> (k: OidcSigningKey)
        ensures
            k.kid_view() == kid@,
            k.seed_view() == bytes@,
    {
        OidcSigningKey { kid, seed: *bytes }
    }

    /// The key ID, used in the JWT `kid` header and in the JWKS.
    pub fn kid(&self) -> (r: &str)
        ensures
            r@ == self.kid_view(),
    {
        self.kid.as_str()
    }

    /// The 32 bytes of the Ed25519 verifying (public) key.
    pub fn verifying_key(&self) -> (r: [u8; 32])
        ensures
            r@ == ed25519_public(self.seed_view()),
    {
        ed25519_public_key(&self.seed)
    }

    /// The raw 32-byte seed, for encrypted storage by the caller.
    pub fn to_raw_bytes(&self) -> (r: [u8; 32])
        ensures
            r@ == self.seed_view(),
    {
        self.seed
    }

    /// The PKCS#8 DER document of the key (the encoding always succeeds).
    pub(crate) fn pkcs8_der(&self) -> (r: Option<Vec<u8>>)
        ensures
            r is Some,
            r is Some ==> r->Some_0@ == ed25519_pkcs8(self.seed_view()),
    {
        ed25519_pkcs8_der(&self.seed)
    }
}

} // verus!
