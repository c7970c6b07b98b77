//! Private aliases: opaque handles that hold at least one `_` and no `@`.
use vstd::prelude::*;

use crate::codec::{base58_encode, bs58_encode, sha3_256, sha3_256_digest};
use crate::text::{concat_str, contains_char, extend_bytes, remove_char, to_owned_string, without_char};

verus! {

/// `s` is a valid private alias: non-empty, holds `_`, holds no `@`.
pub open spec fn alias_valid(s: Seq<char>) -> bool {
    s.len() > 0 && s.contains('_') && !s.contains('@')
}

/// `did:peer:2.z` as characters.
pub open spec fn did_peer_prefix() -> Seq<char> {
    seq!['d', 'i', 'd', ':', 'p', 'e', 'e', 'r', ':', '2', '.', 'z']
}

/// The `ed25519-pub` multicodec prefix (varint `0xed 0x01`).
pub open spec fn multicodec_ed25519() -> Seq<u8> {
    seq![0xedu8, 0x01u8]
}

/// `did:peer:2.z<base58btc(0xed 0x01 || key)>`.
pub open spec fn did_peer_of(key: Seq<u8>) -> Seq<char> {
    did_peer_prefix() + base58_encode(multicodec_ed25519() + key)
}

/// The 32 bytes that stand for an alias in its `did:peer`: SHA3-256 of the UTF-8 bytes of the
/// alias with its underscores removed.
pub open spec fn alias_commitment(alias: Seq<char>) -> Seq<u8> {
    sha3_256(vstd::utf8::encode_utf8(without_char(alias, '_')))
}

/// A private alias: an opaque handle that contains at least one `_` and no `@`.
#[derive(Debug, Clone, PartialEq, Eq)]
pub struct PrivateAlias(pub(crate) String);

impl View for PrivateAlias {
    type V = Seq<char>;

    closed spec fn view(&self) -> Seq<char> {
        self.0@
    }
}

impl PrivateAlias {
    /// Returns `true` iff `s` is a valid private alias: non-empty, contains `_`, no `@`.
    pub fn is_valid(s: &str) -> (b: bool)
        ensures
            b == alias_valid(s@),
    {
        !s.is_empty() && contains_char(s, '_') && !contains_char(s, '@')
    }

    /// Constructs a `PrivateAlias` if `s` satisfies `is_valid`, otherwise `None`.
    pub fn new(s: &str) -> (r: Option<PrivateAlias>)
        ensures
            alias_valid(s@) <==> r is Some,
            r matches Some(a) ==> a@ == s@,
    {
        if Self::is_valid(s) {
            Some(PrivateAlias(to_owned_string(s)))
        } else {
            None
        }
    }

    /// The alias text.
    pub fn as_str(&self) -> (r: &str)
        ensures
            r@ == self@,
    {
        self.0.as_str()
    }

    /// Converts the alias to `did:peer:2.z<base58btc(0xed01 || SHA3-256(alias without '_'))>`.
    ///
    /// The 32 digest bytes stand where an Ed25519 public key would; they carry no key
    /// semantics. This is not a root DID and is never an input to a VSID.
    pub fn to_did_peer(&self) -> (r: String)
        ensures
            r@ == did_peer_of(alias_commitment(self@)),
    {
        let stripped = remove_char(self.0.as_str(), '_');
        let hash = sha3_256_digest(stripped.as_str().as_bytes());
        let mut payload: Vec<u8> = Vec::with_capacity(34);
        payload.push(0xed);
        payload.push(0x01);
        extend_bytes(&mut payload, hash.as_slice());
        proof {
            assert(payload@ == multicodec_ed25519() + hash@);
        }
        let encoded = bs58_encode(payload.as_slice());
        let r = concat_str("did:peer:2.z", encoded.as_str());
        proof {
            reveal_strlit("did:peer:2.z");
        }
        r
    }
}

} // verus!
