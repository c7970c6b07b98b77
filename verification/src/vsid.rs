//! Virtual Stable Identifiers: pairwise, per-relying-party subjects derived from a root DID.
use vstd::prelude::*;

use crate::alias::{did_peer_of, did_peer_prefix};
use crate::codec::{
    base64url_encode, base64url_unpadded, hkdf_sha3_256_32, hkdf_sha3_256_expand_32,
    is_base64url_alphabet, lemma_base64url_alphabet, lemma_base64url_len,
};
use crate::error::{fault_error, is_fault, IdentityError, IdentifierFault};
use crate::root_id::{
    did_web_of, did_web_prefix, is_username_char, lemma_server_chars, user_path_marker, RootId,
};
use crate::text::{contains_char, extend_bytes, has_prefix, starts_with_str, to_owned_string, utf8_len};

verus! {

/// Big-endian bytes of a 32-bit value.
pub open spec fn be32(x: u32) -> Seq<u8> {
    seq![
        (x / 0x1000000) as u8,
        ((x / 0x10000) % 0x100) as u8,
        ((x / 0x100) % 0x100) as u8,
        (x % 0x100) as u8,
    ]
}

/// The length prefix of a field: its UTF-8 byte length as the code computes it
/// (`str::len() as u32`), in big-endian order.
pub open spec fn len_prefix(s: Seq<char>) -> Seq<u8> {
    be32((utf8_len(s) as usize) as u32)
}

/// A length-prefixed field: `u32_be(len(s)) || s`.
pub open spec fn prefixed_field(s: Seq<char>) -> Seq<u8> {
    len_prefix(s) + vstd::utf8::encode_utf8(s)
}

/// The domain-separation tag `brigid-vsid-v1` as bytes.
pub open spec fn vsid_domain() -> Seq<u8> {
    seq![98u8, 114, 105, 103, 105, 100, 45, 118, 115, 105, 100, 45, 118, 49]
}

/// HKDF `info` for a VSID:
/// `"brigid-vsid-v1" || u32_be(len(did_root)) || did_root || u32_be(len(client_id)) || client_id`.
pub open spec fn vsid_info(did_root: Seq<char>, client_id: Seq<char>) -> Seq<u8> {
    vsid_domain() + prefixed_field(did_root) + prefixed_field(client_id)
}

/// `s` holds two adjacent colons.
pub open spec fn has_double_colon(s: Seq<char>) -> bool {
    exists|i: int| 0 <= i < s.len() - 1 && #[trigger] s[i] == ':' && s[i + 1] == ':'
}

/// Why `did_root` may not be the root of a VSID, if it may not.
///
/// It must start with `did:web:`, and the rest must be non-empty, hold no `/`, not start or
/// end with `:` and hold no `::`.
pub open spec fn vsid_root_fault(did_root: Seq<char>) -> Option<IdentifierFault> {
    if !has_prefix(did_root, did_web_prefix()) {
        Some(IdentifierFault::NotDidWeb)
    } else {
        let body = did_root.skip(8);
        if body.len() == 0 || body.contains('/') || body[0] == ':' || body[body.len() - 1] == ':'
            || has_double_colon(body) {
            Some(IdentifierFault::MalformedDidWeb)
        } else {
            None
        }
    }
}

/// The VSID text for a root DID, a client and a salt.
pub open spec fn vsid_text(did_root: Seq<char>, client_id: Seq<char>, salt: Seq<u8>) -> Seq<char> {
    base64url_unpadded(hkdf_sha3_256_32(salt, vsid_info(did_root, client_id)))
}

/// A Virtual Stable Identifier (VSID): stable per `(did_root, client_id, salt)`.
#[derive(Debug, Clone, PartialEq, Eq)]
pub struct Vsid(String);

impl View for Vsid {
    type V = Seq<char>;

    closed spec fn view(&self) -> Seq<char> {
        self.0@
    }
}

impl Vsid {
    /// The identifier text.
    pub fn as_str(&self) -> (r: &str)
        ensures
            r@ == self@,
    {
        self.0.as_str()
    }

    /// The display form of the identifier (its text).
    pub fn to_string(&self) -> (r: String)
        ensures
            r@ == self@,
    {
        to_owned_string(self.0.as_str())
    }
}

/// Big-endian bytes of `x`.
fn be32_bytes(x: u32) -> (r: Vec<u8>)
    ensures
        r@ == be32(x),
{
    let mut v: Vec<u8> = Vec::with_capacity(4);
    v.push((x / 0x1000000) as u8);
    v.push(((x / 0x10000) % 0x100) as u8);
    v.push(((x / 0x100) % 0x100) as u8);
    v.push((x % 0x100) as u8);
    v
}

/// Appends the length-prefixed field `s` to `v`.
fn push_prefixed_field(v: &mut Vec<u8>, s: &str)
    ensures
        final(v)@ == old(v)@ + prefixed_field(s@),
{
    let len = s.len() as u32;
    let prefix = be32_bytes(len);
    extend_bytes(v, prefix.as_slice());
    extend_bytes(v, s.as_bytes());
    proof {
        assert(old(v)@ + prefix@ + vstd::utf8::encode_utf8(s@) == old(v)@ + prefixed_field(s@));
    }
}

/// The HKDF `info` bytes for a VSID.
pub fn build_vsid_info(did_root: &str, client_id: &str) -> (r: Vec<u8>)
    ensures
        r@ == vsid_info(did_root@, client_id@),
{
    let mut info: Vec<u8> = vec![98u8, 114, 105, 103, 105, 100, 45, 118, 115, 105, 100, 45, 118, 49];
    push_prefixed_field(&mut info, did_root);
    push_prefixed_field(&mut info, client_id);
    proof {
        assert(info@ == vsid_domain() + prefixed_field(did_root@) + prefixed_field(client_id@));
    }
    info
}

/// Whether `s` holds `::`.
fn holds_double_colon(s: &str) -> (b: bool)
    ensures
        b == has_double_colon(s@),
{
    let n = s.unicode_len();
    if n < 2 {
        return false;
    }
    let mut i: usize = 0;
    while i < n - 1
        invariant
            n == s@.len(),
            n >= 2,
            i <= n - 1,
            forall|k: int| 0 <= k < i ==> !(#[trigger] s@[k] == ':' && s@[k + 1] == ':'),
        decreases n - 1 - i,
    {
        if s.get_char(i) == ':' && s.get_char(i + 1) == ':' {
            return true;
        }
        i = i + 1;
    }
    false
}

/// Computes the VSID from a root DID, a client identifier and a salt.
///
/// `base64url(HKDF-SHA3-256(IKM = salt, info = vsid_info(did_root, client_id))[..32])`.
/// `did_root` must be a well-formed `did:web:` DID; anything else is rejected.
pub fn compute_vsid(did_root: &str, client_id: &str, salt: &[u8]) -> (res: Result<Vsid, IdentityError>)
    ensures
        match vsid_root_fault(did_root@) {
            Some(f) => is_fault(res, f, did_root@),
            None => res matches Ok(v) && v@ == vsid_text(did_root@, client_id@, salt@),
        },
        res matches Ok(v) ==> v@.len() == 43 && forall|i: int| 0 <= i < 43 ==> is_base64url_alphabet(
            #[trigger] v@[i],
        ),
{
    proof {
        reveal_strlit("did:web:");
        assert("did:web:"@ =~= did_web_prefix());
    }
    if !starts_with_str(did_root, "did:web:") {
        return Err(fault_error(IdentifierFault::NotDidWeb, did_root));
    }
    let n = did_root.unicode_len();
    let body = did_root.substring_char(8, n);
    proof {
        assert(body@ =~= did_root@.skip(8));
    }
    let bn = body.unicode_len();
    if bn == 0 || contains_char(body, '/') || body.get_char(0) == ':' || body.get_char(bn - 1)
        == ':' || holds_double_colon(body) {
        return Err(fault_error(IdentifierFault::MalformedDidWeb, did_root));
    }
    let info = build_vsid_info(did_root, client_id);
    let okm = hkdf_sha3_256_expand_32(salt, info.as_slice());
    proof {
        lemma_base64url_len(okm@);
        lemma_base64url_alphabet(okm@);
    }
    Ok(Vsid(base64url_encode(okm.as_slice())))
}

/// Big-endian encoding of 32-bit values is injective.
pub proof fn lemma_be32_injective(x: u32, y: u32)
    requires
        be32(x) == be32(y),
    ensures
        x == y,
{
    assert(be32(x)[0] == be32(y)[0]);
    assert(be32(x)[1] == be32(y)[1]);
    assert(be32(x)[2] == be32(y)[2]);
    assert(be32(x)[3] == be32(y)[3]);
    assert(x == (x / 0x1000000) * 0x1000000 + ((x / 0x10000) % 0x100) * 0x10000 + ((x / 0x100)
        % 0x100) * 0x100 + x % 0x100) by (nonlinear_arith);
    assert(y == (y / 0x1000000) * 0x1000000 + ((y / 0x10000) % 0x100) * 0x10000 + ((y / 0x100)
        % 0x100) * 0x100 + y % 0x100) by (nonlinear_arith);
}

/// A field's length prefix gives back its byte length, when that fits in 32 bits.
proof fn lemma_len_prefix_exact(s: Seq<char>, t: Seq<char>)
    requires
        utf8_len(s) < 0x1_0000_0000,
        utf8_len(t) < 0x1_0000_0000,
        len_prefix(s) == len_prefix(t),
    ensures
        utf8_len(s) == utf8_len(t),
{
    lemma_be32_injective((utf8_len(s) as usize) as u32, (utf8_len(t) as usize) as u32);
}

/// Length-prefixing keeps pairs of fields apart: the concatenation of two length-prefixed
/// fields determines both fields (for fields shorter than 4 GiB).
pub proof fn lemma_prefixed_pair_injective(a1: Seq<char>, b1: Seq<char>, a2: Seq<char>, b2: Seq<char>)
    requires
        utf8_len(a1) < 0x1_0000_0000,
        utf8_len(a2) < 0x1_0000_0000,
        prefixed_field(a1) + prefixed_field(b1) == prefixed_field(a2) + prefixed_field(b2),
    ensures
        a1 == a2,
        b1 == b2,
{
    let s1 = prefixed_field(a1) + prefixed_field(b1);
    let s2 = prefixed_field(a2) + prefixed_field(b2);
    assert(len_prefix(a1) == s1.subrange(0, 4));
    assert(len_prefix(a2) == s2.subrange(0, 4));
    lemma_len_prefix_exact(a1, a2);
    let l = utf8_len(a1) as int;
    let e1 = vstd::utf8::encode_utf8(a1);
    let e2 = vstd::utf8::encode_utf8(a2);
    assert(e1 == s1.subrange(4, 4 + l));
    assert(e2 == s2.subrange(4, 4 + l));
    vstd::utf8::encode_utf8_decode_utf8(a1);
    vstd::utf8::encode_utf8_decode_utf8(a2);
    assert(prefixed_field(b1) == s1.skip(4 + l));
    assert(prefixed_field(b2) == s2.skip(4 + l));
    let p1 = prefixed_field(b1);
    assert(vstd::utf8::encode_utf8(b1) == p1.skip(4));
    assert(vstd::utf8::encode_utf8(b2) == prefixed_field(b2).skip(4));
    vstd::utf8::encode_utf8_decode_utf8(b1);
    vstd::utf8::encode_utf8_decode_utf8(b2);
}

/// Distinct `(did_root, client_id)` pairs feed distinct HKDF contexts into the VSID
/// derivation (for a DID shorter than 4 GiB): in particular, two relying parties never share
/// the derivation input of a user's VSID.
pub proof fn lemma_vsid_info_injective(d1: Seq<char>, c1: Seq<char>, d2: Seq<char>, c2: Seq<char>)
    requires
        utf8_len(d1) < 0x1_0000_0000,
        utf8_len(d2) < 0x1_0000_0000,
        vsid_info(d1, c1) == vsid_info(d2, c2),
    ensures
        d1 == d2,
        c1 == c2,
{
    let i1 = vsid_info(d1, c1);
    let i2 = vsid_info(d2, c2);
    assert(i1.skip(14) == prefixed_field(d1) + prefixed_field(c1));
    assert(i2.skip(14) == prefixed_field(d2) + prefixed_field(c2));
    lemma_prefixed_pair_injective(d1, c1, d2, c2);
}

/// A VSID is never derived from an alias: the `did:peer` form of an alias is always refused
/// as the root of a VSID.
pub proof fn lemma_alias_did_never_roots_a_vsid(key: Seq<u8>)
    ensures
        vsid_root_fault(did_peer_of(key)) == Some(IdentifierFault::NotDidWeb),
{
    let d = did_peer_of(key);
    assert(d[4] == did_peer_prefix()[4]);
    if has_prefix(d, did_web_prefix()) {
        assert(d.take(8)[4] == did_web_prefix()[4]);
    }
}

/// The `did:web` DID of a valid root identity always passes the VSID root check: its server and
/// username hold neither `:` nor `/`, so the only colons are the two around `u`.
pub proof fn lemma_root_id_did_roots_a_vsid(id: RootId)
    requires
        id.valid(),
    ensures
        vsid_root_fault(did_web_of(id.username@, id.server@)) is None,
{
    let u = id.username@;
    let sv = id.server@;
    let d = did_web_of(u, sv);
    lemma_server_chars(sv);
    assert(d.take(8) =~= did_web_prefix());
    let body = d.skip(8);
    assert(body =~= sv + user_path_marker() + u);
    let n = sv.len() as int;
    assert forall|k: int| 0 <= k < body.len() implies (#[trigger] body[k] == ':') == (k == n || k
        == n + 2) && body[k] != '/' by {
        if k < n {
            assert(body[k] == sv[k]);
        } else if k >= n + 3 {
            assert(body[k] == u[k - n - 3]);
            assert(is_username_char(u[k - n - 3]));
        }
    }
    assert(u.len() > 0);
    assert(body[body.len() - 1] == u[u.len() - 1]);
    assert(is_username_char(u[u.len() - 1]));
    assert(!body.contains('/'));
    assert(!has_double_colon(body));
}

} // verus!
