//! Encodings and primitives provided by outside crates: SHA3-256, HKDF-SHA3-256,
//! base58btc (`bs58`) and unpadded base64url (`base64ct`).
use vstd::prelude::*;

use base64ct::Encoding;
use sha3::Digest;

use crate::text::is_ascii_alnum;

verus! {

/// Declares `bs58`'s decoding error so it can be carried through verified code.
#[verifier::external_type_specification]
#[verifier::external_body]
pub struct ExBs58DecodeError(bs58::decode::Error);

/// SHA3-256 of a byte string (the value that `sha3::Sha3_256::digest` computes).
pub uninterp spec fn sha3_256(data: Seq<u8>) -> Seq<u8>;

/// HKDF-SHA3-256 with no salt, input keying material `ikm` and context `info`,
/// expanded to 32 bytes (what `hkdf::Hkdf::<Sha3_256>::new(None, ikm).expand(info, ..)` writes).
pub uninterp spec fn hkdf_sha3_256_32(ikm: Seq<u8>, info: Seq<u8>) -> Seq<u8>;

/// One character of the Bitcoin base58 alphabet
/// (`123456789ABCDEFGHJKLMNPQRSTUVWXYZabcdefghijkmnopqrstuvwxyz`), for `0 <= v < 58`.
pub open spec fn base58_char(v: int) -> char {
    if v < 9 {
        ('1' as int + v) as char
    } else if v < 17 {
        ('A' as int + (v - 9)) as char
    } else if v < 22 {
        ('J' as int + (v - 17)) as char
    } else if v < 33 {
        ('P' as int + (v - 22)) as char
    } else if v < 44 {
        ('a' as int + (v - 33)) as char
    } else {
        ('m' as int + (v - 44)) as char
    }
}

/// The number that a byte string denotes, most significant byte first.
pub open spec fn big_endian_value(d: Seq<u8>) -> nat
    decreases d.len(),
{
    if d.len() == 0 {
        0
    } else {
        big_endian_value(d.drop_last()) * 256 + d.last() as nat
    }
}

/// The number of zero bytes at the start of a byte string.
pub open spec fn leading_zero_bytes(d: Seq<u8>) -> nat
    decreases d.len(),
{
    if d.len() > 0 && d[0] == 0 {
        1 + leading_zero_bytes(d.drop_first())
    } else {
        0
    }
}

/// The base58 digits of `n`, most significant first, without leading zero digits (empty for 0).
pub open spec fn base58_digits(n: nat) -> Seq<char>
    decreases n,
{
    if n == 0 {
        seq![]
    } else {
        base58_digits(n / 58).push(base58_char((n % 58) as int))
    }
}

/// The base58btc (Bitcoin alphabet) text of a byte string, as `bs58::encode` produces it: one
/// `1` per leading zero byte, then the base58 digits of the number the bytes denote.
pub open spec fn base58_encode(data: Seq<u8>) -> Seq<char> {
    Seq::new(leading_zero_bytes(data), |i: int| '1') + base58_digits(big_endian_value(data))
}

/// One character of the URL-safe base64 alphabet (`A-Z a-z 0-9 - _`), for `0 <= v < 64`.
pub open spec fn base64url_char(v: int) -> char {
    if v < 26 {
        ('A' as int + v) as char
    } else if v < 52 {
        ('a' as int + (v - 26)) as char
    } else if v < 62 {
        ('0' as int + (v - 52)) as char
    } else if v == 62 {
        '-'
    } else {
        '_'
    }
}

/// Unpadded base64url encoding (RFC 4648 §5, without `=` padding).
pub open spec fn base64url_unpadded(d: Seq<u8>) -> Seq<char>
    decreases d.len(),
{
    if d.len() == 0 {
        seq![]
    } else if d.len() == 1 {
        let a = d[0] as int;
        seq![base64url_char(a / 4), base64url_char((a % 4) * 16)]
    } else if d.len() == 2 {
        let a = d[0] as int;
        let b = d[1] as int;
        seq![
            base64url_char(a / 4),
            base64url_char((a % 4) * 16 + b / 16),
            base64url_char((b % 16) * 4),
        ]
    } else {
        let a = d[0] as int;
        let b = d[1] as int;
        let c = d[2] as int;
        seq![
            base64url_char(a / 4),
            base64url_char((a % 4) * 16 + b / 16),
            base64url_char((b % 16) * 4 + c / 64),
            base64url_char(c % 64),
        ] + base64url_unpadded(d.skip(3))
    }
}

/// Unpadded base64url writes four characters per three bytes, and two or three characters for
/// a final one or two bytes.
pub proof fn lemma_base64url_len(d: Seq<u8>)
    ensures
        base64url_unpadded(d).len() == 4 * (d.len() / 3) + if d.len() % 3 == 0 {
            0
        } else {
            d.len() % 3 + 1
        },
    decreases d.len(),
{
    if d.len() >= 3 {
        lemma_base64url_len(d.skip(3));
    }
}

/// A character of the URL-safe base64 alphabet.
pub open spec fn is_base64url_alphabet(c: char) -> bool {
    is_ascii_alnum(c) || c == '-' || c == '_'
}

proof fn lemma_base64url_char(v: int)
    requires
        0 <= v < 64,
    ensures
        is_base64url_alphabet(base64url_char(v)),
{
    if v < 26 {
        assert(('A' as int + v) as char as int == 65 + v);
    } else if v < 52 {
        assert(('a' as int + (v - 26)) as char as int == 97 + v - 26);
    } else if v < 62 {
        assert(('0' as int + (v - 52)) as char as int == 48 + v - 52);
    }
}

/// Unpadded base64url text uses only the URL-safe alphabet.
pub proof fn lemma_base64url_alphabet(d: Seq<u8>)
    ensures
        forall|i: int| 0 <= i < base64url_unpadded(d).len() ==> is_base64url_alphabet(
            #[trigger] base64url_unpadded(d)[i],
        ),
    decreases d.len(),
{
    if d.len() >= 1 {
        let a = d[0] as int;
        lemma_base64url_char(a / 4);
        if d.len() == 1 {
            lemma_base64url_char((a % 4) * 16);
        } else {
            let b = d[1] as int;
            lemma_base64url_char((a % 4) * 16 + b / 16);
            if d.len() == 2 {
                lemma_base64url_char((b % 16) * 4);
            } else {
                let c = d[2] as int;
                lemma_base64url_char((b % 16) * 4 + c / 64);
                lemma_base64url_char(c % 64);
                lemma_base64url_alphabet(d.skip(3));
                let head = seq![
                    base64url_char(a / 4),
                    base64url_char((a % 4) * 16 + b / 16),
                    base64url_char((b % 16) * 4 + c / 64),
                    base64url_char(c % 64),
                ];
                assert(base64url_unpadded(d) == head + base64url_unpadded(d.skip(3)));
                assert forall|i: int| 0 <= i < base64url_unpadded(d).len() implies is_base64url_alphabet(
                    #[trigger] base64url_unpadded(d)[i],
                ) by {
                    if i >= 4 {
                        assert(base64url_unpadded(d)[i] == base64url_unpadded(d.skip(3))[i - 4]);
                    }
                }
            }
        }
    }
}

/// SHA3-256 digest (`sha3::Sha3_256::digest`). The claim: the 32-byte result is the digest
/// of `data`, and the same input always gives the same digest.
#[verifier::external_body]
pub(crate) fn sha3_256_digest(data: &[u8]) -> (r: Vec<u8>)
    ensures
        r@ == sha3_256(data@),
        r@.len() == 32,
{
    sha3::Sha3_256::digest(data).to_vec()
}

/// HKDF-SHA3-256 expansion to 32 bytes with no salt (`hkdf::Hkdf::<Sha3_256>::new(None, ikm)`
/// then `expand(info, ..)`). The claim: the result is 32 bytes, determined by `ikm` and `info`;
/// a 32-byte output is within HKDF's limit of 255 hash lengths, so the expansion cannot fail.
#[verifier::external_body]
pub(crate) fn hkdf_sha3_256_expand_32(ikm: &[u8], info: &[u8]) -> (r: Vec<u8>)
    ensures
        r@ == hkdf_sha3_256_32(ikm@, info@),
        r@.len() == 32,
{
    let hk = hkdf::Hkdf::<sha3::Sha3_256>::new(None, ikm);
    let mut okm = [0u8; 32];
    hk.expand(info, &mut okm).expect("32 bytes is within the HKDF output limit");
    okm.to_vec()
}

/// Base58btc encoding (`bs58::encode(..).into_string()`). The claim: the text is the encoding
/// that `base58_encode` states.
#[verifier::external_body]
pub(crate) fn bs58_encode(data: &[u8]) -> (r: String)
    ensures
        r@ == base58_encode(data@),
{
    bs58::encode(data).into_string()
}

/// Base58btc decoding (`bs58::decode(..).into_vec()`). The claim, read off the crate's
/// `decode_into`/`encode_into`: decoding succeeds exactly on the texts that encoding produces,
/// and then gives back the bytes that were encoded.
#[verifier::external_body]
pub(crate) fn bs58_decode(text: &str) -> (r: Result<Vec<u8>, bs58::decode::Error>)
    ensures
        r is Ok ==> base58_encode(r->Ok_0@) == text@,
        forall|b: Seq<u8>| #[trigger] base58_encode(b) == text@ ==> (r is Ok && r->Ok_0@ == b),
{
    bs58::decode(text).into_vec()
}

/// The message that `bs58`'s decoding error displays (its `Display` impl); nothing is claimed
/// of its text.
#[verifier::external_body]
pub(crate) fn bs58_error_text(e: &bs58::decode::Error) -> String {
    e.to_string()
}

/// Unpadded base64url encoding (`base64ct::Base64UrlUnpadded::encode_string`). The claim: the
/// text is the RFC 4648 §5 encoding without padding, as stated by `base64url_unpadded`.
#[verifier::external_body]
pub(crate) fn base64url_encode(data: &[u8]) -> (r: String)
    ensures
        r@ == base64url_unpadded(data@),
{
    base64ct::Base64UrlUnpadded::encode_string(data)
}

} // verus!
