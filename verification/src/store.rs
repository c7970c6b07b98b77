//! Decisions of the encrypted user store that do not touch the database: the input of the
//! username lookup index, the credential-owner check of atomic registration, and the
//! classification of write outcomes.
use vstd::prelude::*;

use crate::text::{concat_str, extend_bytes, utf8_len};
use crate::vsid::{lemma_prefixed_pair_injective, prefixed_field};

verus! {

/// Errors of the encrypted store.
#[derive(Debug)]
pub enum StoreError {
    /// The database refused an operation; the text is its message.
    Database(String),
    /// A schema migration failed; the text is its message.
    Migration(String),
    /// Encryption or key derivation failed; the text is its message.
    Crypto(String),
    /// A stored ciphertext is not a well-formed nonce+ciphertext blob.
    InvalidBlob,
    /// Decrypted bytes are not UTF-8; the text is the decoder's message.
    Utf8(String),
    /// A stored id is not a UUID; the text is the parser's message.
    Uuid(String),
    /// A timestamp could not be formatted or parsed; the text says why.
    Time(String),
    /// A row with a unique key (such as the username index) already exists.
    Duplicate,
    /// An update or fetch targeted a row that does not exist.
    NotFound,
    /// A credential handed to atomic registration belongs to another user id.
    CredentialUserMismatch,
}

impl StoreError {
    /// The display form of the error.
    pub fn to_string(&self) -> (r: String)
        ensures
            self matches StoreError::Duplicate ==> r@ == "duplicate row (unique constraint violated)"@,
            self matches StoreError::NotFound ==> r@ == "row not found"@,
            self matches StoreError::Database(m) ==> r@ == "database error: "@ + m@,
    {
        match self {
            StoreError::Database(m) => concat_str("database error: ", m.as_str()),
            StoreError::Migration(m) => concat_str("migration error: ", m.as_str()),
            StoreError::Crypto(m) => concat_str("crypto error: ", m.as_str()),
            StoreError::InvalidBlob => "invalid encrypted blob".to_owned(),
            StoreError::Utf8(m) => concat_str("UTF-8 decode error: ", m.as_str()),
            StoreError::Uuid(m) => concat_str("UUID parse error: ", m.as_str()),
            StoreError::Time(m) => concat_str("timestamp error: ", m.as_str()),
            StoreError::Duplicate => "duplicate row (unique constraint violated)".to_owned(),
            StoreError::NotFound => "row not found".to_owned(),
            StoreError::CredentialUserMismatch => {
                "credential user_id does not match the user being registered".to_owned()
            },
        }
    }
}

/// The bytes from which the username lookup index is derived:
/// `u32_be(len(username)) || username || u32_be(len(server)) || server`.
pub open spec fn username_index_input_of(username: Seq<char>, server: Seq<char>) -> Seq<u8> {
    prefixed_field(username) + prefixed_field(server)
}

/// Computes the length-prefixed input of the username lookup index.
pub fn username_index_input(username: &str, server: &str) -> (r: Vec<u8>)
    ensures
        r@ == username_index_input_of(username@, server@),
{
    let mut v: Vec<u8> = Vec::new();
    let ul = username.len() as u32;
    v.push((ul / 0x1000000) as u8);
    v.push(((ul / 0x10000) % 0x100) as u8);
    v.push(((ul / 0x100) % 0x100) as u8);
    v.push((ul % 0x100) as u8);
    extend_bytes(&mut v, username.as_bytes());
    let sl = server.len() as u32;
    v.push((sl / 0x1000000) as u8);
    v.push(((sl / 0x10000) % 0x100) as u8);
    v.push(((sl / 0x100) % 0x100) as u8);
    v.push((sl % 0x100) as u8);
    extend_bytes(&mut v, server.as_bytes());
    proof {
        assert(v@ =~= username_index_input_of(username@, server@));
    }
    v
}

/// Distinct `(username, server)` pairs give distinct index inputs (for usernames shorter than
/// 4 GiB): `("a@b", "c")` and `("a", "b@c")` cannot collide.
pub proof fn lemma_username_index_input_injective(
    u1: Seq<char>,
    s1: Seq<char>,
    u2: Seq<char>,
    s2: Seq<char>,
)
    requires
        utf8_len(u1) < 0x1_0000_0000,
        utf8_len(u2) < 0x1_0000_0000,
        username_index_input_of(u1, s1) == username_index_input_of(u2, s2),
    ensures
        u1 == u2,
        s1 == s2,
{
    lemma_prefixed_pair_injective(u1, s1, u2, s2);
}

/// Atomic registration refuses a credential that belongs to another user id, before any write.
pub fn check_credential_owner(user_id: u128, credential_user_id: u128) -> (res: Result<(), StoreError>)
    ensures
        user_id == credential_user_id <==> res is Ok,
        user_id != credential_user_id ==> res matches Err(StoreError::CredentialUserMismatch),
{
    if credential_user_id != user_id {
        return Err(StoreError::CredentialUserMismatch);
    }
    Ok(())
}

/// An `UPDATE` that matched no row means the credential is gone (or belongs to another user).
pub fn update_outcome(rows_affected: u64) -> (res: Result<(), StoreError>)
    ensures
        rows_affected == 0 <==> res matches Err(StoreError::NotFound),
        rows_affected != 0 <==> res is Ok,
{
    if rows_affected == 0 {
        return Err(StoreError::NotFound);
    }
    Ok(())
}

/// A failed `INSERT` is a duplicate when the database reports a unique-constraint violation;
/// otherwise it is a database error with the given message.
pub fn classify_insert_error(unique_violation: bool, message: String) -> (e: StoreError)
    ensures
        unique_violation ==> e matches StoreError::Duplicate,
        !unique_violation ==> (e matches StoreError::Database(m) && m@ == message@),
{
    if unique_violation {
        StoreError::Duplicate
    } else {
        StoreError::Database(message)
    }
}

} // verus!
