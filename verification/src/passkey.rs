//! Decisions of the passkey (WebAuthn) service around the ceremonies that the WebAuthn
//! library performs.
use vstd::prelude::*;

use crate::store::StoreError;
use crate::text::{concat_str, to_owned_string, trim_char, trim_end_all, trim_start_all};

verus! {

/// Errors of the passkey service.
#[derive(Debug)]
pub enum PasskeyError {
    /// The WebAuthn library refused a ceremony; the text is its message.
    Webauthn(String),
    /// The store failed.
    Store(StoreError),
    /// The user has no registered credential.
    NoCredentials,
    /// The authenticated credential is not in the store, so its counter cannot be advanced.
    CredentialNotMatched,
    /// A passkey could not be (de)serialised; the text is the serialiser's message.
    Serialization(String),
}

impl PasskeyError {
    /// The display form of the error.
    pub fn to_string(&self) -> (r: String)
        ensures
            self is NoCredentials ==> r@ == "no credentials registered for this user"@,
    {
        match self {
            PasskeyError::Webauthn(m) => concat_str("WebAuthn error: ", m.as_str()),
            PasskeyError::Store(e) => {
                let t = e.to_string();
                concat_str("store error: ", t.as_str())
            },
            PasskeyError::NoCredentials => "no credentials registered for this user".to_owned(),
            PasskeyError::CredentialNotMatched => {
                "authenticated credential not found in store; counter not updated".to_owned()
            },
            PasskeyError::Serialization(m) => concat_str("serialization error: ", m.as_str()),
        }
    }
}

/// An authentication ceremony needs at least one registered credential.
pub fn require_credentials(count: usize) -> (res: Result<(), PasskeyError>)
    ensures
        count == 0 ==> res matches Err(PasskeyError::NoCredentials),
        count > 0 ==> res is Ok,
{
    if count == 0 {
        return Err(PasskeyError::NoCredentials);
    }
    Ok(())
}

/// Some credential's counter update reported a change (`Some(true)`).
pub open spec fn any_advanced(results: Seq<Option<bool>>) -> bool {
    exists|i: int| 0 <= i < results.len() && #[trigger] results[i] == Some(true)
}

/// Whether any passkey's state changed with the authentication (so it must be re-persisted).
pub fn counter_advanced(results: &Vec<Option<bool>>) -> (b: bool)
    ensures
        b == any_advanced(results@),
{
    let mut found = false;
    let mut i: usize = 0;
    while i < results.len()
        invariant
            i <= results@.len(),
            found == exists|k: int| 0 <= k < i && #[trigger] results@[k] == Some(true),
        decreases results@.len() - i,
    {
        if results[i] == Some(true) {
            found = true;
        }
        i = i + 1;
    }
    found
}

/// The credential id carried by its JSON string form: the text without surrounding quotes
/// (`trim_matches('"')`).
pub fn credential_id_from_json(json: &str) -> (r: String)
    ensures
        r@ == trim_start_all(trim_end_all(json@, '"'), '"'),
{
    to_owned_string(trim_char(json, '"'))
}

} // verus!
