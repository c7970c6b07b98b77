//! Errors of the identity layer (root identifiers, aliases, VSIDs).
use vstd::prelude::*;

use crate::text::{concat_str, decimal, to_owned_string, usize_to_decimal, utf8_len};

verus! {

/// Why an identifier was rejected; the first failing rule is reported.
#[derive(Debug, Clone, Copy, PartialEq, Eq, Structural)]
pub enum IdentifierFault {
    /// `username@server` input without `@`.
    MissingAt,
    /// The username part is empty.
    UsernameEmpty,
    /// The username is shorter than 3 or longer than 64 bytes.
    UsernameLength,
    /// The username holds a character other than ASCII letters, digits, `-` and `_`.
    UsernameChar,
    /// The username consists only of underscores.
    UsernameOnlyUnderscores,
    /// The server part is empty.
    ServerEmpty,
    /// The server name (without one trailing dot) exceeds 253 bytes.
    ServerTooLong,
    /// The server has an empty dot-separated label.
    LabelEmpty,
    /// A server label exceeds 63 bytes.
    LabelTooLong,
    /// A server label holds a character other than ASCII letters, digits and `-`.
    LabelChar,
    /// A server label starts or ends with `-`.
    LabelHyphen,
    /// Input holds neither `@` nor `_`, so it is neither a root identity nor an alias.
    UnknownKind,
    /// A VSID was asked for a DID that does not start with `did:web:`.
    NotDidWeb,
    /// A VSID was asked for a `did:web:` DID whose body is malformed.
    MalformedDidWeb,
}

/// Error of the identity layer.
#[derive(Debug, Clone, PartialEq, Eq)]
pub enum IdentityError {
    /// The identifier is not acceptable; the text says why.
    InvalidIdentifier(String),
}

/// The message of a fault found in `subject`: the whole input for a missing `@` or an unknown
/// kind, the username for username faults, the server for server faults (lengths in bytes).
pub open spec fn fault_text(f: IdentifierFault, subject: Seq<char>) -> Seq<char> {
    match f {
        IdentifierFault::MissingAt => "missing '@' in '"@ + subject + "'"@,
        IdentifierFault::UsernameEmpty => "username is empty"@,
        IdentifierFault::UsernameLength => "username length "@ + decimal(utf8_len(subject))
            + " out of range [3, 64]"@,
        IdentifierFault::UsernameChar => "invalid character in username '"@ + subject + "'"@,
        IdentifierFault::UsernameOnlyUnderscores => "username cannot consist only of underscores"@,
        IdentifierFault::ServerEmpty => "server is empty"@,
        IdentifierFault::ServerTooLong => "server hostname exceeds 253 octets in '"@ + subject
            + "'"@,
        IdentifierFault::LabelEmpty => "empty label in server '"@ + subject + "'"@,
        IdentifierFault::LabelTooLong => "label exceeds 63 octets in server '"@ + subject + "'"@,
        IdentifierFault::LabelChar => "invalid character in server '"@ + subject + "'"@,
        IdentifierFault::LabelHyphen => "label starts or ends with hyphen in '"@ + subject + "'"@,
        IdentifierFault::UnknownKind => "cannot determine identifier kind for '"@ + subject + "'"@,
        IdentifierFault::NotDidWeb => "did_root must be a did:web: DID"@,
        IdentifierFault::MalformedDidWeb => "did_root has malformed did:web syntax"@,
    }
}

/// `r` is the refusal for fault `f` found in `subject`.
pub open spec fn is_fault<T>(r: Result<T, IdentityError>, f: IdentifierFault, subject: Seq<char>) -> bool {
    r matches Err(IdentityError::InvalidIdentifier(m)) && m@ == fault_text(f, subject)
}

/// `r` is the outcome that corresponds to an optional fault found in `subject`.
pub open spec fn fault_outcome(r: Result<(), IdentityError>, f: Option<IdentifierFault>, subject: Seq<char>) -> bool {
    match f {
        Some(f) => is_fault(r, f, subject),
        None => r is Ok,
    }
}

/// `prefix`, then `s`, then a closing quote.
fn quoted(prefix: &str, s: &str) -> (r: String)
    ensures
        r@ == prefix@ + s@ + "'"@,
{
    let mut out = concat_str(prefix, s);
    out.append("'");
    out
}

/// The refusal for fault `f` found in `subject`.
pub fn fault_error(f: IdentifierFault, subject: &str) -> (e: IdentityError)
    ensures
        e matches IdentityError::InvalidIdentifier(m) && m@ == fault_text(f, subject@),
{
    let m = match f {
        IdentifierFault::MissingAt => quoted("missing '@' in '", subject),
        IdentifierFault::UsernameEmpty => to_owned_string("username is empty"),
        IdentifierFault::UsernameLength => {
            let n = subject.as_bytes().len();
            let d = usize_to_decimal(n);
            let mut out = concat_str("username length ", d.as_str());
            out.append(" out of range [3, 64]");
            out
        },
        IdentifierFault::UsernameChar => quoted("invalid character in username '", subject),
        IdentifierFault::UsernameOnlyUnderscores => to_owned_string(
            "username cannot consist only of underscores",
        ),
        IdentifierFault::ServerEmpty => to_owned_string("server is empty"),
        IdentifierFault::ServerTooLong => quoted("server hostname exceeds 253 octets in '", subject),
        IdentifierFault::LabelEmpty => quoted("empty label in server '", subject),
        IdentifierFault::LabelTooLong => quoted("label exceeds 63 octets in server '", subject),
        IdentifierFault::LabelChar => quoted("invalid character in server '", subject),
        IdentifierFault::LabelHyphen => quoted("label starts or ends with hyphen in '", subject),
        IdentifierFault::UnknownKind => quoted("cannot determine identifier kind for '", subject),
        IdentifierFault::NotDidWeb => to_owned_string("did_root must be a did:web: DID"),
        IdentifierFault::MalformedDidWeb => to_owned_string("did_root has malformed did:web syntax"),
    };
    IdentityError::InvalidIdentifier(m)
}

/// The display form of an identity error.
pub open spec fn identity_error_message(e: IdentityError) -> Seq<char> {
    match e {
        IdentityError::InvalidIdentifier(m) => "invalid identifier: "@ + m@,
    }
}

impl IdentityError {
    /// The display form of the error.
    pub fn to_string(&self) -> (r: String)
        ensures
            r@ == identity_error_message(*self),
    {
        match self {
            IdentityError::InvalidIdentifier(m) => concat_str("invalid identifier: ", m.as_str()),
        }
    }
}

} // verus!
