//! Detection of the kind of a user-supplied identifier.
use vstd::prelude::*;

use crate::alias::PrivateAlias;
use crate::error::{fault_error, is_fault, IdentityError, IdentifierFault};
use crate::root_id::{root_fault, root_fault_subject, server_part, username_part, RootId};
use crate::text::{ascii_lower_seq, contains_char};

verus! {

/// The kind of identifier detected from user input.
#[derive(Debug)]
pub enum IdentifierKind {
    /// A validated public root identity (`username@server`).
    RootPublic(RootId),
    /// A private alias (contains `_`, no `@`).
    PrivateAlias(PrivateAlias),
}

/// Detect and parse user-supplied input as either a `RootPublic` or a `PrivateAlias`.
///
/// - `@` present: `RootPublic`, validated as by `RootId::parse`;
/// - `_` present without `@`: `PrivateAlias`;
/// - neither: `Err(InvalidIdentifier)`, saying that the kind cannot be determined.
pub fn parse_identifier(input: &str) -> (res: Result<IdentifierKind, IdentityError>)
    ensures
        input@.contains('@') ==> match root_fault(input@) {
            Some(f) => is_fault(res, f, root_fault_subject(input@)),
            None => res matches Ok(IdentifierKind::RootPublic(id)) && id.username@ == username_part(
                input@,
            ) && id.server@ == ascii_lower_seq(server_part(input@)),
        },
        !input@.contains('@') && input@.contains('_') ==> (res matches Ok(
            IdentifierKind::PrivateAlias(a),
        ) && a@ == input@),
        !input@.contains('@') && !input@.contains('_') ==> is_fault(
            res,
            IdentifierFault::UnknownKind,
            input@,
        ),
{
    if contains_char(input, '@') {
        let root = RootId::parse(input)?;
        return Ok(IdentifierKind::RootPublic(root));
    }
    if contains_char(input, '_') {
        match PrivateAlias::new(input) {
            Some(alias) => {
                return Ok(IdentifierKind::PrivateAlias(alias));
            },
            None => {
                proof {
                    assert(input@.len() > 0) by {
                        let k = choose|k: int| 0 <= k < input@.len() && input@[k] == '_';
                    }
                }
                return Err(fault_error(IdentifierFault::UnknownKind, input));
            },
        }
    }
    Err(fault_error(IdentifierFault::UnknownKind, input))
}

} // verus!
