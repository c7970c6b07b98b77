use vstd::prelude::*;

pub mod alias;
pub mod api;
pub mod claims;
pub mod codec;
pub mod did;
pub mod discovery;
pub mod error;
pub mod identifier;
pub mod jti;
pub mod json;
pub mod net_guard;
pub mod passkey;
pub mod root_id;
pub mod session;
pub mod signing_key;
pub mod store;
pub mod text;
pub mod token;
pub mod vsid;

verus! {
} // verus!
