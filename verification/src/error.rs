//! Errors raised by the contract's entry points.
//!
//! Every error aborts the whole call: no partial state mutation survives a
//! failed entry point.

use vstd::prelude::*;

verus! {

/// Why an entry point refused to act.
#[derive(Debug, PartialEq)]
pub enum ContractError {
    /// A dispatch or channel query named a channel that is not registered.
    NoSuchChannel { id: String },
    /// A caller other than the current admin attempted an admin-gated action,
    /// or no admin is set at all.
    Unauthorized,
    /// The effective timeout is zero, or adding it to the current block time
    /// would not yield a strictly later timestamp.
    InvalidTimeout,
    /// The packet payload could not be built from the given requests.
    EncodingError,
    /// A read-only query asked for an entity that does not exist.
    NotFound,
    /// A channel handshake proposed an ordering, version or counterparty
    /// port this contract does not accept.
    HandshakeRejected { reason: String },
}

} // verus!
