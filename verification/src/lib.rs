//! Channel-gated interchain query dispatch.
//!
//! The library decides whether a batch of read-only query requests may be
//! sent to a remote chain, computes the packet timeout, builds the canonical
//! packet payload, and keeps the bookkeeping (channel registry, configuration,
//! administrative control) that makes that routing safe.  Packet delivery and
//! the channel handshake themselves are the transport's business; the
//! transport drives the handlers in [`ibc`], which are the only writers of
//! the channel registry.

pub mod codec;
pub mod contract;
pub mod error;
pub mod ibc;
pub mod msg;
pub mod state;
