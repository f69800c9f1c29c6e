//! An address-indexed view of the unspent transaction outputs of a
//! Bitcoin-like chain: a typed binary key schema over an embedded key-value
//! store, compact per-address slot arrays maintained by swap-delete, a bounded
//! rewind buffer that can undo any of the last N applied blocks, a consensus
//! block parser, and the balance / UTXO-selection queries.

pub mod api;
pub mod block;
pub mod codec;
pub mod driver;
pub mod ext;
pub mod laws;
pub mod rewind;
pub mod store;
pub mod utxo;

use vstd::prelude::*;

verus! {

/// The failure kinds of the index. Query handling distinguishes bad requests
/// (missing parameter, invalid address, unknown endpoint) from broken
/// invariants (missing or malformed records).
#[derive(Clone, Copy, Debug, PartialEq, Eq, Structural)]
pub enum IndexError {
    MalformedKey,
    MalformedValue,
    MalformedBlock,
    InvalidAddress,
    MissingParam,
    UnknownEndpoint,
    MissingRecord,
    RpcError,
    ReorgTooDeep,
    AddressFull,
}

} // verus!
