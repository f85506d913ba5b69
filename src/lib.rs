//! Proof-of-work computation and checking for block templates of a blockDAG
//! network: header serialization, compact difficulty targets, the hashing
//! pipeline that turns a header and a nonce into a work value, and the
//! messages that carry solved blocks back to a node.
use vstd::prelude::*;

pub mod hasher;
pub mod header;
pub mod hex;
pub mod le;
pub mod messages;
pub mod mixer;
pub mod pow;
pub mod proto;
pub mod target;

verus! {

/// A 256-bit hash, as four little-endian words.
pub type Hash = target::Uint256;

/// Why a block template could not be taken up.
#[derive(Debug, Clone, Copy, PartialEq, Eq, Structural)]
pub enum Error {
    /// The template carries no header.
    MissingHeader,
    /// A hex field of the header does not decode.
    Hex(hex::FromHexError),
}

} // verus!
