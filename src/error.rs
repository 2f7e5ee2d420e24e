use vstd::prelude::*;

verus! {

#[verifier::external_type_specification]
#[verifier::external_body]
pub struct ExBip158Error(bitcoin::util::bip158::Error);

/// An error that can occur during sync with a compact filters backend.
#[derive(Debug)]
pub enum CompactFiltersError {
    /// A peer sent an invalid or unexpected response
    InvalidResponse,
    /// The headers returned are invalid
    InvalidHeaders,
    /// The compact filter headers returned are invalid
    InvalidFilterHeader,
    /// The compact filter returned is invalid
    InvalidFilter,
    /// The peer is missing a block in the valid chain
    MissingBlock,
    /// The data stored in the block filters storage are corrupted
    DataCorruption,
    /// A peer is not connected
    NotConnected,
    /// A peer took too long to reply to one of our messages
    Timeout,
    /// No peers have been specified
    NoPeers,
    /// Internal database error, with the storage engine's message
    DB(String),
    /// Internal I/O error, with its message
    IO(String),
    /// Invalid BIP158 filter
    BIP158(bitcoin::util::bip158::Error),
    /// Internal system time error, with its message
    Time(String),
    /// Error raised by the wallet database layer, with its message
    Global(String),
}

} // verus!
