//! Error kinds surfaced by the core.
//!
//! In the model the store cannot fail on IO, so the only storage failure
//! that can arise here is arithmetic overflow when a wait duration is
//! converted to the on-disk integer type; the surrounding runtime maps
//! backend IO failures onto these same kinds.

use vstd::prelude::*;

verus! {

/// Failure of a store operation.
#[derive(Clone, Copy, Debug, PartialEq, Eq, Structural)]
pub enum StorageError {
    /// Backend IO or constraint failure, including overflow converting a
    /// duration to the on-disk integer type.
    Database,
    /// Codec failure on push or fetch.
    Parse,
}

/// Failure of one polling step; the stream survives it.
#[derive(Clone, Copy, Debug, PartialEq, Eq, Structural)]
pub enum StreamError {
    /// Transient backend failure during polling.
    BrokenPipe,
}

/// What an umbrella failure wraps.
#[derive(Clone, Copy, Debug, PartialEq, Eq, Structural)]
pub enum Cause {
    Storage(StorageError),
    Stream(StreamError),
}

/// The umbrella failure surfaced to handlers: any failure of the store or
/// of the polling stream, wrapped for the consuming side.
#[derive(Clone, Copy, Debug, PartialEq, Eq, Structural)]
pub enum Error {
    Failed(Cause),
}

} // verus!
