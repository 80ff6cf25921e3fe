//! The ways an operation of the store can fail.

use vstd::prelude::*;

verus! {

/// Why an operation failed.
#[derive(Clone, Copy, Debug, PartialEq, Eq, Structural)]
pub enum StoreError {
    /// The device or file system failed.  The shard it happened on accepts
    /// no more writes until it is recreated.
    IoError,
    /// Stored bytes failed validation on the way back in.
    CorruptRecord,
    /// The segment a location refers to is not there.
    NotFound,
    /// A string is not the rendering of a file key.
    InvalidKey,
    /// A directory entry names a field outside the block's field mapping.
    SchemaMismatch,
    /// The shard's queue of pending writes is full.
    QueueFull,
    /// The record is longer than a location can describe.
    RecordTooLarge,
    /// A checkpoint was asked for beyond what has been flushed.
    NotDurable,
}

} // verus!
