//! A verified core for a batching log/event forwarder: structured records are
//! accumulated into bounded batches, serialized into the forward-protocol
//! binary wire format, and handed to a reconnectable sink with best-effort
//! retry and graceful-shutdown flushing.

pub mod fluent;
pub mod mailbox;
pub mod wire;
pub mod worker;

use vstd::prelude::*;

verus! {

/// Policy marker: span data is inserted as a nested object per span.
pub struct NestedFmt;

/// Policy marker: span data is flattened into the record's root map.
pub struct FlattenFmt;

/// Failures of the delivery path; all are recovered locally by the worker.
pub enum DeliveryError {
    /// The connection factory failed to yield a sink.
    ConnectionUnavailable,
    /// Writing to an obtained sink failed.
    TransmissionFailed,
    /// All producer handles are gone without an explicit termination signal.
    ChannelClosed,
}

/// A sink that takes one encoded batch at a time.
pub trait BatchWrite {
    /// Writes the whole encoded batch, or reports failure.
    fn write_batch(&mut self, bytes: &Vec<u8>) -> Result<(), DeliveryError>;
}

/// Describes creation of a sink for encoded batches.
///
/// The worker may cache a successful result across many sends; it discards
/// the cached sink on any write failure, so `make` must be safe to call
/// repeatedly.
pub trait MakeWriter {
    /// Writer type.
    type Writer: BatchWrite;

    /// Creates an instance of `Writer`, or reports that none can be had.
    fn make(&self) -> Result<Self::Writer, DeliveryError>;
}

/// The event-layer surface: a record consumer plus the field-formatting
/// policy chosen at construction.
pub struct Layer<F, C> {
    pub consumer: C,
    pub fmt: F,
}

} // verus!
