//! The error taxonomy of the pipeline.

use vstd::prelude::*;

verus! {

/// One typed error per failure class of the pipeline.
///
/// `PoolExhausted` is transient and retried with backoff; the variants that
/// carry a `String` preserve the backend's message for the failing phase.
#[derive(Debug)]
pub enum PipelineError {
    /// The connection pool had no free lease.
    PoolExhausted,
    /// The backend rejected a query or execute call.
    QueryFailed(String),
    /// A record could not be written in the exchange format (staging step).
    SerializationFailed,
    /// Opening, writing to, or closing a bulk channel failed.
    ChannelFailed(String),
    /// Beginning, committing, or rolling back a transaction failed.
    TransactionFailed(String),
    /// Zero rows were affected where at least one was expected.
    NotFound,
    /// A caller-supplied argument was rejected.
    InvalidArgument,
}

} // verus!
