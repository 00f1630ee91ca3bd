use vstd::prelude::*;

verus! {

/// Failure conditions surfaced at the foreign-call boundary.
///
/// Every condition is unrecoverable at the point of detection and is
/// surfaced to the caller by failing the call; nothing is retried.
#[derive(Clone, Copy, Debug, PartialEq, Eq, Structural)]
pub enum BoundaryError {
    /// A required pointer argument was null.
    NullPointer,
    /// Bytes read on decode were not valid encoded text.
    InvalidEncoding,
    /// An owned allocation was handed to a release entry point twice.
    DoubleRelease,
    /// An allocation was read through after it had been released.
    UseAfterRelease,
    /// A background generation task failed before delivering its result.
    TaskFailure,
    /// A bounded wait on the parallel collection point expired.
    Timeout,
}

} // verus!
