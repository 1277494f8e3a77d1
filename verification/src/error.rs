//! The ways in which a poll cycle, or the run as a whole, can fail.

use vstd::prelude::*;

verus! {

/// Failure of one step of polling or joining.
///
/// The first three variants concern a single address within a cycle and are
/// never fatal to the cycle; the last two end the run.
#[derive(Debug, Clone, Copy, PartialEq, Eq, Structural)]
pub enum QueryError {
    /// A response ended before all of its fields were read, or a text field
    /// had no terminator.
    MalformedResponse,
    /// No reply arrived within the receive timeout.
    QueryTimeout,
    /// The latency probe failed, or its report held no round-trip time.
    ProbeFailed,
    /// The external launcher reported that the client could not be started.
    JoinFailed,
    /// No server address was configured.
    NoAddresses,
}

} // verus!
