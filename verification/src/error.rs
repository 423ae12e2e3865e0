//! The errors that stop an operation before any work starts. Failures of
//! single requests and single task instances are no errors in this sense:
//! they are recorded as data, see [`crate::response::TransportError`] and
//! [`crate::tasks::TaskError`].

use vstd::prelude::*;

verus! {

/// Why a batch of work could not be set up. Nothing has started when this
/// is returned, and trying again will not help.
#[derive(Clone, Copy, Debug, PartialEq, Eq, Structural)]
pub enum SetupError {
    /// A concurrency bound of zero: no request could ever start.
    NoPermits,
    /// More task instances than can be counted: trials times tasks is too
    /// large.
    TooManyInstances,
}

} // verus!
