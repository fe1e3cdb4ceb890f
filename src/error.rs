use vstd::prelude::*;

verus! {

/// The ways a dispatch operation can fail.
#[derive(Clone, Copy, Debug, PartialEq, Eq, Structural)]
pub enum DispatchError {
    /// No cab is free: the fleet is full for now, try again later.
    NoCapacity,
    /// An unknown rider or cab, or a rider with no active assignment.
    NotFound,
    /// An assignment that would break the one-rider-per-cab rule.
    InvalidState,
    /// An identifier that is empty or not 24 hexadecimal digits.
    InvalidId,
    /// The fleet could not be locked in time.
    Busy,
}

} // verus!
