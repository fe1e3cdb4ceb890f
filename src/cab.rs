use vstd::prelude::*;

use crate::error::DispatchError;
use crate::point::Point;

verus! {

/// A cab: its identity, where it stands, and the ride it is on, if any.
#[derive(Clone, Copy, Debug, PartialEq, Eq, Structural, Hash)]
pub struct Cab {
    pub id: u128,
    pub location: Point,
    pub destination: Option<Point>,
    pub person_id: Option<u128>,
}

impl Cab {
    /// A cab is consistent when its destination and its rider are set together.
    pub open spec fn wf(self) -> bool {
        self.destination.is_some() == self.person_id.is_some()
    }

    /// The cab after taking on `rider`, bound for `destination`.
    pub open spec fn assigned(self, destination: Point, rider: u128) -> Cab {
        Cab { destination: Some(destination), person_id: Some(rider), ..self }
    }

    /// The cab with its ride cleared, standing where it was.
    pub open spec fn cleared(self) -> Cab {
        Cab { destination: None, person_id: None, ..self }
    }

    /// A free cab at `location`.
    pub fn new(id: u128, location: Point) -> (r: Cab)
        ensures
            r == (Cab { id, location, destination: None, person_id: None }),
    {
        Cab { id, location, destination: None, person_id: None }
    }

    pub fn get_location(&self) -> (r: Point)
        ensures
            r == self.location,
    {
        self.location
    }

    /// Whether no rider is assigned to the cab.
    pub fn is_free(&self) -> (r: bool)
        ensures
            r == self.person_id.is_none(),
    {
        self.person_id.is_none()
    }

    /// Moves the cab; always allowed.
    pub fn update_location(&mut self, location: Point)
        ensures
            *final(self) == (Cab { location, ..*old(self) }),
    {
        self.location = location;
    }

    /// Assigns `rider`, bound for `destination`; refused on a cab that
    /// already carries a rider.
    pub fn assign(&mut self, destination: Point, rider: u128) -> (r: Result<(), DispatchError>)
        ensures
            old(self).person_id.is_some() ==> r == Err::<(), DispatchError>(
                DispatchError::InvalidState,
            ) && *final(self) == *old(self),
            old(self).person_id.is_none() ==> r is Ok && *final(self) == old(self).assigned(
                destination,
                rider,
            ),
    {
        if self.person_id.is_some() {
            Err(DispatchError::InvalidState)
        } else {
            self.destination = Some(destination);
            self.person_id = Some(rider);
            Ok(())
        }
    }

    /// Clears the ride; on a free cab this changes nothing.
    pub fn release(&mut self)
        ensures
            *final(self) == old(self).cleared(),
    {
        self.destination = None;
        self.person_id = None;
    }
}

} // verus!
