use vstd::prelude::*;

use crate::cab::Cab;
use crate::error::DispatchError;
use crate::fleet::{release_outcome, request_outcome, Fleet};
use crate::point::{dist_sq, Point};

verus! {

/// A rider: who asks, where to be picked up, and where to go.
#[derive(Clone, Debug, PartialEq, Eq)]
pub struct Person {
    pub id: u128,
    pub name: String,
    pub location: Point,
    pub destination: Point,
}

impl Person {
    pub fn new(id: u128, name: String, location: Point, destination: Point) -> (r: Person)
        ensures
            r.id == id,
            r.name@ == name@,
            r.location == location,
            r.destination == destination,
    {
        Person { id, name, location, destination }
    }

    pub fn get_id(&self) -> (r: u128)
        ensures
            r == self.id,
    {
        self.id
    }

    pub fn get_location(&self) -> (r: Point)
        ensures
            r == self.location,
    {
        self.location
    }

    pub fn get_destination(&self) -> (r: Point)
        ensures
            r == self.destination,
    {
        self.destination
    }

    /// The one of two cabs that stands nearer to the rider; `c1` on a tie.
    pub fn nearest_cab(&self, c1: &Cab, c2: &Cab) -> (r: Cab)
        ensures
            r == (if dist_sq(self.location, c2.location) < dist_sq(self.location, c1.location) {
                *c2
            } else {
                *c1
            }),
    {
        if self.location.is_strictly_nearer(&c2.location, &c1.location) {
            *c2
        } else {
            *c1
        }
    }

    /// Asks `fleet` for the nearest free cab.
    pub fn request_cab(&self, fleet: &mut Fleet) -> (r: Result<Cab, DispatchError>)
        requires
            old(fleet).wf(),
        ensures
            final(fleet).wf(),
            request_outcome(old(fleet)@, *self, final(fleet)@, r),
    {
        fleet.add_person(self)
    }

    /// Ends the rider's ride: the cab is freed at the rider's destination.
    pub fn end_cab_ride(&self, fleet: &mut Fleet) -> (r: Result<Cab, DispatchError>)
        requires
            old(fleet).wf(),
        ensures
            final(fleet).wf(),
            release_outcome(old(fleet)@, self.id, final(fleet)@, r),
    {
        fleet.remove_person(self)
    }
}

} // verus!
