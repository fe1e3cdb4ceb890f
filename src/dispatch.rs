use vstd::prelude::*;

use crate::cab::Cab;
use crate::error::DispatchError;
use crate::fleet::{register_state, release_outcome, request_outcome, Fleet, cab_index, has_cab};
use crate::ids::{hex_value, is_object_id, parse_id};
use crate::person::Person;
use crate::point::Point;

verus! {

/// The greeting of the service.
pub fn hello() -> (r: String)
    ensures
        r@ == "Hello from Fuber"@,
{
    "Hello from Fuber".to_string()
}

/// Whether `rider` is the rider that the identity string `rider_id` names.
pub open spec fn names_rider(rider_id: Seq<char>, rider: Option<Person>) -> bool {
    rider matches Some(p) && p.id as int == hex_value(rider_id)
}

/// Serves a ride request by the rider named `rider_id`, whom the caller has
/// looked up as `rider`.  A malformed identity gives `InvalidId`; a rider
/// that was not found, or is not the one named, gives `NotFound`; otherwise
/// the fleet serves the request.
pub fn request_ride(fleet: &mut Fleet, rider_id: &str, rider: &Option<Person>) -> (r: Result<
    Cab,
    DispatchError,
>)
    requires
        old(fleet).wf(),
    ensures
        final(fleet).wf(),
        !is_object_id(rider_id@) ==> r == Err::<Cab, DispatchError>(DispatchError::InvalidId)
            && final(fleet)@ == old(fleet)@,
        is_object_id(rider_id@) && !names_rider(rider_id@, *rider) ==> r == Err::<
            Cab,
            DispatchError,
        >(DispatchError::NotFound) && final(fleet)@ == old(fleet)@,
        is_object_id(rider_id@) && names_rider(rider_id@, *rider) ==> request_outcome(
            old(fleet)@,
            rider->Some_0,
            final(fleet)@,
            r,
        ),
        (forall|i: int| 0 <= i < old(fleet)@.len() ==> (#[trigger] old(fleet)@[i]).person_id.is_some())
            ==> r is Err && final(fleet)@ == old(fleet)@,
        r is Ok ==> exists|i: int|
            0 <= i < old(fleet)@.len() && (#[trigger] old(fleet)@[i]).person_id.is_none()
                && old(fleet)@[i].id == r->Ok_0.id && final(fleet)@[i] == r->Ok_0,
{
    match parse_id(rider_id) {
        Err(e) => Err(e),
        Ok(id) => match rider {
            Some(p) => {
                if p.id == id {
                    fleet.add_person(p)
                } else {
                    Err(DispatchError::NotFound)
                }
            },
            None => Err(DispatchError::NotFound),
        },
    }
}

/// Ends the ride of the rider named `rider_id`.  A malformed identity gives
/// `InvalidId`; a rider with no active ride gives `NotFound`.
pub fn release_ride(fleet: &mut Fleet, rider_id: &str) -> (r: Result<Cab, DispatchError>)
    requires
        old(fleet).wf(),
    ensures
        final(fleet).wf(),
        !is_object_id(rider_id@) ==> r == Err::<Cab, DispatchError>(DispatchError::InvalidId)
            && final(fleet)@ == old(fleet)@,
        is_object_id(rider_id@) ==> release_outcome(
            old(fleet)@,
            hex_value(rider_id@) as u128,
            final(fleet)@,
            r,
        ),
{
    match parse_id(rider_id) {
        Ok(id) => fleet.release(id),
        Err(e) => Err(e),
    }
}

/// Registers a free cab at `location` under the identity `unit_id`,
/// replacing a cab of that identity.  A malformed identity gives `InvalidId`.
pub fn register_unit(fleet: &mut Fleet, unit_id: &str, location: Point) -> (r: Result<
    Cab,
    DispatchError,
>)
    requires
        old(fleet).wf(),
    ensures
        final(fleet).wf(),
        !is_object_id(unit_id@) ==> r == Err::<Cab, DispatchError>(DispatchError::InvalidId)
            && final(fleet)@ == old(fleet)@,
        is_object_id(unit_id@) ==> {
            let c = Cab {
                id: hex_value(unit_id@) as u128,
                location,
                destination: None,
                person_id: None,
            };
            r == Ok::<Cab, DispatchError>(c) && final(fleet)@ == register_state(old(fleet)@, c)
        },
{
    let id = match parse_id(unit_id) {
        Ok(id) => id,
        Err(e) => {
            return Err(e);
        },
    };
    let cab = Cab::new(id, location);
    match fleet.register(cab) {
        Ok(()) => Ok(cab),
        Err(e) => Err(e),
    }
}

/// Removes the cab named `unit_id`, whatever its state.  A malformed
/// identity gives `InvalidId`; an unknown one gives `NotFound`.
pub fn deregister_unit(fleet: &mut Fleet, unit_id: &str) -> (r: Result<(), DispatchError>)
    requires
        old(fleet).wf(),
    ensures
        final(fleet).wf(),
        !is_object_id(unit_id@) ==> r == Err::<(), DispatchError>(DispatchError::InvalidId)
            && final(fleet)@ == old(fleet)@,
        is_object_id(unit_id@) && !has_cab(old(fleet)@, hex_value(unit_id@) as u128) ==> r
            == Err::<(), DispatchError>(DispatchError::NotFound) && final(fleet)@ == old(fleet)@,
        is_object_id(unit_id@) && has_cab(old(fleet)@, hex_value(unit_id@) as u128) ==> r is Ok
            && final(fleet)@ == old(fleet)@.remove(
            cab_index(old(fleet)@, hex_value(unit_id@) as u128),
        ),
{
    match parse_id(unit_id) {
        Ok(id) => fleet.deregister(id),
        Err(e) => Err(e),
    }
}

/// Every cab of the fleet, in registration order.
pub fn list_units(fleet: &Fleet) -> (r: Vec<Cab>)
    ensures
        r@ == fleet@,
{
    fleet.list_cabs()
}

} // verus!
