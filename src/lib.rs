//! Dispatch core of a ride service: positions, cabs, riders and the fleet
//! that matches each rider to the nearest free cab.

mod cab;
mod dispatch;
mod error;
mod fleet;
mod ids;
mod laws;
mod person;
mod point;

pub use cab::Cab;
pub use dispatch::{
    deregister_unit, hello, list_units, names_rider, register_unit, release_ride, request_ride,
};
pub use error::DispatchError;
pub use fleet::{
    arrived, fleet_wf, has_free, holds_rider, is_nearest_free, nearest_free, release_outcome,
    request_outcome, rider_cab, Fleet,
};
pub use ids::{hex_digit_value, hex_value, is_hex_digit, is_object_id, parse_id};
pub use laws::{
    lemma_full_fleet_refuses, lemma_release_twice, lemma_request_deterministic,
    lemma_request_then_release, lemma_requests_never_share_a_cab,
};
pub use person::Person;
pub use point::{dist_sq, in_random_range, Point};
