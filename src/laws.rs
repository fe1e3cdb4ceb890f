use vstd::prelude::*;

use crate::cab::Cab;
use crate::error::DispatchError;
use crate::fleet::{
    arrived, fleet_wf, has_free, holds_rider, is_nearest_free, nearest_free, release_outcome,
    request_outcome, rider_cab,
};
use crate::person::Person;

verus! {

/// A request changes only the cab it selects, which was free.
proof fn lemma_request_frame(s: Seq<Cab>, p: Person, t: Seq<Cab>, r: Result<Cab, DispatchError>)
    requires
        fleet_wf(s),
        request_outcome(s, p, t, r),
    ensures
        fleet_wf(t),
        t.len() == s.len(),
        forall|j: int| 0 <= j < s.len() && (#[trigger] s[j]).person_id.is_some() ==> t[j] == s[j],
{
    if has_free(s) && !holds_rider(s, p.id) {
        let i = nearest_free(s, p.location);
        assert(is_nearest_free(s, p.location, i));
        assert forall|a: int, b: int|
            0 <= a < t.len() && 0 <= b < t.len() && a != b && (#[trigger] t[a]).person_id.is_some()
                implies t[a].person_id != (#[trigger] t[b]).person_id by {
            if a == i {
                assert(s[b] == t[b]);
                assert(s[b].person_id != Some(p.id));
            } else if b == i {
                assert(s[a] == t[a]);
                assert(s[a].person_id != Some(p.id));
            } else {
                assert(s[a] == t[a] && s[b] == t[b]);
            }
        }
        assert forall|a: int, b: int|
            0 <= a < t.len() && 0 <= b < t.len() && a != b implies (#[trigger] t[a]).id != (
            #[trigger] t[b]).id by {
            assert(t[a].id == s[a].id && t[b].id == s[b].id);
        }
        assert forall|a: int| 0 <= a < t.len() implies (#[trigger] t[a]).wf() by {
            assert(a != i ==> t[a] == s[a]);
        }
    }
}

/// Facts about every state of a run of successful requests.
proof fn lemma_run_states(
    states: Seq<Seq<Cab>>,
    riders: Seq<Person>,
    results: Seq<Cab>,
    k: int,
)
    requires
        states.len() == riders.len() + 1,
        results.len() == riders.len(),
        fleet_wf(states[0]),
        forall|m: int|
            0 <= m < riders.len() ==> request_outcome(
                #[trigger] states[m],
                riders[m],
                states[m + 1],
                Ok(results[m]),
            ),
        0 <= k <= riders.len(),
    ensures
        fleet_wf(states[k]),
        states[k].len() == states[0].len(),
    decreases k,
{
    if k > 0 {
        lemma_run_states(states, riders, results, k - 1);
        lemma_request_frame(states[k - 1], riders[k - 1], states[k], Ok(results[k - 1]));
    }
}

/// The cab that request `a` selected stays as it was handed out in every
/// later state of a run of successful requests.
proof fn lemma_run_keeps(
    states: Seq<Seq<Cab>>,
    riders: Seq<Person>,
    results: Seq<Cab>,
    a: int,
    k: int,
)
    requires
        states.len() == riders.len() + 1,
        results.len() == riders.len(),
        fleet_wf(states[0]),
        forall|m: int|
            0 <= m < riders.len() ==> request_outcome(
                #[trigger] states[m],
                riders[m],
                states[m + 1],
                Ok(results[m]),
            ),
        0 <= a < k <= riders.len(),
    ensures
        0 <= nearest_free(states[a], riders[a].location) < states[k].len(),
        states[k][nearest_free(states[a], riders[a].location)] == results[a],
        results[a].person_id.is_some(),
    decreases k,
{
    let i = nearest_free(states[a], riders[a].location);
    assert(request_outcome(states[a], riders[a], states[a + 1], Ok(results[a])));
    if k == a + 1 {
    } else {
        lemma_run_keeps(states, riders, results, a, k - 1);
        lemma_run_states(states, riders, results, k - 1);
        assert(request_outcome(states[k - 1], riders[k - 1], states[k], Ok(results[k - 1])));
        lemma_request_frame(states[k - 1], riders[k - 1], states[k], Ok(results[k - 1]));
    }
}

/// Exclusivity: in any run of successful requests from a consistent fleet,
/// no two requests hand out the same cab.
pub proof fn lemma_requests_never_share_a_cab(
    states: Seq<Seq<Cab>>,
    riders: Seq<Person>,
    results: Seq<Cab>,
)
    requires
        states.len() == riders.len() + 1,
        results.len() == riders.len(),
        fleet_wf(states[0]),
        forall|m: int|
            0 <= m < riders.len() ==> request_outcome(
                #[trigger] states[m],
                riders[m],
                states[m + 1],
                Ok(results[m]),
            ),
    ensures
        forall|a: int, b: int|
            0 <= a < b < results.len() ==> (#[trigger] results[a]).id != (#[trigger] results[b]).id,
{
    assert forall|a: int, b: int| 0 <= a < b < results.len() implies (
    #[trigger] results[a]).id != (#[trigger] results[b]).id by {
        lemma_run_keeps(states, riders, results, a, b);
        lemma_run_states(states, riders, results, b);
        let ia = nearest_free(states[a], riders[a].location);
        let ib = nearest_free(states[b], riders[b].location);
        assert(request_outcome(states[b], riders[b], states[b + 1], Ok(results[b])));
        assert(is_nearest_free(states[b], riders[b].location, ib));
        assert(ia != ib);
        assert(states[b][ia].id != states[b][ib].id);
    }
}

/// Capacity: when every cab carries a rider, a request fails with
/// `NoCapacity` and changes nothing.
pub proof fn lemma_full_fleet_refuses(
    s: Seq<Cab>,
    p: Person,
    t: Seq<Cab>,
    r: Result<Cab, DispatchError>,
)
    requires
        forall|i: int| 0 <= i < s.len() ==> (#[trigger] s[i]).person_id.is_some(),
        request_outcome(s, p, t, r),
    ensures
        r == Err::<Cab, DispatchError>(DispatchError::NoCapacity),
        t == s,
{
}

/// Round trip: releasing the rider of a cab that a request handed out gives
/// back that same cab, free, standing at the rider's destination; every
/// other cab is as before the request.
pub proof fn lemma_request_then_release(
    s: Seq<Cab>,
    p: Person,
    t: Seq<Cab>,
    c: Cab,
    u: Seq<Cab>,
    r: Result<Cab, DispatchError>,
)
    requires
        fleet_wf(s),
        request_outcome(s, p, t, Ok(c)),
        release_outcome(t, c.person_id.unwrap(), u, r),
    ensures
        r == Ok::<Cab, DispatchError>(
            Cab { location: p.destination, destination: None, person_id: None, ..c },
        ),
        u == s.update(
            nearest_free(s, p.location),
            Cab { location: p.destination, ..s[nearest_free(s, p.location)] },
        ),
{
    let i = nearest_free(s, p.location);
    lemma_request_frame(s, p, t, Ok(c));
    assert(t[i].person_id == Some(p.id));
    let k = rider_cab(t, p.id);
    assert(0 <= k < t.len() && t[k].person_id == Some(p.id));
    if k != i {
        assert(t[k].person_id != t[i].person_id);
    }
    assert(arrived(t[i]) == Cab { location: p.destination, destination: None, person_id: None, ..c });
    assert(u =~= s.update(i, Cab { location: p.destination, ..s[i] }));
}

/// Determinism: requests from the same pickup point against the same cabs
/// select the same cab; when neither rider already holds a cab, both succeed
/// or both fail alike; and the same rider's request always has the same
/// outcome.
pub proof fn lemma_request_deterministic(
    s: Seq<Cab>,
    p1: Person,
    t1: Seq<Cab>,
    r1: Result<Cab, DispatchError>,
    p2: Person,
    t2: Seq<Cab>,
    r2: Result<Cab, DispatchError>,
)
    requires
        request_outcome(s, p1, t1, r1),
        request_outcome(s, p2, t2, r2),
    ensures
        p1.location == p2.location && r1 is Ok && r2 is Ok ==> r1->Ok_0.id == r2->Ok_0.id,
        p1.location == p2.location && !holds_rider(s, p1.id) && !holds_rider(s, p2.id) ==> (r1
            is Ok <==> r2 is Ok) && (r1 is Err ==> r1 == r2 && t1 == t2),
        p1 == p2 ==> r1 == r2 && t1 == t2,
{
}

/// Idempotent release: releasing the same rider a second time fails with
/// `NotFound` and changes nothing.
pub proof fn lemma_release_twice(
    s: Seq<Cab>,
    rider: u128,
    t: Seq<Cab>,
    c: Cab,
    u: Seq<Cab>,
    r: Result<Cab, DispatchError>,
)
    requires
        fleet_wf(s),
        release_outcome(s, rider, t, Ok(c)),
        release_outcome(t, rider, u, r),
    ensures
        r == Err::<Cab, DispatchError>(DispatchError::NotFound),
        u == t,
{
    let i = rider_cab(s, rider);
    assert forall|j: int| 0 <= j < t.len() implies (#[trigger] t[j]).person_id != Some(rider) by {
        if j != i {
            assert(s[i].person_id != s[j].person_id);
        }
    }
}

} // verus!
