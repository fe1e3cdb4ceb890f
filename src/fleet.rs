use vstd::prelude::*;

use crate::cab::Cab;
use crate::error::DispatchError;
use crate::person::Person;
use crate::point::{dist_sq, in_random_range, Point};

verus! {

/// Whether identities are unique and each rider holds at most one cab.
pub open spec fn fleet_wf(s: Seq<Cab>) -> bool {
    &&& forall|i: int| 0 <= i < s.len() ==> (#[trigger] s[i]).wf()
    &&& forall|i: int, j: int|
        0 <= i < s.len() && 0 <= j < s.len() && i != j ==> (#[trigger] s[i]).id != (#[trigger] s[j]).id
    &&& forall|i: int, j: int|
        0 <= i < s.len() && 0 <= j < s.len() && i != j && (#[trigger] s[i]).person_id.is_some()
            ==> s[i].person_id != (#[trigger] s[j]).person_id
}

/// Whether some cab of `s` is free.
pub open spec fn has_free(s: Seq<Cab>) -> bool {
    exists|i: int| 0 <= i < s.len() && (#[trigger] s[i]).person_id.is_none()
}

/// Whether some cab of `s` carries `rider`.
pub open spec fn holds_rider(s: Seq<Cab>, rider: u128) -> bool {
    exists|i: int| 0 <= i < s.len() && (#[trigger] s[i]).person_id == Some(rider)
}

/// Whether cab `i` is free, no free cab is nearer to `pickup`, and every free
/// cab before it is strictly farther: the first of the nearest free cabs.
pub open spec fn is_nearest_free(s: Seq<Cab>, pickup: Point, i: int) -> bool {
    &&& 0 <= i < s.len()
    &&& s[i].person_id.is_none()
    &&& forall|j: int|
        0 <= j < s.len() && (#[trigger] s[j]).person_id.is_none() ==> dist_sq(pickup, s[i].location)
            <= dist_sq(pickup, s[j].location)
    &&& forall|j: int|
        0 <= j < i && (#[trigger] s[j]).person_id.is_none() ==> dist_sq(pickup, s[i].location)
            < dist_sq(pickup, s[j].location)
}

/// The index of the cab that a request from `pickup` selects.
pub open spec fn nearest_free(s: Seq<Cab>, pickup: Point) -> int {
    choose|i: int| is_nearest_free(s, pickup, i)
}

/// The index of the cab that carries `rider`.
pub open spec fn rider_cab(s: Seq<Cab>, rider: u128) -> int {
    choose|i: int| 0 <= i < s.len() && s[i].person_id == Some(rider)
}

/// A cab at the end of its ride: standing at its destination, free.
pub open spec fn arrived(c: Cab) -> Cab {
    Cab { location: c.destination.unwrap(), destination: None, person_id: None, ..c }
}

/// What a request by `p` does to the cabs `s`, giving `t` and result `r`:
/// with no free cab it fails with `NoCapacity`; when `p` already holds a cab
/// it fails with `InvalidState`; otherwise the first of the nearest free cabs
/// takes `p` to `p.destination`.  A failed request changes nothing.
pub open spec fn request_outcome(s: Seq<Cab>, p: Person, t: Seq<Cab>, r: Result<Cab, DispatchError>) -> bool {
    if !has_free(s) {
        r == Err::<Cab, DispatchError>(DispatchError::NoCapacity) && t == s
    } else if holds_rider(s, p.id) {
        r == Err::<Cab, DispatchError>(DispatchError::InvalidState) && t == s
    } else {
        let i = nearest_free(s, p.location);
        let c = s[i].assigned(p.destination, p.id);
        &&& is_nearest_free(s, p.location, i)
        &&& r == Ok::<Cab, DispatchError>(c)
        &&& t == s.update(i, c)
    }
}

/// What releasing `rider` does to the cabs `s`, giving `t` and result `r`:
/// the cab carrying `rider` arrives at its destination and is freed; with
/// no such cab it fails with `NotFound` and changes nothing.
pub open spec fn release_outcome(s: Seq<Cab>, rider: u128, t: Seq<Cab>, r: Result<Cab, DispatchError>) -> bool {
    if !holds_rider(s, rider) {
        r == Err::<Cab, DispatchError>(DispatchError::NotFound) && t == s
    } else {
        let i = rider_cab(s, rider);
        &&& 0 <= i < s.len()
        &&& r == Ok::<Cab, DispatchError>(arrived(s[i]))
        &&& t == s.update(i, arrived(s[i]))
    }
}

/// Only one index can be the first of the nearest free cabs.
proof fn lemma_nearest_free_unique(s: Seq<Cab>, pickup: Point, i: int, j: int)
    requires
        is_nearest_free(s, pickup, i),
        is_nearest_free(s, pickup, j),
    ensures
        i == j,
{
    if i < j {
        assert(s[i].person_id.is_none());
    } else if j < i {
        assert(s[j].person_id.is_none());
    }
}

/// In a consistent fleet, only one cab carries a given rider.
proof fn lemma_rider_cab_unique(s: Seq<Cab>, rider: u128, i: int)
    requires
        fleet_wf(s),
        0 <= i < s.len(),
        s[i].person_id == Some(rider),
    ensures
        rider_cab(s, rider) == i,
{
    let k = rider_cab(s, rider);
    assert(0 <= k < s.len() && s[k].person_id == Some(rider));
    if k != i {
        assert(s[i].person_id != s[k].person_id);
    }
}

/// The registry of cabs, in registration order, which is also the order in
/// which a request scans them.
pub struct Fleet {
    cabs: Vec<Cab>,
}

impl View for Fleet {
    type V = Seq<Cab>;

    closed spec fn view(&self) -> Seq<Cab> {
        self.cabs@
    }
}

impl Fleet {
    pub open spec fn wf(&self) -> bool {
        fleet_wf(self@)
    }

    /// The index of the first of the free cabs nearest to `pickup`.
    fn nearest_free_index(&self, pickup: &Point) -> (r: Option<usize>)
        ensures
            r is None ==> !has_free(self@),
            r matches Some(i) ==> is_nearest_free(self@, *pickup, i as int),
    {
        let mut best: Option<usize> = None;
        let mut k: usize = 0;
        while k < self.cabs.len()
            invariant
                k <= self.cabs@.len(),
                best is None ==> forall|j: int| 0 <= j < k ==> (#[trigger] self.cabs@[j]).person_id.is_some(),
                best matches Some(b) ==> {
                    &&& b < k
                    &&& self.cabs@[b as int].person_id.is_none()
                    &&& forall|j: int|
                        0 <= j < k && (#[trigger] self.cabs@[j]).person_id.is_none() ==> dist_sq(
                            *pickup,
                            self.cabs@[b as int].location,
                        ) <= dist_sq(*pickup, self.cabs@[j].location)
                    &&& forall|j: int|
                        0 <= j < b && (#[trigger] self.cabs@[j]).person_id.is_none() ==> dist_sq(
                            *pickup,
                            self.cabs@[b as int].location,
                        ) < dist_sq(*pickup, self.cabs@[j].location)
                },
            decreases self.cabs@.len() - k,
        {
            if self.cabs[k].is_free() {
                match best {
                    None => {
                        best = Some(k);
                    },
                    Some(b) => {
                        if pickup.is_strictly_nearer(&self.cabs[k].location, &self.cabs[b].location) {
                            best = Some(k);
                        }
                    },
                }
            }
            k = k + 1;
        }
        best
    }

    /// The index of the cab that carries `rider`, if one does.
    fn rider_index(&self, rider: u128) -> (r: Option<usize>)
        ensures
            r is None ==> !holds_rider(self@, rider),
            r matches Some(i) ==> i < self@.len() && self@[i as int].person_id == Some(rider),
    {
        let mut k: usize = 0;
        while k < self.cabs.len()
            invariant
                k <= self.cabs@.len(),
                forall|j: int| 0 <= j < k ==> (#[trigger] self.cabs@[j]).person_id != Some(rider),
            decreases self.cabs@.len() - k,
        {
            if self.cabs[k].person_id == Some(rider) {
                return Some(k);
            }
            k = k + 1;
        }
        None
    }

    /// Assigns the first of the free cabs nearest to `p.location` to `p`,
    /// bound for `p.destination`, and returns that cab as it now stands.
    pub fn add_person(&mut self, p: &Person) -> (r: Result<Cab, DispatchError>)
        requires
            old(self).wf(),
        ensures
            final(self).wf(),
            request_outcome(old(self)@, *p, final(self)@, r),
            (forall|i: int| 0 <= i < old(self)@.len() ==> (#[trigger] old(self)@[i]).person_id.is_some())
                ==> r == Err::<Cab, DispatchError>(DispatchError::NoCapacity),
            r is Ok ==> exists|i: int|
                0 <= i < old(self)@.len() && (#[trigger] old(self)@[i]).person_id.is_none()
                    && old(self)@[i].id == r->Ok_0.id && final(self)@[i] == r->Ok_0,
    {
        let ghost s = self@;
        match self.nearest_free_index(&p.location) {
            None => Err(DispatchError::NoCapacity),
            Some(i) => {
                if self.rider_index(p.id).is_some() {
                    return Err(DispatchError::InvalidState);
                }
                proof {
                    lemma_nearest_free_unique(s, p.location, i as int, nearest_free(s, p.location));
                }
                let mut cab = self.cabs[i];
                match cab.assign(p.destination, p.id) {
                    Err(e) => {
                        return Err(e);
                    },
                    Ok(()) => {},
                }
                self.cabs[i] = cab;
                assert(s[i as int].person_id.is_none() && s[i as int].id == cab.id && self@[i as int] == cab);
                assert(fleet_wf(self@)) by {
                    assert forall|a: int, b: int|
                        0 <= a < self@.len() && 0 <= b < self@.len() && a != b && (
                        #[trigger] self@[a]).person_id.is_some() implies self@[a].person_id != (
                    #[trigger] self@[b]).person_id by {
                        if a != i as int && b != i as int {
                            assert(s[a] == self@[a] && s[b] == self@[b]);
                        }
                    }
                }
                Ok(cab)
            },
        }
    }

    /// Ends the ride of `rider`: the cab that carries it moves to its
    /// destination and is freed.
    pub fn release(&mut self, rider: u128) -> (r: Result<Cab, DispatchError>)
        requires
            old(self).wf(),
        ensures
            final(self).wf(),
            release_outcome(old(self)@, rider, final(self)@, r),
    {
        let ghost s = self@;
        match self.rider_index(rider) {
            None => Err(DispatchError::NotFound),
            Some(i) => {
                proof {
                    lemma_rider_cab_unique(s, rider, i as int);
                }
                let mut cab = self.cabs[i];
                match cab.destination {
                    Some(d) => cab.update_location(d),
                    None => {},
                }
                cab.release();
                self.cabs[i] = cab;
                assert(fleet_wf(self@)) by {
                    assert forall|a: int, b: int|
                        0 <= a < self@.len() && 0 <= b < self@.len() && a != b && (
                        #[trigger] self@[a]).person_id.is_some() implies self@[a].person_id != (
                    #[trigger] self@[b]).person_id by {
                        assert(s[a] == self@[a]);
                    }
                }
                Ok(cab)
            },
        }
    }

    /// Ends the ride of `person`, as `release` does for its identity.
    pub fn remove_person(&mut self, person: &Person) -> (r: Result<Cab, DispatchError>)
        requires
            old(self).wf(),
        ensures
            final(self).wf(),
            release_outcome(old(self)@, person.id, final(self)@, r),
    {
        self.release(person.id)
    }
}

/// Whether some cab of `s` has identity `id`.
pub open spec fn has_cab(s: Seq<Cab>, id: u128) -> bool {
    exists|i: int| 0 <= i < s.len() && (#[trigger] s[i]).id == id
}

/// The index of the cab with identity `id`.
pub open spec fn cab_index(s: Seq<Cab>, id: u128) -> int {
    choose|i: int| 0 <= i < s.len() && s[i].id == id
}

/// Whether a cab other than the one with identity `id` carries `rider`.
pub open spec fn rider_elsewhere(s: Seq<Cab>, rider: u128, id: u128) -> bool {
    exists|i: int| 0 <= i < s.len() && (#[trigger] s[i]).person_id == Some(rider) && s[i].id != id
}

/// Whether registering `cab` into `s` is refused: the cab is inconsistent,
/// or its rider is carried by another cab.
pub open spec fn register_refused(s: Seq<Cab>, cab: Cab) -> bool {
    !cab.wf() || (cab.person_id matches Some(rider) && rider_elsewhere(s, rider, cab.id))
}

/// What registering `cab` into `s` answers.
pub open spec fn register_result(s: Seq<Cab>, cab: Cab) -> Result<(), DispatchError> {
    if register_refused(s, cab) {
        Err(DispatchError::InvalidState)
    } else {
        Ok(())
    }
}

/// The cabs after registering `cab` into `s`: a cab with the same identity
/// is replaced in its place, a new one goes last.
pub open spec fn register_state(s: Seq<Cab>, cab: Cab) -> Seq<Cab> {
    if register_refused(s, cab) {
        s
    } else if has_cab(s, cab.id) {
        s.update(cab_index(s, cab.id), cab)
    } else {
        s.push(cab)
    }
}

/// The cabs after registering each of `cabs` into `s`, in order.
pub open spec fn register_all(s: Seq<Cab>, cabs: Seq<Cab>) -> Seq<Cab>
    decreases cabs.len(),
{
    if cabs.len() == 0 {
        s
    } else {
        register_state(register_all(s, cabs.drop_last()), cabs.last())
    }
}

/// In a consistent fleet, only one cab has a given identity.
proof fn lemma_cab_index_unique(s: Seq<Cab>, id: u128, i: int)
    requires
        fleet_wf(s),
        0 <= i < s.len(),
        s[i].id == id,
    ensures
        cab_index(s, id) == i,
{
    let k = cab_index(s, id);
    assert(0 <= k < s.len() && s[k].id == id);
}

/// The cabs that `Fleet::from_points` builds: cab `i` is free at `points[i]`.
pub open spec fn cabs_at(points: Seq<Point>) -> Seq<Cab> {
    Seq::new(
        points.len(),
        |i: int| Cab { id: i as u128, location: points[i], destination: None, person_id: None },
    )
}

impl Fleet {
    /// A fleet without cabs.
    pub fn empty() -> (r: Fleet)
        ensures
            r.wf(),
            r@ == Seq::<Cab>::empty(),
    {
        Fleet { cabs: Vec::new() }
    }

    /// A fleet of free cabs, one at each of `points`, numbered from 0 in order.
    pub fn from_points(points: Vec<Point>) -> (r: Fleet)
        ensures
            r.wf(),
            r@ == cabs_at(points@),
    {
        let mut cabs: Vec<Cab> = Vec::with_capacity(points.len());
        let mut k: usize = 0;
        while k < points.len()
            invariant
                k <= points@.len(),
                cabs@ == cabs_at(points@.take(k as int)),
            decreases points@.len() - k,
        {
            cabs.push(Cab::new(k as u128, points[k]));
            k = k + 1;
            assert(cabs@ =~= cabs_at(points@.take(k as int)));
        }
        assert(points@.take(k as int) =~= points@);
        Fleet { cabs }
    }

    /// A fleet of `n` free cabs placed at random, numbered from 0.
    pub fn new(n: usize) -> (r: Fleet)
        ensures
            r.wf(),
            r@.len() == n,
            forall|i: int|
                0 <= i < n ==> (#[trigger] r@[i]).id == i && r@[i].person_id.is_none()
                    && r@[i].destination.is_none() && in_random_range(r@[i].location),
    {
        Fleet::from_points(Point::create_random_points(n))
    }

    /// The number of cabs.
    pub fn len(&self) -> (r: usize)
        ensures
            r == self@.len(),
    {
        self.cabs.len()
    }

    /// The cabs, in registration order.
    pub fn list_cabs(&self) -> (r: Vec<Cab>)
        ensures
            r@ == self@,
    {
        let mut out: Vec<Cab> = Vec::with_capacity(self.cabs.len());
        let mut k: usize = 0;
        while k < self.cabs.len()
            invariant
                k <= self.cabs@.len(),
                out@ == self.cabs@.take(k as int),
            decreases self.cabs@.len() - k,
        {
            out.push(self.cabs[k]);
            k = k + 1;
            assert(out@ =~= self.cabs@.take(k as int));
        }
        assert(self.cabs@.take(k as int) =~= self.cabs@);
        out
    }

    /// The index of the cab with identity `id`, if there is one.
    fn id_index(&self, id: u128) -> (r: Option<usize>)
        ensures
            r is None ==> !has_cab(self@, id),
            r matches Some(i) ==> i < self@.len() && self@[i as int].id == id,
    {
        let mut k: usize = 0;
        while k < self.cabs.len()
            invariant
                k <= self.cabs@.len(),
                forall|j: int| 0 <= j < k ==> (#[trigger] self.cabs@[j]).id != id,
            decreases self.cabs@.len() - k,
        {
            if self.cabs[k].id == id {
                return Some(k);
            }
            k = k + 1;
        }
        None
    }

    /// The cab with identity `id`, if there is one.
    pub fn get_cab(&self, id: u128) -> (r: Option<Cab>)
        requires
            self.wf(),
        ensures
            r == (if has_cab(self@, id) {
                Some(self@[cab_index(self@, id)])
            } else {
                None::<Cab>
            }),
    {
        match self.id_index(id) {
            None => None,
            Some(i) => {
                proof {
                    lemma_cab_index_unique(self@, id, i as int);
                }
                Some(self.cabs[i])
            },
        }
    }

    /// Whether a cab other than the one with identity `id` carries `rider`.
    fn carried_elsewhere(&self, rider: u128, id: u128) -> (r: bool)
        ensures
            r == rider_elsewhere(self@, rider, id),
    {
        let mut k: usize = 0;
        while k < self.cabs.len()
            invariant
                k <= self.cabs@.len(),
                forall|j: int|
                    0 <= j < k ==> !((#[trigger] self.cabs@[j]).person_id == Some(rider)
                        && self.cabs@[j].id != id),
            decreases self.cabs@.len() - k,
        {
            if self.cabs[k].person_id == Some(rider) && self.cabs[k].id != id {
                return true;
            }
            k = k + 1;
        }
        false
    }

    /// Adds `cab`, or replaces the cab with the same identity.  Refused with
    /// `InvalidState` when the cab's destination and rider are not set
    /// together, or its rider is carried by another cab.
    pub fn register(&mut self, cab: Cab) -> (r: Result<(), DispatchError>)
        requires
            old(self).wf(),
        ensures
            final(self).wf(),
            r == register_result(old(self)@, cab),
            final(self)@ == register_state(old(self)@, cab),
    {
        let ghost s = self@;
        if cab.destination.is_some() != cab.person_id.is_some() {
            return Err(DispatchError::InvalidState);
        }
        match cab.person_id {
            Some(rider) => {
                if self.carried_elsewhere(rider, cab.id) {
                    return Err(DispatchError::InvalidState);
                }
            },
            None => {},
        }
        match self.id_index(cab.id) {
            Some(i) => {
                proof {
                    lemma_cab_index_unique(s, cab.id, i as int);
                }
                self.cabs[i] = cab;
                assert(fleet_wf(self@)) by {
                    assert forall|a: int, b: int|
                        0 <= a < self@.len() && 0 <= b < self@.len() && a != b && (
                        #[trigger] self@[a]).person_id.is_some() implies self@[a].person_id != (
                    #[trigger] self@[b]).person_id by {
                        if a == i as int {
                            assert(s[b] == self@[b]);
                        } else if b == i as int {
                            assert(s[a] == self@[a]);
                        } else {
                            assert(s[a] == self@[a] && s[b] == self@[b]);
                        }
                    }
                    assert forall|a: int, b: int|
                        0 <= a < self@.len() && 0 <= b < self@.len() && a != b implies (
                    #[trigger] self@[a]).id != (#[trigger] self@[b]).id by {
                        if a != i as int && b != i as int {
                            assert(s[a] == self@[a] && s[b] == self@[b]);
                        }
                    }
                }
            },
            None => {
                self.cabs.push(cab);
                assert(fleet_wf(self@)) by {
                    assert forall|a: int, b: int|
                        0 <= a < self@.len() && 0 <= b < self@.len() && a != b && (
                        #[trigger] self@[a]).person_id.is_some() implies self@[a].person_id != (
                    #[trigger] self@[b]).person_id by {
                        if a == s.len() {
                            assert(s[b] == self@[b]);
                        } else if b == s.len() {
                            assert(s[a] == self@[a]);
                        } else {
                            assert(s[a] == self@[a] && s[b] == self@[b]);
                        }
                    }
                    assert forall|a: int, b: int|
                        0 <= a < self@.len() && 0 <= b < self@.len() && a != b implies (
                    #[trigger] self@[a]).id != (#[trigger] self@[b]).id by {
                        if a != s.len() && b != s.len() {
                            assert(s[a] == self@[a] && s[b] == self@[b]);
                        } else if a == s.len() {
                            assert(s[b] == self@[b]);
                        } else {
                            assert(s[a] == self@[a]);
                        }
                    }
                }
            },
        }
        Ok(())
    }

    /// Registers each of `cabs` in order, and answers for each one.
    pub fn register_fleet(&mut self, cabs: Vec<Cab>) -> (r: Vec<Result<(), DispatchError>>)
        requires
            old(self).wf(),
        ensures
            final(self).wf(),
            final(self)@ == register_all(old(self)@, cabs@),
            r@.len() == cabs@.len(),
            forall|k: int|
                0 <= k < cabs@.len() ==> #[trigger] r@[k] == register_result(
                    register_all(old(self)@, cabs@.take(k)),
                    cabs@[k],
                ),
    {
        let ghost s = self@;
        let mut out: Vec<Result<(), DispatchError>> = Vec::with_capacity(cabs.len());
        let mut k: usize = 0;
        while k < cabs.len()
            invariant
                k <= cabs@.len(),
                self.wf(),
                self@ == register_all(s, cabs@.take(k as int)),
                out@.len() == k,
                forall|j: int|
                    0 <= j < k ==> #[trigger] out@[j] == register_result(
                        register_all(s, cabs@.take(j)),
                        cabs@[j],
                    ),
            decreases cabs@.len() - k,
        {
            let res = self.register(cabs[k]);
            out.push(res);
            assert(cabs@.take(k + 1).drop_last() =~= cabs@.take(k as int));
            k = k + 1;
        }
        assert(cabs@.take(k as int) =~= cabs@);
        out
    }

    /// Removes the cab with identity `id`, whatever its state.
    pub fn deregister(&mut self, id: u128) -> (r: Result<(), DispatchError>)
        requires
            old(self).wf(),
        ensures
            final(self).wf(),
            !has_cab(old(self)@, id) ==> r == Err::<(), DispatchError>(DispatchError::NotFound)
                && final(self)@ == old(self)@,
            has_cab(old(self)@, id) ==> r is Ok && final(self)@ == old(self)@.remove(
                cab_index(old(self)@, id),
            ),
    {
        let ghost s = self@;
        match self.id_index(id) {
            None => Err(DispatchError::NotFound),
            Some(i) => {
                proof {
                    lemma_cab_index_unique(s, id, i as int);
                }
                self.cabs.remove(i);
                assert(fleet_wf(self@)) by {
                    assert forall|a: int| 0 <= a < self@.len() implies self@[a] == s[if a < i {
                        a
                    } else {
                        a + 1
                    }] by {}
                    assert forall|a: int, b: int|
                        0 <= a < self@.len() && 0 <= b < self@.len() && a != b && (
                        #[trigger] self@[a]).person_id.is_some() implies self@[a].person_id != (
                    #[trigger] self@[b]).person_id by {
                        let a2 = if a < i { a } else { a + 1 };
                        let b2 = if b < i { b } else { b + 1 };
                        assert(s[a2].person_id != s[b2].person_id);
                    }
                    assert forall|a: int, b: int|
                        0 <= a < self@.len() && 0 <= b < self@.len() && a != b implies (
                    #[trigger] self@[a]).id != (#[trigger] self@[b]).id by {
                        let a2 = if a < i { a } else { a + 1 };
                        let b2 = if b < i { b } else { b + 1 };
                        assert(s[a2].id != s[b2].id);
                    }
                }
                Ok(())
            },
        }
    }
}

} // verus!
