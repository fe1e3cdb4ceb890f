use fuber::{hello, list_units, release_ride, request_ride, Cab, DispatchError, Fleet, Person, Point};

fn hex_id(id: u128) -> String {
    format!("{:024x}", id)
}

fn random_person(id: u128) -> Person {
    Person::new(
        id,
        format!("rider{}", id),
        Point::create_random_point(),
        Point::create_random_point(),
    )
}

#[test]
fn api_test_test_get_nearest_cab() {
    let mut fleet = Fleet::new(3);
    let before = list_units(&fleet);
    let person = random_person(0x65f0_0000_0000_0000_0000_0001);
    let person_id = hex_id(person.id);

    let api_cab = request_ride(&mut fleet, &person_id, &Some(person.clone()))
        .expect("cannot find the nearest cab to the person requesting the cab");

    let mut manual_cab = before
        .into_iter()
        .reduce(|c1, c2| person.nearest_cab(&c1, &c2))
        .expect("cannot find the nearest cab to the person, manually");
    manual_cab.destination = Some(person.destination);
    manual_cab.person_id = Some(person.id);

    assert_eq!(api_cab, manual_cab)
}

#[test]
#[should_panic]
fn test_assign_cab_panic() {
    let mut fleet = Fleet::new(3);
    let person1 = random_person(1);
    let mut api_cab = request_ride(&mut fleet, &hex_id(1), &Some(person1.clone()))
        .expect("cannot find the nearest cab to the person requesting the cab");

    let person2 = random_person(2);
    // try to assign the cab with another person
    let status = api_cab.assign(person2.destination, person2.id);

    assert!(status.is_ok())
}

#[test]
#[should_panic]
fn test_request_cab_panic_when_fleet_occupied() {
    let mut fleet = Fleet::new(3);
    let person1 = random_person(1);
    let person2 = random_person(2);
    let person3 = random_person(3);
    request_ride(&mut fleet, &hex_id(1), &Some(person1)).expect("person1 cab request failed");
    request_ride(&mut fleet, &hex_id(2), &Some(person2)).expect("person2 cab request failed");
    request_ride(&mut fleet, &hex_id(3), &Some(person3)).expect("person3 cab request failed");

    let person4 = random_person(4);
    let res = request_ride(&mut fleet, &hex_id(4), &Some(person4));

    assert!(res.is_ok())
}

#[test]
fn test_test_get_nearest_cab() {
    let mut fleet = Fleet::new(3);
    let person1 = Person::new(
        0,
        "shubham".to_string(),
        Point::new(0, 0),
        Point::new(100, 100),
    );
    let cab1 = match person1.request_cab(&mut fleet) {
        Ok(cab) => cab,
        Err(s) => panic!("{:?}", s),
    };

    let element = fleet.list_cabs().into_iter().reduce(|c1, c2| {
        let d = person1
            .get_location()
            .nearest_point(&c1.get_location(), &c2.get_location());
        if d == c1.get_location() {
            c1
        } else {
            c2
        }
    });

    match element {
        None => panic!("no element found"),
        Some(cab2) => assert_eq!(cab1, cab2),
    }
}

#[test]
fn test_remove_person_after_reaching_destination() {
    let mut fleet = Fleet::new(3);
    let person1 = Person::new(
        0,
        "shubham".to_string(),
        Point::new(0, 0),
        Point::new(100, 100),
    );

    let _cab = match person1.request_cab(&mut fleet) {
        Ok(cab) => cab,
        Err(s) => panic!("{:?}", s),
    };

    match person1.end_cab_ride(&mut fleet) {
        Ok(updated_cab) => {
            assert_eq!(updated_cab.get_location(), person1.get_destination());
        }
        Err(s) => panic!("{:?}", s),
    }
}

#[test]
#[should_panic]
fn test_failure_when_all_cabs_occupied() {
    let mut fleet = Fleet::new(3);

    let loc_points: Vec<Point> = Point::create_random_points(3);
    let dest_points: Vec<Point> = Point::create_random_points(3);
    let person_vec: Vec<Person> = loc_points
        .into_iter()
        .zip(dest_points)
        .enumerate()
        .map(|(i, (l, d))| Person::new(i as u128, format!("rider{}", i), l, d))
        .collect();

    let _ = person_vec
        .iter()
        .filter_map(|p| p.request_cab(&mut fleet).ok())
        .collect::<Vec<Cab>>();

    let new_person = Person::new(
        rand::random::<u8>() as u128,
        "late".to_string(),
        Point::new(0, 0),
        Point::new(100, 100),
    );

    assert!(new_person.request_cab(&mut fleet).is_ok())
}

#[test]
fn three_cabs_pick_the_strictly_nearest() {
    let mut fleet = Fleet::from_points(vec![Point::new(0, 0), Point::new(10, 10), Point::new(5, 5)]);
    let rider = Person::new(42, "r".to_string(), Point::new(4, 4), Point::new(20, -3));
    let cab = fleet.add_person(&rider).unwrap();
    assert_eq!(cab.id, 2);
    assert_eq!(cab.location, Point::new(5, 5));
    assert_eq!(cab.destination, Some(Point::new(20, -3)));
    assert_eq!(cab.person_id, Some(42));
    let cabs = fleet.list_cabs();
    assert_eq!(cabs[2], cab);
    assert!(cabs[0].is_free() && cabs[1].is_free());
}

#[test]
fn equidistant_cabs_pick_the_first_registered() {
    for _ in 0..5 {
        let mut fleet = Fleet::from_points(vec![Point::new(1, 0), Point::new(-1, 0)]);
        let rider = Person::new(7, "r".to_string(), Point::new(0, 0), Point::new(3, 3));
        assert_eq!(fleet.add_person(&rider).unwrap().id, 0);
    }
    let mut fleet = Fleet::from_points(vec![Point::new(-1, 0), Point::new(1, 0)]);
    let rider = Person::new(7, "r".to_string(), Point::new(0, 0), Point::new(3, 3));
    let cab = fleet.add_person(&rider).unwrap();
    assert_eq!((cab.id, cab.location), (0, Point::new(-1, 0)));
}

#[test]
fn successive_requests_get_distinct_cabs_then_no_capacity() {
    let mut fleet = Fleet::from_points(vec![Point::new(0, 0), Point::new(0, 0), Point::new(0, 0)]);
    let mut ids = Vec::new();
    for k in 0..3u128 {
        let rider = Person::new(100 + k, "r".to_string(), Point::new(0, 0), Point::new(1, 1));
        ids.push(fleet.add_person(&rider).unwrap().id);
    }
    assert_eq!(ids, vec![0, 1, 2]);
    let before = fleet.list_cabs();
    let rider = Person::new(200, "r".to_string(), Point::new(0, 0), Point::new(1, 1));
    assert_eq!(fleet.add_person(&rider), Err(DispatchError::NoCapacity));
    assert_eq!(fleet.list_cabs(), before);
}

#[test]
fn empty_fleet_has_no_capacity() {
    let mut fleet = Fleet::empty();
    let rider = Person::new(1, "r".to_string(), Point::new(0, 0), Point::new(1, 1));
    assert_eq!(fleet.add_person(&rider), Err(DispatchError::NoCapacity));
    assert_eq!(fleet.len(), 0);
}

#[test]
fn rider_with_a_cab_cannot_take_another() {
    let mut fleet = Fleet::from_points(vec![Point::new(0, 0), Point::new(9, 9)]);
    let rider = Person::new(5, "r".to_string(), Point::new(0, 0), Point::new(1, 1));
    assert_eq!(fleet.add_person(&rider).unwrap().id, 0);
    let before = fleet.list_cabs();
    assert_eq!(fleet.add_person(&rider), Err(DispatchError::InvalidState));
    assert_eq!(fleet.list_cabs(), before);
}

#[test]
fn request_then_release_returns_the_same_cab_at_the_destination() {
    let mut fleet = Fleet::from_points(vec![Point::new(3, 3), Point::new(-8, 2)]);
    let rider = Person::new(0xabc, "r".to_string(), Point::new(-7, 2), Point::new(50, 60));
    let taken = fleet.add_person(&rider).unwrap();
    assert_eq!(taken.id, 1);
    let back = release_ride(&mut fleet, &hex_id(taken.person_id.unwrap())).unwrap();
    assert_eq!(back.id, taken.id);
    assert_eq!(back.location, Point::new(50, 60));
    assert_eq!(back.destination, None);
    assert_eq!(back.person_id, None);
    assert_eq!(
        fleet.list_cabs(),
        vec![Cab::new(0, Point::new(3, 3)), Cab::new(1, Point::new(50, 60))]
    );
}

#[test]
fn identical_fleets_select_the_same_cab() {
    let points = vec![Point::new(4, -4), Point::new(-4, 4), Point::new(2, 2), Point::new(-2, -2)];
    let mut a = Fleet::from_points(points.clone());
    let mut b = Fleet::from_points(points);
    let r1 = Person::new(1, "one".to_string(), Point::new(0, 0), Point::new(5, 5));
    let r2 = Person::new(2, "two".to_string(), Point::new(0, 0), Point::new(-5, 5));
    let c1 = a.add_person(&r1).unwrap();
    let c2 = b.add_person(&r2).unwrap();
    assert_eq!(c1.id, c2.id);
    assert_eq!(c1.id, 2);
}

#[test]
fn releasing_twice_fails_and_changes_nothing() {
    let mut fleet = Fleet::from_points(vec![Point::new(0, 0)]);
    let rider = Person::new(9, "r".to_string(), Point::new(1, 1), Point::new(2, 2));
    fleet.add_person(&rider).unwrap();
    assert!(fleet.release(9).is_ok());
    let after_first = fleet.list_cabs();
    assert_eq!(fleet.release(9), Err(DispatchError::NotFound));
    assert_eq!(fleet.list_cabs(), after_first);
    assert_eq!(fleet.remove_person(&rider), Err(DispatchError::NotFound));
}

#[test]
fn request_ride_checks_the_identity() {
    let mut fleet = Fleet::from_points(vec![Point::new(0, 0)]);
    let rider = Person::new(0x10, "r".to_string(), Point::new(0, 0), Point::new(1, 1));
    assert_eq!(
        request_ride(&mut fleet, "", &Some(rider.clone())),
        Err(DispatchError::InvalidId)
    );
    assert_eq!(
        request_ride(&mut fleet, "00000000000000000000001g", &Some(rider.clone())),
        Err(DispatchError::InvalidId)
    );
    assert_eq!(
        request_ride(&mut fleet, &hex_id(0x10), &None),
        Err(DispatchError::NotFound)
    );
    assert_eq!(
        request_ride(&mut fleet, &hex_id(0x11), &Some(rider.clone())),
        Err(DispatchError::NotFound)
    );
    assert!(fleet.list_cabs()[0].is_free());
    let cab = request_ride(&mut fleet, &hex_id(0x10), &Some(rider)).unwrap();
    assert_eq!(cab.person_id, Some(0x10));
}

#[test]
fn release_ride_errors() {
    let mut fleet = Fleet::from_points(vec![Point::new(0, 0)]);
    assert_eq!(release_ride(&mut fleet, "xyz"), Err(DispatchError::InvalidId));
    assert_eq!(release_ride(&mut fleet, &hex_id(3)), Err(DispatchError::NotFound));
}

#[test]
fn greeting() {
    assert_eq!(hello(), "Hello from Fuber");
}
