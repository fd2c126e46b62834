use carpool::transit::{Depot, Left, Pass, Ride};

fn depot() -> Depot<u32> {
    Depot::default()
}

#[test]
fn boarding_accumulates_seats() {
    let mut d = depot();
    let ride = Ride::new(&mut d);
    let _p1 = ride.board(&mut d, 1);
    let _p2 = ride.board(&mut d, 2);
    let _p3 = ride.board(&mut d, 3);
    assert_eq!(ride.len(&d), 3);
}

#[test]
fn dropping_a_pass_removes_its_seat() {
    let mut d = depot();
    let ride = Ride::new(&mut d);
    let p1 = ride.board(&mut d, 1);
    let p2 = ride.board(&mut d, 2);
    let p3 = ride.board(&mut d, 3);
    p2.leave(&mut d); // leave from the middle, not an end
    assert_eq!(ride.len(&d), 2);
    p1.leave(&mut d);
    p3.leave(&mut d);
    assert_eq!(ride.len(&d), 0);
}

#[test]
fn take_edges_move_none_or_all() {
    let mut d = depot();
    let ride = Ride::new(&mut d);
    let _passes: Vec<Pass> = (0..3).map(|i| ride.board(&mut d, i)).collect();

    let none = ride.take(&mut d, 0);
    assert_eq!((none.len(&d), ride.len(&d)), (0, 3));

    let all = ride.take(&mut d, 5); // n > len moves everything
    assert_eq!((all.len(&d), ride.len(&d)), (3, 0));
}

#[test]
fn a_moved_pass_leaves_from_its_new_ride() {
    let mut d = depot();
    let ride = Ride::new(&mut d);
    let p0 = ride.board(&mut d, 0);
    let p1 = ride.board(&mut d, 1);
    let _p2 = ride.board(&mut d, 2);
    let taken = ride.take(&mut d, 2); // p0, p1 relocate to taken; p2 stays
    assert_eq!((taken.len(&d), ride.len(&d)), (2, 1));
    p0.leave(&mut d);
    assert_eq!((taken.len(&d), ride.len(&d)), (1, 1));
    p1.leave(&mut d);
    assert_eq!((taken.len(&d), ride.len(&d)), (0, 1));
}

#[test]
fn after_depart_dropping_a_pass_is_a_noop() {
    let mut d = depot();
    let ride = Ride::new(&mut d);
    let p = ride.board(&mut d, 1);
    let _p2 = ride.board(&mut d, 2);
    ride.depart(&mut d);
    // no-op after departure: the seat stays for delivery
    assert!(matches!(p.leave(&mut d), Left::Departed));
    assert_eq!(ride.len(&d), 2);
}

#[test]
fn abandoned_latches_when_the_last_seat_leaves() {
    let mut d = depot();
    let ride = Ride::new(&mut d);
    let p1 = ride.board(&mut d, 1);
    let p2 = ride.board(&mut d, 2);
    assert!(!ride.abandoned(&d));
    p1.leave(&mut d);
    assert!(!ride.abandoned(&d));
    p2.leave(&mut d); // last to leave sets the latch synchronously
    assert!(ride.abandoned(&d));
}

#[test]
fn boarded_resolves_once_a_seat_is_present() {
    let mut d = depot();
    let ride = Ride::new(&mut d);
    assert!(!ride.boarded(&d));
    let _p = ride.board(&mut d, 1);
    assert!(ride.boarded(&d));
}

#[test]
fn leaving_hands_back_the_cargo_of_the_own_seat() {
    let mut d = depot();
    let ride = Ride::new(&mut d);
    let p1 = ride.board(&mut d, 10);
    let p2 = ride.board(&mut d, 20);
    match p2.leave(&mut d) {
        Left::Seat { ride: from, cargo, emptied } => {
            assert_eq!(from, ride);
            assert_eq!(cargo, 20);
            assert!(!emptied);
        }
        _ => panic!("the seat is there"),
    }
    match p1.leave(&mut d) {
        Left::Seat { cargo, emptied, .. } => {
            assert_eq!(cargo, 10);
            assert!(emptied);
        }
        _ => panic!("the seat is there"),
    }
}

#[test]
fn the_abandon_latch_is_set_once_and_stays() {
    let mut d = depot();
    let ride = Ride::new(&mut d);
    let p = ride.board(&mut d, 1);
    p.leave(&mut d);
    let again = ride.board(&mut d, 2);
    assert!(ride.abandoned(&d));
    match again.leave(&mut d) {
        // the latch was set before, so this leave does not set it
        Left::Seat { emptied, .. } => assert!(!emptied),
        _ => panic!("the seat is there"),
    }
    assert!(ride.abandoned(&d));
}

#[test]
fn taking_every_seat_abandons_nothing() {
    let mut d = depot();
    let ride = Ride::new(&mut d);
    let _p = ride.board(&mut d, 1);
    let taken = ride.take(&mut d, 1);
    assert!(ride.is_empty(&d));
    assert!(!ride.abandoned(&d));
    assert!(!taken.abandoned(&d));
}

#[test]
fn a_boarding_on_a_taken_ride_reuses_no_number() {
    let mut d = depot();
    let ride = Ride::new(&mut d);
    let p0 = ride.board(&mut d, 0);
    let p1 = ride.board(&mut d, 1);
    let taken = ride.take(&mut d, 1);
    let p2 = taken.board(&mut d, 2);
    p0.leave(&mut d);
    assert_eq!((taken.len(&d), ride.len(&d)), (1, 1));
    match p2.leave(&mut d) {
        Left::Seat { ride: from, cargo, .. } => assert_eq!((from, cargo), (taken, 2)),
        _ => panic!("the seat is there"),
    }
    match p1.leave(&mut d) {
        Left::Seat { ride: from, cargo, .. } => assert_eq!((from, cargo), (ride, 1)),
        _ => panic!("the seat is there"),
    }
}

#[test]
fn a_pass_of_a_retired_ride_has_nothing_to_leave() {
    let mut d = depot();
    let ride = Ride::new(&mut d);
    let p = ride.board(&mut d, 7);
    let q = ride.board(&mut d, 8);
    assert_eq!(ride.retire(&mut d), vec![7, 8]);
    assert!(matches!(p.leave(&mut d), Left::NotAboard));
    assert!(matches!(q.leave(&mut d), Left::NotAboard));
}

#[test]
fn a_train_taken_from_a_departed_ride_can_be_left() {
    let mut d = depot();
    let ride = Ride::new(&mut d);
    let p = ride.board(&mut d, 1);
    ride.depart(&mut d);
    let taken = ride.take(&mut d, 1);
    assert!(matches!(p.leave(&mut d), Left::Seat { cargo: 1, emptied: true, .. }));
    assert!(taken.abandoned(&d));
}
