use carpool::deduplicator::{
    first_signal, fly, fly_counted, land, next_turn, read_turn, Checkout, Fold, Found,
    told, Joined, Leg, Outcome, Shared, Signal, Ticket, Turn,
};
use carpool::flight::{Flight, Waiter};
use carpool::{DedupError, Deduplicator, Fetcher};
use std::future::Future;
use std::pin::Pin;
use std::sync::atomic::{AtomicUsize, Ordering};
use std::sync::{Arc, Mutex};
use tokio::runtime::{Builder, Runtime};

#[derive(Debug, Clone, PartialEq)]
struct Boom;

// Squares its input, after `failures` failed fetches.
#[derive(Clone)]
struct Squares {
    fetches: Arc<AtomicUsize>,
    failures: usize,
    completed: Arc<AtomicUsize>,
}

impl Squares {
    fn new(failures: usize) -> Self {
        Self {
            fetches: Arc::new(AtomicUsize::new(0)),
            failures,
            completed: Arc::new(AtomicUsize::new(0)),
        }
    }

    fn fetches(&self) -> usize {
        self.fetches.load(Ordering::SeqCst)
    }
}

impl Fetcher for Squares {
    type Input = u64;
    type Output = u64;
    type Error = Boom;
    type Loading = Pin<Box<dyn Future<Output = Result<u64, Boom>> + Send>>;

    fn load(&self, input: u64) -> Self::Loading {
        let nth = self.fetches.fetch_add(1, Ordering::SeqCst);
        let fails = nth < self.failures;
        let completed = self.completed.clone();
        Box::pin(async move {
            completed.fetch_add(1, Ordering::SeqCst);
            if fails {
                Err(Boom)
            } else {
                Ok(input * input)
            }
        })
    }
}

struct Opened {
    checkout: Checkout<Squares>,
    flight: Flight<Shared<Squares>>,
    fetch: Pin<Box<dyn Future<Output = Result<u64, Boom>> + Send>>,
}

fn runtime() -> Runtime {
    Builder::new_current_thread().build().unwrap()
}

fn call(d: &mut Deduplicator<Squares>, input: u64) -> (Waiter<Shared<Squares>>, Option<Opened>) {
    match d.join_or_open(Ticket::new(input)) {
        Joined::Follower { waiter, .. } => (waiter, None),
        Joined::Leader { waiter, mut checkout, flight } => {
            assert!(!checkout.started());
            let fetch = checkout.start();
            assert!(checkout.started());
            (waiter, Some(Opened { checkout, flight, fetch }))
        }
    }
}

// Flies a flight to its landing.
fn settle(d: &mut Deduplicator<Squares>, opened: Opened) {
    let Opened { mut checkout, mut flight, fetch } = opened;
    let result = runtime().block_on(fetch);
    let signal = first_signal::<Squares>(Some(result), true).expect("the fetch ended");
    match fly(&mut checkout, d, &mut flight, signal) {
        Leg::Land { outcome, checked_out } => {
            assert!(checked_out.is_some());
            land::<Squares>(flight, outcome);
        }
        _ => panic!("a tie goes to the fetch"),
    }
}

// What a call returns once its flight is over.
fn answer(waiter: &mut Waiter<Shared<Squares>>) -> Outcome<Squares> {
    let mut changes = waiter.listener().clone();
    loop {
        let turn: Turn<Squares> = read_turn(waiter);
        let found = match turn {
            Turn::Return(outcome) => return outcome,
            Turn::Await => match runtime().block_on(changes.changed()) {
                Ok(()) => Found::Changed,
                Err(_) => Found::Gone,
            },
            Turn::Read => continue,
        };
        if let Turn::Return(outcome) = next_turn::<Squares>(found) {
            return outcome;
        }
    }
}

#[test]
fn a_call_delivers_the_fetched_value() {
    let mut d = Deduplicator::new(Squares::new(0));
    let (mut waiter, opened) = call(&mut d, 7);
    settle(&mut d, opened.unwrap());
    assert_eq!(answer(&mut waiter).unwrap(), 49);
}

#[test]
fn a_failed_fetch_reaches_the_caller_with_its_cause() {
    let mut d = Deduplicator::new(Squares::new(usize::MAX));
    let (mut waiter, opened) = call(&mut d, 1);
    settle(&mut d, opened.unwrap());

    let err = answer(&mut waiter).unwrap_err();

    assert!(matches!(err, DedupError::Load(Boom)));
    assert_eq!(err.source(), Some(&Boom));
}

#[test]
fn a_failed_fetch_is_shared_by_the_collapsed_calls() {
    let fetcher = Squares::new(usize::MAX);
    let mut d = Deduplicator::new(fetcher.clone());
    let (mut w1, opened) = call(&mut d, 7);
    let (mut w2, none) = call(&mut d, 7);
    let (mut w3, none_either) = call(&mut d, 7);
    assert!(none.is_none() && none_either.is_none());
    settle(&mut d, opened.unwrap());

    assert_eq!(fetcher.fetches(), 1);
    for waiter in [&mut w1, &mut w2, &mut w3] {
        assert!(matches!(answer(waiter), Err(DedupError::Load(Boom))));
    }
}

#[test]
fn the_input_is_free_after_a_failed_fetch() {
    let fetcher = Squares::new(1);
    let mut d = Deduplicator::new(fetcher.clone());

    let (mut first, opened) = call(&mut d, 3);
    settle(&mut d, opened.unwrap());
    assert!(matches!(answer(&mut first), Err(DedupError::Load(Boom))));
    let (mut second, opened) = call(&mut d, 3);
    settle(&mut d, opened.unwrap());
    assert_eq!(answer(&mut second).unwrap(), 9);
    assert_eq!(fetcher.fetches(), 2);
    assert_eq!(d.in_the_air(), 0);
}

// A flight whose task dies checks its entry out and drops its channel.
#[test]
fn a_lost_flight_reaches_the_waiter_and_frees_the_input() {
    let fetcher = Squares::new(0);
    let mut d = Deduplicator::new(fetcher.clone());
    for _ in 0..2 {
        let (mut waiter, opened) = call(&mut d, 7);
        let Opened { mut checkout, flight, fetch } = opened.expect("the input must be free again");
        drop(fetch);
        drop(checkout.check_out_in(&mut d));
        drop(flight);
        assert!(matches!(answer(&mut waiter), Err(DedupError::Lost)));
    }
    assert_eq!(fetcher.fetches(), 2);
    assert_eq!(d.in_the_air(), 0);
}

#[test]
fn concurrent_calls_of_one_input_collapse_to_one_flight() {
    let fetcher = Squares::new(0);
    let mut d = Deduplicator::new(fetcher.clone());

    let (first, opened) = call(&mut d, 7);
    let mut waiters = vec![first];
    for _ in 0..4 {
        let (waiter, none) = call(&mut d, 7);
        assert!(none.is_none());
        waiters.push(waiter);
    }
    assert_eq!(d.in_the_air(), 1);
    settle(&mut d, opened.unwrap());

    assert_eq!(fetcher.fetches(), 1);
    let outcomes: Vec<u64> = waiters.iter_mut().map(|w| answer(w).unwrap()).collect();
    assert_eq!(outcomes, [49; 5]);
}

#[test]
fn distinct_inputs_each_open_their_own_flight() {
    let fetcher = Squares::new(0);
    let mut d = Deduplicator::new(fetcher.clone());

    let mut calls: Vec<_> = [2, 3, 4].into_iter().map(|i| call(&mut d, i)).collect();
    assert_eq!(d.in_the_air(), 3);
    for (_, opened) in calls.iter_mut() {
        settle(&mut d, opened.take().unwrap());
    }

    let outcomes: Vec<u64> = calls.iter_mut().map(|(w, _)| answer(w).unwrap()).collect();
    assert_eq!(outcomes, vec![4, 9, 16]);
    assert_eq!(fetcher.fetches(), 3);
}

#[test]
fn a_call_after_the_flight_opens_a_new_one() {
    let fetcher = Squares::new(0);
    let mut d = Deduplicator::new(fetcher.clone());

    for _ in 0..2 {
        let (mut waiter, opened) = call(&mut d, 5);
        settle(&mut d, opened.unwrap());
        assert_eq!(answer(&mut waiter).unwrap(), 25);
    }
    assert_eq!(fetcher.fetches(), 2);
    assert_eq!(d.in_the_air(), 0);
}

#[test]
fn a_leaving_waiter_does_not_fold_the_flight_for_the_rest() {
    let fetcher = Squares::new(0);
    let mut d = Deduplicator::new(fetcher.clone());

    let (mut stays, opened) = call(&mut d, 7);
    let (leaves, _) = call(&mut d, 7);
    drop(leaves);

    let mut opened = opened.unwrap();
    let leg = fly(&mut opened.checkout, &mut d, &mut opened.flight, Signal::Emptied);
    assert!(matches!(leg, Leg::FlyOn));
    settle(&mut d, opened);

    assert_eq!(answer(&mut stays).unwrap(), 49);
    assert_eq!(fetcher.completed.load(Ordering::SeqCst), 1);
    assert_eq!(fetcher.fetches(), 1);
}

#[test]
fn the_flight_folds_when_the_last_waiter_leaves() {
    let fetcher = Squares::new(0);
    let mut d = Deduplicator::new(fetcher.clone());

    let (last, opened) = call(&mut d, 7);
    drop(last);
    let Opened { mut checkout, mut flight, fetch } = opened.unwrap();
    let leg = fly(&mut checkout, &mut d, &mut flight, Signal::Emptied);
    assert!(matches!(leg, Leg::Fold(Some((7, _)))));
    drop(fetch);

    assert_eq!(fetcher.completed.load(Ordering::SeqCst), 0);
    assert_eq!(d.in_the_air(), 0);
}

#[test]
fn the_input_is_free_after_a_folded_flight() {
    let fetcher = Squares::new(0);
    let mut d = Deduplicator::new(fetcher.clone());

    let (last, opened) = call(&mut d, 7);
    drop(last);
    let Opened { mut checkout, mut flight, .. } = opened.unwrap();
    fly(&mut checkout, &mut d, &mut flight, Signal::Emptied);

    let (mut waiter, opened) = call(&mut d, 7);
    settle(&mut d, opened.expect("the input must be free again"));
    assert_eq!(answer(&mut waiter).unwrap(), 49);
    assert_eq!(fetcher.fetches(), 2);
}

// A call that arrives before the emptied flight looks joins it; one that arrives after the
// fold opens a new one. Both are answered.
#[test]
fn race_a_call_meeting_the_emptying_is_never_left_unanswered() {
    for arrives_first in [true, false] {
        let mut d = Deduplicator::new(Squares::new(0));
        let (leaving, opened) = call(&mut d, 7);
        let mut opened = opened.unwrap();
        drop(leaving);

        let mut arriving = None;
        if arrives_first {
            arriving = Some(call(&mut d, 7));
        }
        let leg = fly(&mut opened.checkout, &mut d, &mut opened.flight, Signal::Emptied);
        assert_eq!(matches!(leg, Leg::FlyOn), arrives_first);
        let (mut waiter, fresh) = arriving.unwrap_or_else(|| call(&mut d, 7));
        settle(&mut d, fresh.unwrap_or(opened));

        assert_eq!(answer(&mut waiter).unwrap(), 49);
    }
}

#[test]
fn race_a_call_arriving_at_the_emptying_keeps_the_flight_in_the_air() {
    let mut d = Deduplicator::new(Squares::new(0));
    let (leaving, opened) = call(&mut d, 7);
    let mut opened = opened.unwrap();
    drop(leaving);
    let (mut arriving, none) = call(&mut d, 7);
    assert!(none.is_none());

    let leg = fly(&mut opened.checkout, &mut d, &mut opened.flight, Signal::Emptied);
    assert!(matches!(leg, Leg::FlyOn));
    settle(&mut d, opened);
    assert_eq!(answer(&mut arriving).unwrap(), 49);
}

#[test]
fn race_the_flight_folds_when_the_waiter_that_kept_it_leaves_too() {
    let fetcher = Squares::new(0);
    let mut d = Deduplicator::new(fetcher.clone());
    let (leaving, opened) = call(&mut d, 7);
    let mut opened = opened.unwrap();
    drop(leaving);
    let (waiter, _) = call(&mut d, 7);
    let leg = fly(&mut opened.checkout, &mut d, &mut opened.flight, Signal::Emptied);
    assert!(matches!(leg, Leg::FlyOn));

    drop(waiter);
    let leg = fly(&mut opened.checkout, &mut d, &mut opened.flight, Signal::Emptied);
    assert!(matches!(leg, Leg::Fold(Some(_))));
    assert_eq!(fetcher.completed.load(Ordering::SeqCst), 0);
    assert_eq!(d.in_the_air(), 0);
}

// Every call that joined is told what the flight announced, however late it reads.
#[test]
fn a_landed_flight_tells_every_call_its_outcome() {
    for failures in [0, usize::MAX] {
        let mut d = Deduplicator::new(Squares::new(failures));
        let (mut w1, opened) = call(&mut d, 7);
        let (mut w2, _) = call(&mut d, 7);
        let Opened { mut checkout, mut flight, fetch } = opened.unwrap();
        let result = runtime().block_on(fetch);
        let Leg::Land { outcome, .. } =
            fly(&mut checkout, &mut d, &mut flight, Signal::Fetched(result))
        else {
            panic!("a fetched result lands");
        };
        let announcement = land::<Squares>(flight, outcome);
        for waiter in [&mut w1, &mut w2] {
            match told::<Squares>(waiter, &announcement) {
                Ok(value) => assert_eq!((value, failures), (49, 0)),
                Err(error) => assert!(failures > 0 && matches!(error, DedupError::Load(Boom))),
            }
        }
    }
}

type SharedDeduplicator = Arc<Mutex<Deduplicator<Squares>>>;

async fn fly_shared(d: SharedDeduplicator, opened: Opened) {
    let Opened { mut checkout, mut flight, fetch } = opened;
    let signal = Signal::Fetched(fetch.await);
    let leg = fly(&mut checkout, &mut d.lock().unwrap(), &mut flight, signal);
    if let Leg::Land { outcome, .. } = leg {
        land::<Squares>(flight, outcome);
    }
}

async fn call_shared(d: SharedDeduplicator, input: u64) -> Outcome<Squares> {
    let (mut waiter, opened) = call(&mut d.lock().unwrap(), input);
    let mut changes = waiter.listener().clone();
    if let Some(opened) = opened {
        tokio::spawn(fly_shared(d, opened));
    }
    loop {
        if let Turn::Return(outcome) = read_turn::<Squares>(&mut waiter) {
            return outcome;
        }
        if changes.changed().await.is_err() {
            return Err(DedupError::Lost);
        }
    }
}

#[test]
fn clones_share_one_flight() {
    let fetcher = Squares::new(0);
    let d = Arc::new(Mutex::new(Deduplicator::new(fetcher.clone())));
    let (mut leader, opened) = call(&mut d.lock().unwrap(), 7);
    let (mut follower, none) = call(&mut d.clone().lock().unwrap(), 7);
    assert!(none.is_none());
    runtime().block_on(fly_shared(d.clone(), opened.unwrap()));
    assert_eq!(answer(&mut follower).unwrap(), 49);
    assert_eq!(answer(&mut leader).unwrap(), 49);
    assert_eq!(fetcher.fetches(), 1);
}

#[test]
fn race_concurrent_calls_of_one_input_leave_it_free() {
    const CALLERS: usize = 8;
    let rt = Builder::new_multi_thread().worker_threads(4).build().unwrap();
    for _ in 0..50 {
        let fetcher = Squares::new(0);
        let d = Arc::new(Mutex::new(Deduplicator::new(fetcher.clone())));
        let callers: Vec<_> = (0..CALLERS)
            .map(|_| rt.spawn(call_shared(d.clone(), 7)))
            .collect();
        for caller in callers {
            assert_eq!(rt.block_on(caller).unwrap().unwrap(), 49);
        }

        // However many fetches the interleaving cost, the input is free once the racers finish.
        let before = fetcher.fetches();
        let after = rt.block_on(rt.spawn(call_shared(d.clone(), 7))).unwrap();
        assert_eq!(after.unwrap(), 49);
        assert_eq!(fetcher.fetches(), before + 1);
    }
}

// A second check-out would take whichever flight owns the input by then.
#[test]
fn checking_out_twice_leaves_the_next_flight_alone() {
    let mut d = Deduplicator::new(Squares::new(0));
    let (_first, opened) = call(&mut d, 7);
    let mut checkout = opened.unwrap().checkout;
    assert!(checkout.armed());
    assert!(checkout.check_out_in(&mut d).is_some());
    assert!(!checkout.armed());

    let (_second, next) = call(&mut d, 7);
    assert!(next.is_some());
    assert!(checkout.check_out_in(&mut d).is_none());
    assert_eq!(d.in_the_air(), 1);
}

#[test]
fn a_check_out_leaves_other_flights_alone() {
    let mut d = Deduplicator::new(Squares::new(0));
    let (_a, seven) = call(&mut d, 7);
    let (_b, _eight) = call(&mut d, 8);
    let Opened { mut checkout, flight, .. } = seven.unwrap();
    assert_eq!(flight.presence().receiver_count(), 1);
    let (input, _entry) = checkout.check_out_in(&mut d).unwrap();
    assert_eq!(input, 7);
    let (_c, joined) = call(&mut d, 8);
    assert!(joined.is_none());
}

// A clone of a caller's receiver, made to await on, is no listener of its own.
#[test]
fn every_call_counts_as_one_listener() {
    let mut d = Deduplicator::new(Squares::new(0));
    let (a, opened) = call(&mut d, 7);
    let (b, _) = call(&mut d, 7);
    let flight = opened.unwrap().flight;
    let _changes = a.listener().clone();
    assert_eq!(flight.presence().receiver_count(), 2);
    drop(a);
    assert_eq!(flight.presence().receiver_count(), 1);
    drop(b);
    assert_eq!(flight.presence().receiver_count(), 0);
}

// Each input has a channel of its own: what one flight announces, no caller of another hears.
#[test]
fn an_outcome_reaches_no_other_input() {
    let mut d = Deduplicator::new(Squares::new(0));
    let (mut two, opened) = call(&mut d, 2);
    let (mut three, _other) = call(&mut d, 3);
    settle(&mut d, opened.unwrap());
    assert_eq!(answer(&mut two).unwrap(), 4);
    assert!(matches!(read_turn::<Squares>(&mut three), Turn::Await));
}

#[test]
fn folding_goes_by_the_count_of_listeners() {
    let mut d = Deduplicator::new(Squares::new(0));
    let (_waiter, opened) = call(&mut d, 7);
    let mut checkout = opened.unwrap().checkout;
    assert!(matches!(checkout.check_out_if_count(&mut d, 1), Fold::Refused));
    assert!(checkout.armed());
    assert!(matches!(checkout.check_out_if_count(&mut d, 0), Fold::Folded(Some(_))));
    assert!(!checkout.armed());
}

#[test]
fn an_emptied_flight_looks_at_its_own_listeners() {
    let mut d = Deduplicator::new(Squares::new(0));
    let (waiter, opened) = call(&mut d, 7);
    let Opened { mut checkout, mut flight, .. } = opened.unwrap();
    assert!(matches!(checkout.check_out_if_empty(&mut d, &mut flight), Fold::Refused));
    drop(waiter);
    assert!(matches!(
        checkout.check_out_if_empty(&mut d, &mut flight),
        Fold::Folded(Some(_))
    ));
}

#[test]
fn a_fetched_result_lands_though_nobody_listens() {
    let mut d = Deduplicator::new(Squares::new(0));
    let (_waiter, opened) = call(&mut d, 7);
    let mut checkout = opened.unwrap().checkout;
    match fly_counted(&mut checkout, &mut d, 0, Signal::Fetched(Ok(49))) {
        Leg::Land { outcome, checked_out } => {
            assert_eq!(outcome.unwrap(), 49);
            assert!(checked_out.is_some());
        }
        _ => panic!("an outcome in hand lands"),
    }
}

#[test]
fn signals_are_taken_in_order() {
    assert!(first_signal::<Squares>(None, false).is_none());
    assert!(matches!(first_signal::<Squares>(None, true), Some(Signal::Emptied)));
    assert!(matches!(
        first_signal::<Squares>(Some(Ok(4)), true),
        Some(Signal::Fetched(Ok(4)))
    ));
}

#[test]
fn a_waiting_call_goes_by_what_it_finds() {
    assert!(matches!(next_turn::<Squares>(Found::Read(None)), Turn::Await));
    assert!(matches!(next_turn::<Squares>(Found::Changed), Turn::Read));
    assert!(matches!(
        next_turn::<Squares>(Found::Read(Some(Ok(4)))),
        Turn::Return(Ok(4))
    ));
    assert!(matches!(
        next_turn::<Squares>(Found::Gone),
        Turn::Return(Err(DedupError::Lost))
    ));
}
