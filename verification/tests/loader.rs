use carpool::config::Positive;
use carpool::dispatch::{deliver_all, Dispatch, Loaded, Reply, Request};
use carpool::gate::Gate;
use carpool::limiter::{run, warn_max_waiting_ignored, Entrance, Run, Slots};
use carpool::ledger::Ledger;
use carpool::loader::{
    arrival, report_batch, Dispatcher, Dispatching, LoadEnd, News, Order,
};
use carpool::pipe::Answer;
use carpool::window::{Action, Collection, Event};
use carpool::{BatchCollector, BatchConfig, BatchLoader, Error};
use std::collections::{HashMap, HashSet};
use std::future::{ready, Ready};
use std::sync::atomic::{AtomicUsize, Ordering};
use std::sync::Arc;
use std::time::Duration;
use tokio::runtime::Builder;
use tokio::sync::{OwnedSemaphorePermit, Semaphore};

#[derive(Debug, Clone, PartialEq)]
struct Boom;

// How a collector breaks its first call.
#[derive(Clone, Copy, PartialEq)]
enum Misbehavior {
    Never,
    Error,
    Contract,
}

#[derive(Clone)]
struct Squares {
    calls: Arc<AtomicUsize>,
    power: u32,
    how: Misbehavior,
}

impl BatchCollector for Squares {
    type Input = u64;
    type Output = u64;
    type Error = Boom;
    type Loading = Ready<Result<HashMap<u64, u64>, Boom>>;

    fn load(&self, batch: HashSet<u64>) -> Self::Loading {
        let first = self.calls.fetch_add(1, Ordering::SeqCst) == 0;
        if first && self.how == Misbehavior::Error {
            return ready(Err(Boom));
        }
        let mut out: HashMap<u64, u64> = batch.into_iter().map(|k| (k, k.pow(self.power))).collect();
        if first && self.how == Misbehavior::Contract {
            out.insert(u64::MAX, 0); // an input never requested
        }
        ready(Ok(out))
    }
}

fn config(max: usize) -> BatchConfig {
    let mut config = BatchConfig::default();
    config.window = Duration::from_secs(3600);
    config.max_batch_size = Positive::new(max).expect("max is non-zero");
    config
}

fn one_slot() -> BatchConfig {
    let mut limited = config(1);
    limited.concurrency_limit = Positive::new(1);
    limited
}

// A loader whose tasks are stepped by hand. The timer never fires, so windows close at `max`
// items.
struct Stepped {
    collection: Collection<Request<Squares>, u64>,
    dispatcher: Dispatcher,
    dispatching: Dispatching<Squares>,
    waiting: Vec<Vec<Request<Squares>>>,
    calls: Arc<AtomicUsize>,
}

impl Stepped {
    fn new(config: &BatchConfig, power: u32, how: Misbehavior) -> Self {
        let calls = Arc::new(AtomicUsize::new(0));
        let collector = Squares {
            calls: calls.clone(),
            power,
            how,
        };
        let (_loader, collecting, dispatching) = BatchLoader::wire(collector, config);
        Stepped {
            collection: Collection::new(collecting.max_batch_size),
            dispatcher: Dispatcher::new(),
            dispatching,
            waiting: Vec::new(),
            calls,
        }
    }

    fn load(&mut self, input: u64) -> Answer<Reply<Squares>> {
        let (request, answer) = BatchLoader::request(input);
        if let Action::HandOff(window) = self.collection.on(arrival(request)) {
            assert!(matches!(
                self.collection.on(Event::HandedOff(true)),
                Action::Idle
            ));
            match self.dispatcher.on(News::Window(window)) {
                Order::Start(batch) => self.waiting.push(batch),
                _ => panic!("a window is started"),
            }
        }
        answer
    }

    // Runs the oldest batch that waits, with its slot or without.
    fn run(&mut self, granted: bool) {
        let batch = self.waiting.remove(0);
        match run(batch, granted, &mut Ledger::default()) {
            Run::Failed(deliveries) => {
                deliver_all(deliveries);
            }
            Run::Dispatched(Dispatch::Skip) => {}
            Run::Dispatched(Dispatch::Load { waiters, inputs }) => {
                let rt = Builder::new_current_thread().build().unwrap();
                let loaded = match rt.block_on(self.dispatching.collector.load(inputs)) {
                    Ok(response) => Loaded::Answered(response),
                    Err(e) => Loaded::Failed(e),
                };
                waiters.reply_all(loaded);
            }
        }
    }

    // Runs the oldest batch, whose downstream call ends so.
    fn end(&mut self, loaded: Loaded<Squares>) {
        match run(self.waiting.remove(0), true, &mut Ledger::default()) {
            Run::Dispatched(Dispatch::Load { waiters, inputs }) => {
                let _cut_short = self.dispatching.collector.load(inputs);
                waiters.reply_all(loaded);
            }
            _ => panic!("someone waits"),
        }
    }

    fn permits(&self) -> Arc<Semaphore> {
        match &self.dispatching.slots {
            Slots::Limited { permits, .. } => permits.permits().clone(),
            Slots::Unlimited => panic!("the slots are limited"),
        }
    }

    // The only slot, held until the permit is dropped.
    fn only_slot(&self) -> OwnedSemaphorePermit {
        let permits = self.permits();
        let permit = permits.clone().try_acquire_owned().expect("the slot is free");
        assert!(permits.try_acquire().is_err(), "there is no second slot");
        permit
    }

    fn calls(&self) -> usize {
        self.calls.load(Ordering::SeqCst)
    }
}

fn result(answer: Answer<Reply<Squares>>) -> Reply<Squares> {
    let end = match answer.into_receiver().blocking_recv() {
        Ok(reply) => LoadEnd::Answered(reply),
        Err(_) => LoadEnd::Unanswered,
    };
    BatchLoader::<Squares>::conclude(end)
}

// Five concurrent loads over two inputs collapse to a single downstream call, and every waiter
// still gets its input's value.
#[test]
fn duplicate_keys_collapse_to_one_downstream_call() {
    let mut s = Stepped::new(&config(5), 2, Misbehavior::Never);
    let answers: Vec<_> = [1u64, 1, 1, 2, 2].into_iter().map(|k| s.load(k)).collect();
    assert!(s.waiting.is_empty(), "two distinct inputs leave it open");
    match s.collection.on(Event::Timer) {
        Action::HandOff(window) => s.waiting.push(window),
        _ => panic!("the timer closes the window"),
    }
    s.run(true);
    let results: Vec<u64> = answers.into_iter().map(|a| result(a).unwrap()).collect();

    assert_eq!(s.calls(), 1, "dedup -> single downstream call");
    assert_eq!(results, vec![1, 1, 1, 4, 4]);
}

// Distinct inputs in one window each get their own result from the one call.
#[test]
fn distinct_keys_each_get_their_own_result() {
    let mut s = Stepped::new(&config(3), 2, Misbehavior::Never);
    let answers: Vec<_> = [2u64, 3, 4].into_iter().map(|k| s.load(k)).collect();
    s.run(true);
    let results: Vec<u64> = answers.into_iter().map(|a| result(a).unwrap()).collect();

    assert_eq!(s.calls(), 1);
    assert_eq!(results, vec![4, 9, 16]);
}

// A load arriving after the window closed opens a fresh one, so it is a new downstream call.
#[test]
fn a_load_after_the_window_closes_starts_a_new_call() {
    let mut s = Stepped::new(&config(1), 2, Misbehavior::Never);

    let first = s.load(5);
    s.run(true);
    assert_eq!(result(first).unwrap(), 25);
    assert_eq!(s.calls(), 1);

    let second = s.load(6);
    s.run(true);
    assert_eq!(result(second).unwrap(), 36);
    assert_eq!(s.calls(), 2, "the later load opens a fresh window");
}

// A cloned loader and what a load holds can move to other tasks.
#[test]
fn load_future_is_send_after_clone() {
    fn send<T: Send>(t: T) -> T {
        t
    }
    let collector = Squares {
        calls: Arc::new(AtomicUsize::new(0)),
        power: 2,
        how: Misbehavior::Never,
    };
    let (loader, _collecting, _dispatching) = BatchLoader::wire(collector, &config(1));
    send(loader.clone());

    let mut s = Stepped::new(&config(1), 2, Misbehavior::Never);
    let answer = send(s.load(7));
    s.run(true);
    assert_eq!(result(answer).unwrap(), 49);
}

// With limit 2 and six contending batches the in-flight count reaches exactly 2, and every load
// still completes.
#[test]
fn concurrency_limit_caps_in_flight_and_queue_drains() {
    const LIMIT: usize = 2;
    const BATCHES: u64 = 6;
    let mut limited = config(1);
    limited.concurrency_limit = Positive::new(LIMIT);
    let mut s = Stepped::new(&limited, 1, Misbehavior::Never);
    let permits = s.permits();
    assert!(matches!(s.dispatching.slots.entrance(), Entrance::Queue));

    let answers: Vec<_> = (1..=BATCHES).map(|k| s.load(k)).collect();
    let mut max_in_flight = 0;
    while !s.waiting.is_empty() {
        let mut held = Vec::new();
        while let Ok(permit) = permits.clone().try_acquire_owned() {
            held.push(permit);
        }
        max_in_flight = max_in_flight.max(held.len());
        for _permit in held {
            s.run(true);
        }
    }
    for answer in answers {
        result(answer).expect("load succeeds");
    }
    assert_eq!(s.calls(), BATCHES as usize, "every batch reached downstream");
    assert_eq!(
        max_in_flight, LIMIT,
        "in-flight peak equals the limit, never exceeds it"
    );
}

#[test]
fn a_panicking_batch_reports_panic_and_frees_its_slot() {
    let mut s = Stepped::new(&one_slot(), 1, Misbehavior::Never);
    let first = s.load(1);
    let slot = s.only_slot();
    s.end(Loaded::Panicked);
    drop(slot);
    assert!(
        matches!(result(first), Err(Error::CollectorPanic)),
        "the panicking batch reports a panic to its waiter"
    );

    let second = s.load(2);
    let _freed = s.only_slot();
    s.run(true);
    assert_eq!(result(second).unwrap(), 2, "the next batch got the freed slot");
    assert_eq!(s.calls(), 2, "both batches reached downstream");
}

// A batch that cannot get a slot within max_waiting is dropped with a wait error and never
// reaches downstream.
#[test]
fn a_batch_that_waits_past_max_waiting_fails_without_downstream() {
    let mut limited = one_slot();
    limited.max_waiting = Some(Duration::from_secs(5));
    let mut s = Stepped::new(&limited, 1, Misbehavior::Never);
    match s.dispatching.slots.entrance() {
        Entrance::QueueWithin(wait) => assert_eq!(wait, Duration::from_secs(5)),
        _ => panic!("the wait is bounded"),
    }

    // the first batch takes the only slot and holds it past the limit
    let _holder = s.load(1);
    let _held = s.only_slot();
    s.run(true);
    let waited = s.load(2);
    let granted = s.permits().try_acquire().is_ok();
    s.run(granted);
    assert!(
        matches!(result(waited), Err(Error::WaitingTimeout)),
        "the queued batch times out waiting for a slot"
    );
    assert_eq!(
        s.calls(),
        1,
        "downstream ran for the holder only, not the timed-out batch"
    );
}

// max_waiting without a concurrency limit is a soft no-op: loads still run and succeed.
#[test]
fn max_waiting_without_a_limit_is_a_soft_no_op() {
    let mut unlimited = config(1);
    unlimited.max_waiting = Some(Duration::from_secs(5));
    assert_eq!(
        warn_max_waiting_ignored(&unlimited),
        Some("carpool: max_waiting is set without concurrency_limit and has no effect")
    );
    let mut s = Stepped::new(&unlimited, 2, Misbehavior::Never);
    assert!(matches!(s.dispatching.slots.entrance(), Entrance::Open));

    let answer = s.load(6);
    s.run(true);
    assert_eq!(result(answer).unwrap(), 36);
    assert_eq!(s.calls(), 1);
}

#[test]
fn a_batch_slower_than_the_timeout_fails_and_the_next_passes() {
    let mut s = Stepped::new(&config(1), 1, Misbehavior::Never);
    let slow = s.load(1);
    s.end(Loaded::Elapsed);
    assert!(matches!(result(slow), Err(Error::Timeout)), "the slow batch times out");

    let next = s.load(2);
    s.run(true);
    assert_eq!(result(next).unwrap(), 2, "the next batch runs after the timeout");
    assert_eq!(s.calls(), 2, "downstream was entered for both batches");
}

// The waiter leaves while downstream runs: the call goes on, its result is discarded, and the
// next batch is served.
#[test]
fn cancelling_one_load_leaves_the_others_and_the_slot_clean() {
    let mut s = Stepped::new(&one_slot(), 1, Misbehavior::Never);
    let cancelled = s.load(1);
    let slot = s.only_slot();
    let dispatched = run(s.waiting.remove(0), true, &mut Ledger::default());
    let Run::Dispatched(Dispatch::Load { waiters, inputs }) = dispatched else {
        panic!("someone waits");
    };
    let _running = s.dispatching.collector.load(inputs);
    drop(cancelled);
    let receipts = waiters.reply_all(Loaded::Answered(HashMap::from([(1, 1)])));
    assert!(!receipts[0].delivered());
    drop(slot);

    let next = s.load(2);
    let _freed = s.only_slot();
    s.run(true);
    assert_eq!(result(next).unwrap(), 2, "the next batch got the freed slot");
    assert_eq!(
        s.calls(),
        2,
        "downstream ran for both - the cancelled batch was not aborted"
    );
}

// After a failed or a tainted call the next batch reaches downstream and succeeds.
#[test]
fn failure_paths_free_the_slot_for_the_next() {
    for how in [Misbehavior::Error, Misbehavior::Contract] {
        let mut s = Stepped::new(&one_slot(), 1, how);
        let failed = s.load(1);
        let slot = s.only_slot();
        s.run(true);
        drop(slot);
        match how {
            Misbehavior::Error => assert!(matches!(result(failed), Err(Error::Collector(_)))),
            _ => assert!(matches!(result(failed), Err(Error::ContractViolation { .. }))),
        }

        let next = s.load(2);
        let _freed = s.only_slot();
        s.run(true);
        assert_eq!(result(next).unwrap(), 2, "the next batch got the freed slot");
        assert_eq!(s.calls(), 2);
    }
}

#[test]
fn a_loader_is_wired_as_configured() {
    let mut limited = config(3);
    limited.timeout = Duration::from_secs(7);
    limited.concurrency_limit = Positive::new(4);
    let collector = Squares {
        calls: Arc::new(AtomicUsize::new(0)),
        power: 2,
        how: Misbehavior::Never,
    };
    let (loader, collecting, dispatching) = BatchLoader::wire(collector, &limited);
    assert_eq!(loader.inlet().sender().max_capacity(), 3);
    assert_eq!(collecting.windows.sender().max_capacity(), 1);
    assert_eq!(collecting.window, Duration::from_secs(3600));
    assert_eq!(collecting.max_batch_size.get(), 3);
    assert_eq!(dispatching.timeout, Duration::from_secs(7));

    // what a clone of the loader sends arrives at the collecting side
    let (request, _answer) = BatchLoader::request(9);
    assert!(loader.clone().inlet().sender().try_send(request).is_ok());
    let arrived = collecting.requests.into_receiver().blocking_recv().unwrap();
    assert_eq!(arrived.input, 9);
    // and a window sent by the collecting side arrives at the dispatching side
    assert!(collecting.windows.sender().try_send(vec![arrived]).is_ok());
    let window = dispatching.windows.into_receiver().blocking_recv().unwrap();
    assert_eq!(window[0].input, 9);
}

#[test]
fn a_load_that_nobody_serves_is_closed() {
    assert!(matches!(
        BatchLoader::<Squares>::conclude(LoadEnd::NotTaken),
        Err(Error::Closed)
    ));
    let (request, answer) = BatchLoader::<Squares>::request(1);
    drop(request);
    assert!(matches!(result(answer), Err(Error::Closed)));
    assert_eq!(
        BatchLoader::<Squares>::conclude(LoadEnd::Answered(Ok(4))).unwrap(),
        4
    );
}

#[test]
fn slots_are_clamped_to_what_a_semaphore_can_hold() {
    assert_eq!(Gate::new(3).permits().available_permits(), 3);
    assert_eq!(
        Gate::new(usize::MAX).permits().available_permits(),
        Semaphore::MAX_PERMITS
    );
    assert_eq!(Semaphore::MAX_PERMITS, usize::MAX / 8);
    let mut huge = config(1);
    huge.concurrency_limit = Positive::new(usize::MAX);
    match Slots::from_config(&huge) {
        Slots::Limited { permits, max_waiting } => {
            assert_eq!(permits.permits().available_permits(), Semaphore::MAX_PERMITS);
            assert_eq!(max_waiting, None);
        }
        Slots::Unlimited => panic!("the slots are limited"),
    }
}

#[test]
fn clones_of_slots_share_them() {
    let mut limited = config(1);
    limited.concurrency_limit = Positive::new(2);
    let slots = Slots::from_config(&limited);
    let (Slots::Limited { permits: one, .. }, Slots::Limited { permits: other, .. }) =
        (&slots, &slots.clone())
    else {
        panic!("the slots are limited");
    };
    let _held = one.permits().try_acquire().unwrap();
    assert_eq!(other.permits().available_permits(), 1);
    assert!(matches!(Slots::Unlimited.clone(), Slots::Unlimited));
}

#[test]
fn a_waiting_limit_warns_only_without_slots() {
    let mut c = config(1);
    assert_eq!(warn_max_waiting_ignored(&c), None);
    c.concurrency_limit = Positive::new(1);
    c.max_waiting = Some(Duration::from_secs(5));
    assert_eq!(warn_max_waiting_ignored(&c), None);
}

#[test]
fn an_abnormal_end_is_reported() {
    assert_eq!(report_batch(Ok(())), None);
    assert_eq!(
        report_batch(Err("task 3 panicked".to_string())),
        Some("carpool: a batch task ended abnormally: task 3 panicked".to_string())
    );
}

// The dispatcher stops only once the source is closed and nothing runs any more.
#[test]
fn a_dispatcher_drains_before_it_stops() {
    let mut d = Dispatcher::new();
    assert!(d.open());
    assert!(matches!(
        d.on::<Squares>(News::Window(vec![])),
        Order::Start(_)
    ));
    assert!(matches!(d.on::<Squares>(News::SourceClosed), Order::Listen));
    assert!(!d.open());
    match d.on::<Squares>(News::BatchEnded(Err("gone".to_string()))) {
        Order::Log(text) => {
            assert_eq!(text, "carpool: a batch task ended abnormally: gone")
        }
        _ => panic!("an abnormal end is logged"),
    }
    assert!(matches!(
        d.on::<Squares>(News::BatchEnded(Ok(()))),
        Order::Listen
    ));
    assert!(matches!(d.on::<Squares>(News::NoneRunning), Order::Stop));
}
