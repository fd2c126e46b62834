use carpool::collector::BatchCollector;
use carpool::dispatch::{
    deliver, deliver_all, dispatch_window, fail_batch, warn_collector_panicked, warn_if_dropped,
    Delivery, Dispatch, Loaded, Request, Waiters,
};
use carpool::ledger::Ledger;
use carpool::Error;
use std::collections::{HashMap, HashSet};
use std::future::Future;
use std::pin::Pin;
use std::sync::atomic::{AtomicUsize, Ordering};
use std::sync::Arc;
use tokio::runtime::Builder;
use tokio::sync::oneshot;

#[derive(Debug, Clone, PartialEq)]
struct TestError;

// What the collector does with a batch, so each contract branch can be driven.
#[derive(Clone)]
enum Behavior {
    Square,
    OmitInput(u64),
    InjectUnknown(u64),
    Fail,
}

#[derive(Clone)]
struct TestCollector {
    calls: Arc<AtomicUsize>,
    batch_len: Arc<AtomicUsize>,
    behavior: Behavior,
}

impl TestCollector {
    fn answer(&self, batch: HashSet<u64>) -> Result<HashMap<u64, u64>, TestError> {
        self.calls.fetch_add(1, Ordering::SeqCst);
        self.batch_len.store(batch.len(), Ordering::SeqCst);
        let squared = || batch.iter().map(|&x| (x, x * x));
        match self.behavior {
            Behavior::Square => Ok(squared().collect()),
            Behavior::OmitInput(drop) => Ok(squared().filter(|(x, _)| *x != drop).collect()),
            Behavior::InjectUnknown(extra) => {
                let mut out: HashMap<u64, u64> = squared().collect();
                out.insert(extra, 0);
                Ok(out)
            }
            Behavior::Fail => Err(TestError),
        }
    }
}

impl BatchCollector for TestCollector {
    type Input = u64;
    type Output = u64;
    type Error = TestError;
    type Loading = Pin<Box<dyn Future<Output = Result<HashMap<u64, u64>, TestError>> + Send>>;

    fn load(&self, batch: HashSet<u64>) -> Self::Loading {
        let collector = self.clone();
        Box::pin(async move { collector.answer(batch) })
    }
}

type Reply = oneshot::Receiver<Result<u64, Error<TestError>>>;

fn req(input: u64) -> (Request<TestCollector>, Reply) {
    let (tx, rx) = oneshot::channel();
    (Request { input, respond: tx }, rx)
}

fn collector(behavior: Behavior) -> (TestCollector, Arc<AtomicUsize>, Arc<AtomicUsize>) {
    let calls = Arc::new(AtomicUsize::new(0));
    let batch_len = Arc::new(AtomicUsize::new(0));
    let collector = TestCollector {
        calls: calls.clone(),
        batch_len: batch_len.clone(),
        behavior,
    };
    (collector, calls, batch_len)
}

// One closed window, from dispatch to delivery.
fn serve(collector: TestCollector, batch: Vec<Request<TestCollector>>) {
    let Dispatch::Load { waiters, inputs } = dispatch_window(batch, &mut Ledger::default()) else {
        return;
    };
    let rt = Builder::new_current_thread().build().unwrap();
    let loaded = match rt.block_on(collector.load(inputs)) {
        Ok(response) => Loaded::Answered(response),
        Err(e) => Loaded::Failed(e),
    };
    waiters.reply_all(loaded);
}

fn told(rx: Reply) -> Result<u64, Error<TestError>> {
    rx.blocking_recv().unwrap()
}

#[test]
fn duplicate_inputs_collapse_to_one_downstream_entry() {
    let (collector, calls, batch_len) = collector(Behavior::Square);
    let (a, rx_a) = req(1);
    let (b, rx_b) = req(1);
    let (c, rx_c) = req(2);

    serve(collector, vec![a, b, c]);

    assert_eq!(calls.load(Ordering::SeqCst), 1, "one downstream call");
    assert_eq!(
        batch_len.load(Ordering::SeqCst),
        2,
        "three requests, two unique inputs"
    );
    assert_eq!(told(rx_a).unwrap(), 1);
    assert_eq!(told(rx_b).unwrap(), 1);
    assert_eq!(told(rx_c).unwrap(), 4);
}

#[test]
fn missing_input_is_addressed_only_to_its_waiter() {
    let (collector, _calls, _len) = collector(Behavior::OmitInput(2));
    let (a, rx_a) = req(1);
    let (b, rx_b) = req(2);

    serve(collector, vec![a, b]);

    assert_eq!(told(rx_a).unwrap(), 1);
    assert!(matches!(told(rx_b), Err(Error::MissingOutput)));
}

// The unknown input taints the whole batch, so rx_a fails despite a correct answer.
#[test]
fn unknown_input_fails_the_whole_batch() {
    let (collector, _calls, _len) = collector(Behavior::InjectUnknown(99));
    let (a, rx_a) = req(1);
    let (b, rx_b) = req(2);

    serve(collector, vec![a, b]);

    assert!(matches!(
        told(rx_a),
        Err(Error::ContractViolation { unknown_inputs: 1 })
    ));
    assert!(matches!(
        told(rx_b),
        Err(Error::ContractViolation { unknown_inputs: 1 })
    ));
}

#[test]
fn collector_error_reaches_every_waiter() {
    let (collector, _calls, _len) = collector(Behavior::Fail);
    let (a, rx_a) = req(1);
    let (b, rx_b) = req(2);

    serve(collector, vec![a, b]);

    assert!(matches!(told(rx_a), Err(Error::Collector(_))));
    assert!(matches!(told(rx_b), Err(Error::Collector(_))));
}

#[test]
fn abandoned_input_is_not_sent_downstream() {
    let (collector, calls, batch_len) = collector(Behavior::Square);
    let (a, rx_a) = req(1);
    let (b, rx_b) = req(2);
    drop(rx_a); // input 1's caller cancelled

    serve(collector, vec![a, b]);

    assert_eq!(calls.load(Ordering::SeqCst), 1);
    assert_eq!(
        batch_len.load(Ordering::SeqCst),
        1,
        "only the live input reaches downstream"
    );
    assert_eq!(told(rx_b).unwrap(), 4);
}

#[test]
fn all_waiters_gone_skips_downstream() {
    let (collector, calls, _len) = collector(Behavior::Square);
    let (a, rx_a) = req(1);
    let (b, rx_b) = req(2);
    drop(rx_a);
    drop(rx_b);

    serve(collector, vec![a, b]);

    assert_eq!(
        calls.load(Ordering::SeqCst),
        0,
        "no live waiter -> downstream skipped"
    );
}

#[test]
fn a_dropped_waiter_does_not_starve_its_inputs_survivor() {
    let (collector, calls, _len) = collector(Behavior::Square);
    let (a, rx_a) = req(1);
    let (b, rx_b) = req(1); // same input
    drop(rx_a);

    serve(collector, vec![a, b]);

    assert_eq!(calls.load(Ordering::SeqCst), 1);
    assert_eq!(
        told(rx_b).unwrap(),
        1,
        "the surviving waiter still gets its value"
    );
}

#[test]
fn an_empty_window_is_skipped() {
    assert!(matches!(
        dispatch_window::<TestCollector>(vec![], &mut Ledger::default()),
        Dispatch::Skip
    ));
}

#[test]
fn gathering_with_a_given_reading_follows_the_reading() {
    let (a, _rx_a) = req(1);
    let (b, _rx_b) = req(2);
    let (c, _rx_c) = req(3);
    let waiters = Waiters::gather_observed(vec![a, b, c], &vec![false, true, false]);
    assert!(!waiters.is_empty());
    assert_eq!(waiters.requested(), HashSet::from([1, 3]));
}

// An unknown input wins over a missing one, and every unknown input counts.
#[test]
fn unknown_inputs_win_over_a_missing_one() {
    let (a, rx_a) = req(1);
    let (b, rx_b) = req(2);
    let waiters = Waiters::gather(vec![a, b], &mut Ledger::default());
    let response = HashMap::from([(1, 1), (8, 0), (9, 0)]);
    waiters.reply_all(Loaded::Answered(response));
    for rx in [rx_a, rx_b] {
        assert!(matches!(
            told(rx),
            Err(Error::ContractViolation { unknown_inputs: 2 })
        ));
    }
}

#[test]
fn a_call_past_its_deadline_times_every_waiter_out() {
    let (a, rx_a) = req(1);
    let (b, rx_b) = req(2);
    Waiters::gather(vec![a, b], &mut Ledger::default()).reply_all(Loaded::Elapsed);
    assert!(matches!(told(rx_a), Err(Error::Timeout)));
    assert!(matches!(told(rx_b), Err(Error::Timeout)));
}

#[test]
fn a_panicking_call_is_told_to_every_waiter() {
    let (a, rx_a) = req(1);
    let (b, rx_b) = req(2);
    Waiters::gather(vec![a, b], &mut Ledger::default()).reply_all(Loaded::Panicked);
    assert!(matches!(told(rx_a), Err(Error::CollectorPanic)));
    assert!(matches!(told(rx_b), Err(Error::CollectorPanic)));
}

#[test]
fn a_failing_call_shares_its_cause() {
    let (a, rx_a) = req(1);
    Waiters::gather(vec![a], &mut Ledger::default()).reply_all(Loaded::Failed(TestError));
    match told(rx_a) {
        Err(Error::Collector(e)) => assert_eq!(e, TestError),
        _ => panic!("the cause is shared"),
    }
}

#[test]
fn a_failed_batch_tells_everyone_in_order() {
    let (a, rx_a) = req(1);
    let (b, rx_b) = req(2);
    let deliveries = fail_batch(vec![a, b], Error::WaitingTimeout);
    assert_eq!(deliveries.len(), 2);
    let receipts = deliver_all(deliveries);
    assert!(receipts.iter().all(|receipt| receipt.delivered()));
    assert!(matches!(told(rx_a), Err(Error::WaitingTimeout)));
    assert!(matches!(told(rx_b), Err(Error::WaitingTimeout)));
}

#[test]
fn a_reply_nobody_takes_is_reported() {
    let (a, rx_a) = req(1);
    drop(rx_a);
    let receipt = deliver::<TestCollector>(Delivery {
        respond: a.respond,
        reply: Ok(1),
    });
    assert!(!receipt.delivered());
    assert_eq!(
        warn_if_dropped(receipt.delivered()),
        Some("carpool: dropped a load result because its caller went away")
    );
    assert_eq!(warn_if_dropped(true), None);
}

#[test]
fn a_panic_is_logged_with_its_cause() {
    assert_eq!(
        warn_collector_panicked("boom"),
        "carpool: the collector panicked while loading a batch: boom"
    );
}
