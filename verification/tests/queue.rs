use carpool::queue::{Pending, Queue};
use std::sync::{Arc, Barrier, Mutex};
use tokio::runtime::{Builder, Runtime};
use tokio::sync::oneshot;

fn enqueue(q: &mut Queue<u32, u32>, input: u32) -> oneshot::Receiver<u32> {
    let (tx, rx) = oneshot::channel();
    q.push(input, tx);
    rx
}

fn inputs(batch: &[Pending<u32, u32>]) -> Vec<u32> {
    batch.iter().map(|(input, _)| *input).collect()
}

fn threads(n: usize) -> Runtime {
    Builder::new_multi_thread().worker_threads(n).build().unwrap()
}

#[test]
fn len_is_raw_until_a_scan_buries_the_dead() {
    let mut q: Queue<u32, u32> = Queue::default();
    let rxs: Vec<_> = (0..3).map(|i| enqueue(&mut q, i)).collect();
    assert_eq!(q.len(), 3);
    drop(rxs); // every caller cancels, len does not notice
    assert_eq!(q.len(), 3);
    assert!(q.take(usize::MAX).is_empty()); // the scan buries all three
    assert_eq!(q.len(), 0);
}

#[test]
fn take_skips_dead_and_keeps_arrival_order() {
    let mut q: Queue<u32, u32> = Queue::default();
    let mut rxs: Vec<_> = (0..5).map(|i| enqueue(&mut q, i)).collect();
    drop(rxs.remove(3));
    drop(rxs.remove(1)); // callers 1 and 3 cancel
    let taken = q.take(usize::MAX);
    assert_eq!(inputs(&taken), vec![0, 2, 4]);
    assert_eq!(q.len(), 0);
}

#[test]
fn take_counts_live_entries_against_the_limit() {
    let mut q: Queue<u32, u32> = Queue::default();
    let mut rxs: Vec<_> = (0..5).map(|i| enqueue(&mut q, i)).collect();
    drop(rxs.remove(0)); // a dead head must not eat the limit
    assert!(q.take(0).is_empty());
    assert_eq!(q.len(), 5);
    let taken = q.take(2);
    assert_eq!(inputs(&taken), vec![1, 2]);
    assert_eq!(q.len(), 2); // 3 and 4 stay
}

#[test]
fn push_works_after_a_full_take() {
    let mut q: Queue<u32, u32> = Queue::default();
    let _r1 = enqueue(&mut q, 1);
    assert_eq!(q.take(usize::MAX).len(), 1);
    let _r2 = enqueue(&mut q, 2); // no terminal states: the queue keeps serving
    assert_eq!(inputs(&q.take(usize::MAX)), vec![2]);
}

#[test]
fn take_if_refuses_below_the_raw_gate() {
    let mut q: Queue<u32, u32> = Queue::default();
    let _rxs: Vec<_> = (0..3).map(|i| enqueue(&mut q, i)).collect();
    assert!(q.take_if(5).is_none());
    assert_eq!(q.len(), 3); // refused before any scan
}

#[test]
fn take_if_prunes_then_refuses_when_live_is_short() {
    let mut q: Queue<u32, u32> = Queue::default();
    let mut rxs: Vec<_> = (0..5).map(|i| enqueue(&mut q, i)).collect();
    drop(rxs.split_off(2)); // callers 2, 3 and 4 cancel
    assert!(q.take_if(4).is_none());
    assert_eq!(q.len(), 2); // the failed attempt still buried the dead
}

#[test]
fn take_if_delivers_exactly_n_in_order() {
    let mut q: Queue<u32, u32> = Queue::default();
    let _rxs: Vec<_> = (0..5).map(|i| enqueue(&mut q, i)).collect();
    let batch = q.take_if(3).expect("5 live entries cover a batch of 3");
    assert_eq!(inputs(&batch), vec![0, 1, 2]);
    assert_eq!(q.len(), 2);
}

#[test]
fn a_taken_entry_delivers_to_its_receiver() {
    let mut q: Queue<u32, u32> = Queue::default();
    let rx = enqueue(&mut q, 7);
    for (input, tx) in q.take(usize::MAX) {
        tx.send(input * 10).expect("receiver is alive");
    }
    assert_eq!(rx.blocking_recv(), Ok(70));
}

#[test]
fn reached_resolves_once_len_covers_n() {
    let mut q: Queue<u32, u32> = Queue::default();
    let _rxs: Vec<_> = (0..2).map(|i| enqueue(&mut q, i)).collect();
    assert!(q.reached(2));
    assert!(!q.reached(3));
}

#[test]
fn race_concurrent_pushes_reach_one_take() {
    for _ in 0..50 {
        let q: Arc<Mutex<Queue<u32, u32>>> = Arc::new(Mutex::new(Queue::default()));
        let n = 8u32;
        let rxs = Arc::new(Mutex::new(Vec::new()));
        let rt = threads(2);
        let pushes: Vec<_> = (0..n)
            .map(|i| {
                let (q, rxs) = (q.clone(), rxs.clone());
                rt.spawn(async move {
                    let rx = enqueue(&mut q.lock().unwrap(), i);
                    rxs.lock().unwrap().push(rx);
                })
            })
            .collect();
        for push in pushes {
            rt.block_on(push).unwrap();
        }
        let mut delivered = inputs(&q.lock().unwrap().take(usize::MAX));
        delivered.sort_unstable();
        assert_eq!(delivered, (0..n).collect::<Vec<_>>());
    }
}

#[test]
fn race_take_against_receiver_drop() {
    let rt = threads(1);
    for _ in 0..100 {
        let mut q: Queue<u32, u32> = Queue::default();
        let mut rxs: Vec<_> = (0..6).map(|i| enqueue(&mut q, i)).collect();
        let victim = rxs.remove(0); // head of the take(3) prefix
        let start = Arc::new(Barrier::new(2));
        let cancel = rt.spawn({
            let start = start.clone();
            async move {
                start.wait();
                drop(victim); // cancel while the take may be scanning
            }
        });
        start.wait();
        let taken = q.take(3);
        rt.block_on(cancel).unwrap();
        // the victim is either buried or rides along dead, never duplicated
        assert_eq!(taken.len(), 3);
        assert!(matches!(q.len(), 2 | 3));
    }
}

#[test]
fn race_take_if_against_receiver_drop() {
    let rt = threads(1);
    for _ in 0..100 {
        let mut q: Queue<u32, u32> = Queue::default();
        let mut rxs: Vec<_> = (0..5).map(|i| enqueue(&mut q, i)).collect();
        let victim = rxs.remove(0);
        let start = Arc::new(Barrier::new(2));
        let cancel = rt.spawn({
            let start = start.clone();
            async move {
                start.wait();
                drop(victim);
            }
        });
        start.wait();
        let batch = q.take_if(5);
        rt.block_on(cancel).unwrap();
        match batch {
            // the cancel lost the race: the batch left whole, dead rider included
            Some(batch) => {
                assert_eq!(batch.len(), 5);
                assert_eq!(q.len(), 0);
            }
            // the cancel won: the scan buried it and the threshold failed
            None => assert_eq!(q.len(), 4),
        }
    }
}

#[test]
fn an_empty_queue_gives_nothing() {
    let mut q: Queue<u32, u32> = Queue::default();
    assert!(q.is_empty());
    assert!(q.reached(0));
    assert!(q.take(3).is_empty());
    assert!(q.take_if(1).is_none());
}

#[test]
fn take_if_of_none_is_an_empty_batch() {
    let mut q: Queue<u32, u32> = Queue::default();
    let _rx = enqueue(&mut q, 1);
    let batch = q.take_if(0).expect("a batch of none is always there");
    assert!(batch.is_empty());
}

#[test]
fn take_with_a_given_reading_follows_the_reading() {
    let mut q: Queue<u32, u32> = Queue::default();
    let _rxs: Vec<_> = (0..5).map(|i| enqueue(&mut q, i)).collect();
    let taken = q.take_observed(2, &vec![true, false, true, false, false]);
    assert_eq!(inputs(&taken), vec![1, 3]);
    assert_eq!(inputs(&q.take(usize::MAX)), vec![4]);
}

#[test]
fn take_if_with_a_given_reading_is_all_or_nothing() {
    let mut q: Queue<u32, u32> = Queue::default();
    let _rxs: Vec<_> = (0..3).map(|i| enqueue(&mut q, i)).collect();
    assert!(q.take_if_observed(3, &vec![false, true, false]).is_none());
    assert_eq!(q.len(), 2);
    let batch = q.take_if_observed(2, &vec![false, false]).expect("both are live");
    assert_eq!(inputs(&batch), vec![0, 2]);
}

#[test]
fn an_unbounded_take_of_the_live_drains_in_order() {
    let mut q: Queue<u32, u32> = Queue::default();
    let _rxs: Vec<_> = (0..4).map(|i| enqueue(&mut q, i)).collect();
    assert_eq!(inputs(&q.take(usize::MAX)), vec![0, 1, 2, 3]);
    assert!(q.is_empty());
}
