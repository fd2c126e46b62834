use carpool::BatchCollector;
use std::collections::{HashMap, HashSet};
use std::convert::Infallible;
use std::future::{ready, Ready};
use tokio::runtime::Builder;

#[derive(Clone)]
struct SquareLoader;

impl BatchCollector for SquareLoader {
    type Input = u64;
    type Output = u64;
    type Error = Infallible;
    type Loading = Ready<Result<HashMap<u64, u64>, Infallible>>;

    fn load(&self, batch: HashSet<u64>) -> Self::Loading {
        ready(Ok(batch.into_iter().map(|x| (x, x * x)).collect()))
    }
}

// Spawning the load future proves it is `Send`.
#[test]
fn load_future_is_send_and_input_addressed() {
    let loader = SquareLoader;
    let batch = HashSet::from([2, 3, 4]);
    let rt = Builder::new_current_thread().build().unwrap();
    let out = rt
        .block_on(async { tokio::spawn(async move { loader.load(batch).await }).await })
        .expect("task joins")
        .expect("load succeeds");

    assert_eq!(out, HashMap::from([(2, 4), (3, 9), (4, 16)]));
}
