//! How requests are collected into batches.
use std::time::Duration;
use vstd::prelude::*;

verus! {

/// What `Duration::from_millis` returns.
pub uninterp spec fn millis(millis: u64) -> Duration;

/// What `Duration::from_secs` returns.
pub uninterp spec fn seconds(secs: u64) -> Duration;

/// `std::time::Duration::from_millis` is a function of the number of milliseconds.
pub assume_specification[ Duration::from_millis ](ms: u64) -> (duration: Duration)
    ensures
        duration == millis(ms),
;

/// `std::time::Duration::from_secs` is a function of the number of seconds.
pub assume_specification[ Duration::from_secs ](secs: u64) -> (duration: Duration)
    ensures
        duration == seconds(secs),
;

/// A count that is at least one.
#[derive(Debug, Clone, Copy, PartialEq, Eq)]
pub struct Positive {
    n: usize,
}

impl Positive {
    #[verifier::type_invariant]
    spec fn positive(self) -> bool {
        self.n > 0
    }

    /// The count as a number.
    pub closed spec fn value(self) -> nat {
        self.n as nat
    }

    /// The count `n`, unless it is zero.
    pub fn new(n: usize) -> (count: Option<Positive>)
        ensures
            count is Some <==> n > 0,
            count matches Some(c) ==> c.value() == n,
    {
        if n > 0 {
            Some(Positive { n })
        } else {
            None
        }
    }

    /// The count as an integer.
    pub fn get(self) -> (n: usize)
        ensures
            n == self.value(),
            n > 0,
    {
        proof {
            use_type_invariant(self);
        }
        self.n
    }
}

/// The limits of collection and dispatch.
#[non_exhaustive]
#[derive(Debug)]
pub struct BatchConfig {
    /// How long a collection window stays open.
    pub window: Duration,
    /// How many distinct inputs close a window early.
    pub max_batch_size: Positive,
    /// How long one downstream call may take.
    pub timeout: Duration,
    /// How many downstream calls may run at once.
    pub concurrency_limit: Option<Positive>,
    /// How long a batch may wait for its slot; only consulted when `concurrency_limit` is set.
    pub max_waiting: Option<Duration>,
}

impl Clone for BatchConfig {
    fn clone(&self) -> (copy: Self)
        ensures
            copy == *self,
    {
        BatchConfig {
            window: self.window,
            max_batch_size: self.max_batch_size,
            timeout: self.timeout,
            concurrency_limit: self.concurrency_limit,
            max_waiting: self.max_waiting,
        }
    }
}

impl Default for BatchConfig {
    fn default() -> (config: Self)
        ensures
            config.window == millis(30),
            config.max_batch_size.value() == 1024,
            config.timeout == seconds(30),
            config.concurrency_limit is None,
            config.max_waiting is None,
    {
        let max_batch_size = Positive { n: 1024 };
        BatchConfig {
            window: Duration::from_millis(30),
            max_batch_size,
            timeout: Duration::from_secs(30),
            concurrency_limit: None,
            max_waiting: None,
        }
    }
}

/// A count is what it was made of, and every number but zero is one.
pub proof fn law_a_count_is_what_it_was_made_of(n: usize, made: Option<Positive>, got: usize)
    requires
        call_ensures(Positive::new, (n,), made),
        made is Some ==> call_ensures(Positive::get, (made->0,), got),
    ensures
        made is None <==> n == 0,
        n > 0 ==> got == n,
{
}

/// A clone of a configuration is that configuration.
pub proof fn law_a_cloned_configuration_is_the_same(config: BatchConfig, copy: BatchConfig)
    requires
        call_ensures(BatchConfig::clone, (&config,), copy),
    ensures
        copy.window == config.window,
        copy.max_batch_size == config.max_batch_size,
        copy.timeout == config.timeout,
        copy.concurrency_limit == config.concurrency_limit,
        copy.max_waiting == config.max_waiting,
{
}

} // verus!
