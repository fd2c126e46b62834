//! The slot gate for parallel batches: how many downstream calls may run at once.
use crate::collector::{is_identity, BatchCollector};
use crate::config::BatchConfig;
use crate::dispatch::{asks_for, lemma_inputs_are_asked_for};
use crate::dispatch::{
    channels, dispatch_window, fail_batch, is_dispatch, Delivery, Dispatch, Reply, Request,
};
use crate::error::Error;
use crate::gate;
use crate::gate::{most_slots, Gate};
use crate::ledger::Ledger;
use crate::liveness::{answers, are_places, flags_from, law_kept_in_order, looked_at, looks_since};
use std::time::Duration;
use vstd::prelude::*;

verus! {

impl Gate {
    /// A gate with `limit` slots, or with the most there can be: a huge limit degrades.
    pub fn new(limit: usize) -> (made: Self)
        ensures
            made.slots() == if limit <= most_slots() {
                limit as nat
            } else {
                most_slots()
            },
    {
        let most = gate::max_permits();
        gate::gate(
            if limit < most {
                limit
            } else {
                most
            },
        )
    }
}

/// Whether batches wait for a slot.
pub enum Slots {
    /// They do not.
    Unlimited,
    /// They do, at most for `max_waiting`.
    Limited { permits: Gate, max_waiting: Option<Duration> },
}

impl Clone for Slots {
    /// Another handle on the same slots.
    fn clone(&self) -> (copy: Self)
        ensures
            copy == *self,
    {
        match self {
            Slots::Unlimited => Slots::Unlimited,
            Slots::Limited { permits, max_waiting } => Slots::Limited {
                permits: permits.clone(),
                max_waiting: *max_waiting,
            },
        }
    }
}

/// What a batch does before it is dispatched.
pub enum Entrance {
    /// Run at once.
    Open,
    /// Wait for a slot, however long it takes.
    Queue,
    /// Wait for a slot, at most this long.
    QueueWithin(Duration),
}

/// The text logged for a waiting limit that nothing consults.
pub open spec fn max_waiting_ignored_warning() -> Seq<char> {
    "carpool: max_waiting is set without concurrency_limit and has no effect"@
}

/// `max_waiting` gates slot acquisition only, and without a limit it has no effect: the text to
/// log if it is set nevertheless.
pub fn warn_max_waiting_ignored(config: &BatchConfig) -> (warning: Option<&'static str>)
    ensures
        warning is Some <==> config.max_waiting is Some && config.concurrency_limit is None,
        warning matches Some(text) ==> text@ == max_waiting_ignored_warning(),
{
    if config.concurrency_limit.is_none() && config.max_waiting.is_some() {
        Some("carpool: max_waiting is set without concurrency_limit and has no effect")
    } else {
        None
    }
}

/// What becomes of a batch that waited for its slot.
#[verifier::reject_recursive_types(C)]
pub enum Run<C: BatchCollector> {
    /// It is dispatched.
    Dispatched(Dispatch<C>),
    /// No slot came in time: the waiters are failed, and downstream is never called.
    Failed(Vec<Delivery<C>>),
}

impl Slots {
    /// The slots a configuration asks for.
    pub fn from_config(config: &BatchConfig) -> (slots: Self)
        ensures
            match config.concurrency_limit {
                None => slots is Unlimited,
                Some(limit) => slots matches Slots::Limited { permits, max_waiting }
                    && permits.slots() == (if limit.value() <= most_slots() {
                    limit.value()
                } else {
                    most_slots()
                }) && max_waiting == config.max_waiting,
            },
    {
        match config.concurrency_limit {
            Some(limit) => Slots::Limited {
                permits: Gate::new(limit.get()),
                max_waiting: config.max_waiting,
            },
            None => Slots::Unlimited,
        }
    }

    /// What a batch does before it is dispatched.
    pub fn entrance(&self) -> (entrance: Entrance)
        ensures
            entrance == match self {
                Slots::Unlimited => Entrance::Open,
                Slots::Limited { max_waiting: None, .. } => Entrance::Queue,
                Slots::Limited { max_waiting: Some(wait), .. } => Entrance::QueueWithin(*wait),
            },
    {
        match self {
            Slots::Unlimited => Entrance::Open,
            Slots::Limited { max_waiting, .. } => match max_waiting {
                None => Entrance::Queue,
                Some(wait) => Entrance::QueueWithin(*wait),
            },
        }
    }
}

/// What becomes of a batch once it has its slot or has waited in vain.
pub fn run<C: BatchCollector>(
    batch: Vec<Request<C>>,
    granted: bool,
    ledger: &mut Ledger<Reply<C>>,
) -> (run: Run<C>)
    requires
        is_identity::<C::Input>(),
    ensures
        granted ==> looked_at(old(ledger)@, final(ledger)@, channels(batch@)),
        !granted ==> final(ledger)@ == old(ledger)@,
        is_run(batch@, granted, answers(looks_since(old(ledger)@, final(ledger)@)), run),
{
    if granted {
        Run::Dispatched(dispatch_window(batch, ledger))
    } else {
        Run::Failed(fail_batch(batch, Error::WaitingTimeout))
    }
}

/// With a slot a batch is dispatched as a closed window is, given what was read of its reply
/// channels; without one every caller of it is told that the wait was too long.
pub open spec fn is_run<C: BatchCollector>(
    batch: Seq<Request<C>>,
    granted: bool,
    closed: Seq<bool>,
    run: Run<C>,
) -> bool {
    match run {
        Run::Dispatched(dispatch) => granted && is_dispatch(batch, closed, dispatch),
        Run::Failed(deliveries) => {
            &&& !granted
            &&& deliveries@.len() == batch.len()
            &&& forall|i: int|
                #![trigger deliveries@[i]]
                0 <= i < batch.len() ==> deliveries@[i].respond == batch[i].respond
                    && deliveries@[i].reply == Err::<C::Output, Error<C::Error>>(
                    Error::WaitingTimeout,
                )
        },
    }
}

/// A waiting limit matters only where slots are limited: without a limit every batch runs at
/// once, whatever `max_waiting` says.
pub proof fn law_no_limit_no_waiting(config: BatchConfig, slots: Slots, entrance: Entrance)
    requires
        config.concurrency_limit is None,
        call_ensures(Slots::from_config, (&config,), slots),
        call_ensures(Slots::entrance, (&slots,), entrance),
    ensures
        entrance is Open,
{
}

/// A batch that gets no slot loses nobody, and nobody is asked anything: there are as many
/// deliveries as requests, and each caller is told, on its own channel and in order, that the wait
/// was too long.
pub proof fn law_a_batch_without_a_slot_tells_everyone<C: BatchCollector>(
    batch: Vec<Request<C>>,
    granted: bool,
    ledger: &mut Ledger<Reply<C>>,
    ran: Run<C>,
)
    requires
        call_ensures(run::<C>, (batch, granted, ledger), ran),
    ensures
        granted <==> ran is Dispatched,
        !granted ==> {
            &&& ran is Failed
            &&& final(ledger)@ == old(ledger)@
            &&& ran->Failed_0@.len() == batch@.len()
            &&& forall|i: int|
                #![trigger batch@[i]]
                0 <= i < batch@.len() ==> ran->Failed_0@[i].respond == batch@[i].respond
                    && ran->Failed_0@[i].reply is Err && ran->Failed_0@[i].reply->Err_0 is WaitingTimeout
        },
{
    if !granted {
        assert forall|i: int| #![trigger batch@[i]] 0 <= i < batch@.len() implies ran->Failed_0@[
        i].respond == batch@[i].respond && ran->Failed_0@[i].reply is Err
            && ran->Failed_0@[i].reply->Err_0 is WaitingTimeout by {
            assert(ran->Failed_0@[i].respond == batch@[i].respond);
        }
    }
}

/// A batch with a slot is served as a closed window is: it is skipped only if nobody waits, and
/// else downstream is called on behalf of exactly those who wait, in order.
pub proof fn law_a_batch_with_a_slot_is_served<C: BatchCollector>(
    batch: Vec<Request<C>>,
    ledger: &mut Ledger<Reply<C>>,
    ran: Run<C>,
)
    requires
        call_ensures(run::<C>, (batch, true, ledger), ran),
    ensures
        ({
            let looks = final(ledger)@;
            let start = old(ledger)@.len() as int;
            let dispatch = ran->Dispatched_0;
            &&& ran is Dispatched
            &&& looks.len() == start + batch@.len()
            &&& forall|k: int|
                0 <= k < batch@.len() ==> (#[trigger] looks[start + k]).respond == batch@[k].respond
            &&& dispatch is Skip <==> forall|k: int|
                0 <= k < batch@.len() ==> (#[trigger] looks[start + k]).closed
            &&& dispatch is Load ==> exists|at: Seq<int>| #[trigger]
                are_places(flags_from(looks, start), at) && at.len() == dispatch->waiters@.len()
                    && forall|i: int|
                    0 <= i < at.len() ==> #[trigger] dispatch->waiters@[i] == batch@[at[i]]
            &&& dispatch is Load ==> forall|input: C::Input| #[trigger]
                dispatch->inputs@.contains(input) <==> asks_for(dispatch->waiters@, input)
        }),
{
    let looks = final(ledger)@;
    let start = old(ledger)@.len() as int;
    let since = looks_since(old(ledger)@, looks);
    let closed = answers(since);
    assert forall|k: int| 0 <= k < batch@.len() implies (#[trigger] looks[start + k]).respond
        == batch@[k].respond && looks[start + k].closed == closed[k] by {
        assert(since[k].respond == channels(batch@)[k]);
    }
    assert(flags_from(looks, start) =~= closed);
    let at = law_kept_in_order(batch@, closed);
    assert(are_places(closed, at));
    let dispatch = ran->Dispatched_0;
    if dispatch is Skip {
        assert forall|k: int| 0 <= k < batch@.len() implies (#[trigger] looks[start + k]).closed by {
            if !closed[k] {
                assert(at.contains(k));
            }
        }
    } else {
        assert(!closed[at[0]]);
        assert(!looks[start + at[0]].closed);
        assert forall|i: int| 0 <= i < at.len() implies #[trigger] dispatch->waiters@[i]
            == batch@[at[i]] by {
            assert(0 <= at[i] < batch@.len());
        }
        assert forall|input: C::Input| #[trigger] dispatch->inputs@.contains(input) <==> asks_for(
            dispatch->waiters@,
            input,
        ) by {
            lemma_inputs_are_asked_for(dispatch->waiters@, input);
        }
    }
}

/// A configuration decides how batches wait: without a limit they run at once; with one they wait
/// for one of as many slots as it says, or as there can be, and as long as `max_waiting` says, or
/// for ever.
pub proof fn law_batches_wait_as_configured(config: BatchConfig, slots: Slots, entrance: Entrance)
    requires
        call_ensures(Slots::from_config, (&config,), slots),
        call_ensures(Slots::entrance, (&slots,), entrance),
    ensures
        entrance is Open <==> config.concurrency_limit is None,
        slots is Unlimited <==> config.concurrency_limit is None,
        entrance is Queue <==> config.concurrency_limit is Some && config.max_waiting is None,
        entrance is QueueWithin <==> config.concurrency_limit is Some && config.max_waiting is Some,
        entrance is QueueWithin ==> entrance->QueueWithin_0 == config.max_waiting->0,
        config.concurrency_limit is Some ==> {
            let limit = config.concurrency_limit->0.value();
            let made = slots->permits.slots();
            &&& made <= limit
            &&& made <= usize::MAX / 8
            &&& made == limit || made == usize::MAX / 8
        },
{
}

/// A limit is kept as it is wherever a gate can have so many slots, and more is never made of it.
pub proof fn law_slots_are_clamped(limit: usize, made: Gate)
    requires
        call_ensures(Gate::new, (limit,), made),
    ensures
        made.slots() <= limit,
        made.slots() <= usize::MAX / 8,
        limit <= usize::MAX / 8 ==> made.slots() == limit,
        limit > usize::MAX / 8 ==> made.slots() == usize::MAX / 8,
{
}

/// A waiting limit is warned of exactly where it has no effect: where it is set and batches run at
/// once all the same.
pub proof fn law_a_warning_means_no_effect(
    config: BatchConfig,
    slots: Slots,
    entrance: Entrance,
    warning: Option<&'static str>,
)
    requires
        call_ensures(Slots::from_config, (&config,), slots),
        call_ensures(Slots::entrance, (&slots,), entrance),
        call_ensures(warn_max_waiting_ignored, (&config,), warning),
    ensures
        warning is Some <==> config.max_waiting is Some && entrance is Open,
{
}

/// A clone of the slots limits as they do: it is the same semaphore, with as many slots, and the
/// same wait.
pub proof fn law_cloned_slots_are_the_same_slots(slots: Slots, copy: Slots, entrance: Entrance)
    requires
        call_ensures(Slots::clone, (&slots,), copy),
        call_ensures(Slots::entrance, (&copy,), entrance),
    ensures
        slots is Unlimited <==> copy is Unlimited,
        slots is Limited ==> copy->permits.semaphore() == slots->permits.semaphore()
            && copy->permits.slots() == slots->permits.slots() && copy->max_waiting
            == slots->max_waiting,
        entrance is Open <==> slots is Unlimited,
{
}

} // verus!
