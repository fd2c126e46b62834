//! One closed window becomes one downstream call, and its result goes back to every waiter.
use crate::collector::{is_identity, BatchCollector};
use crate::error::Error;
use crate::ledger::Ledger;
use crate::liveness;
use crate::liveness::{answers, are_places, flags_from, looked_at, looks_since, Line};
use crate::receipt;
use crate::receipt::Receipt;
use std::collections::{HashMap, HashSet};
use tokio::sync::oneshot;
use vstd::prelude::*;
use vstd::std_specs::iter::IteratorSpec;
use vstd::string::*;

verus! {

broadcast use vstd::std_specs::hash::group_hash_axioms;

/// What a waiting caller is told.
pub type Reply<C> = Result<<C as BatchCollector>::Output, Error<<C as BatchCollector>::Error>>;

/// The one-shot reply channel a waiting caller holds the other end of.
pub type Responder<C> = oneshot::Sender<
    Result<<C as BatchCollector>::Output, Error<<C as BatchCollector>::Error>>,
>;

/// One queued load: the input to fold into the batch and its reply channel.
#[verifier::reject_recursive_types(C)]
pub struct Request<C: BatchCollector> {
    pub input: C::Input,
    pub respond: Responder<C>,
}

/// One reply on its way to one caller.
#[verifier::reject_recursive_types(C)]
pub struct Delivery<C: BatchCollector> {
    pub respond: Responder<C>,
    pub reply: Reply<C>,
}

/// How the downstream call ended.
#[verifier::reject_recursive_types(C)]
pub enum Loaded<C: BatchCollector> {
    /// It outran its deadline.
    Elapsed,
    /// It panicked.
    Panicked,
    /// It failed.
    Failed(C::Error),
    /// It answered.
    Answered(HashMap<C::Input, C::Output>),
}

/// The requests of one window whose callers still wait, in arrival order.
#[verifier::reject_recursive_types(C)]
pub struct Waiters<C: BatchCollector> {
    requests: Vec<Request<C>>,
}

impl<C: BatchCollector> View for Waiters<C> {
    type V = Seq<Request<C>>;

    closed spec fn view(&self) -> Seq<Request<C>> {
        self.requests@
    }
}

/// The reply channels of some requests, in order.
pub open spec fn channels<C: BatchCollector>(requests: Seq<Request<C>>) -> Seq<Responder<C>> {
    requests.map_values(|request: Request<C>| request.respond)
}

impl<C: BatchCollector> Line<Reply<C>> for Vec<Request<C>> {
    open spec fn channels(&self) -> Seq<Responder<C>> {
        channels(self@)
    }

    fn length(&self) -> (length: usize) {
        self.len()
    }

    fn channel(&self, i: usize) -> (channel: &Responder<C>) {
        &self[i].respond
    }
}

/// The inputs that a sequence of requests asks for.
pub open spec fn inputs_of<C: BatchCollector>(requests: Seq<Request<C>>) -> Set<C::Input> {
    requests.map_values(|request: Request<C>| request.input).to_set()
}

/// How many inputs a response answers that nobody asked for.
pub open spec fn unknown_inputs<C: BatchCollector>(
    response: Map<C::Input, C::Output>,
    requested: Set<C::Input>,
) -> nat {
    response.dom().difference(requested).len()
}

/// What a waiter of `input` is told when the call that `requested` the inputs ended so.
/// An unknown input taints the whole batch, and wins over a missing one;
/// a missing input concerns its own waiters only.
pub open spec fn is_reply<C: BatchCollector>(
    loaded: Loaded<C>,
    requested: Set<C::Input>,
    input: C::Input,
    reply: Reply<C>,
) -> bool {
    match loaded {
        Loaded::Elapsed => reply matches Err(Error::Timeout),
        Loaded::Panicked => reply matches Err(Error::CollectorPanic),
        Loaded::Failed(e) => reply matches Err(Error::Collector(shared)) && cloned(e, shared),
        Loaded::Answered(response) => {
            let unknown = unknown_inputs::<C>(response@, requested);
            if unknown > 0 {
                reply matches Err(Error::ContractViolation { unknown_inputs }) && unknown_inputs
                    == unknown
            } else if response@.contains_key(input) {
                reply matches Ok(value) && cloned(response@[input], value)
            } else {
                reply matches Err(Error::MissingOutput)
            }
        },
    }
}

/// Each of `waiters` was handed its reply, on its own channel and in order.
pub open spec fn are_replies<C: BatchCollector>(
    waiters: Seq<Request<C>>,
    loaded: Loaded<C>,
    receipts: Seq<Receipt<Reply<C>>>,
) -> bool {
    &&& receipts.len() == waiters.len()
    &&& forall|i: int|
        #![trigger receipts[i]]
        0 <= i < waiters.len() ==> {
            &&& receipts[i].respond() == waiters[i].respond
            &&& is_reply(loaded, inputs_of(waiters), waiters[i].input, receipts[i].value())
        }
}

/// What a closed window calls for.
#[verifier::reject_recursive_types(C)]
pub enum Dispatch<C: BatchCollector> {
    /// Everyone left before it closed: downstream is not called.
    Skip,
    /// One downstream call for `inputs`; [`Waiters::settle`] takes it from there.
    Load { waiters: Waiters<C>, inputs: HashSet<C::Input> },
}

/// Collapses a closed window into at most one downstream call.
/// Callers that left are skipped, equal inputs become one entry.
pub fn dispatch_window<C: BatchCollector>(
    batch: Vec<Request<C>>,
    ledger: &mut Ledger<Reply<C>>,
) -> (dispatch: Dispatch<C>)
    requires
        is_identity::<C::Input>(),
    ensures
        looked_at(old(ledger)@, final(ledger)@, channels(batch@)),
        is_dispatch(batch@, answers(looks_since(old(ledger)@, final(ledger)@)), dispatch),
{
    Waiters::gather(batch, ledger).dispatch()
}

/// What one [`dispatch_window`] made of a window, given what it read of the reply channels.
pub open spec fn is_dispatch<C: BatchCollector>(
    batch: Seq<Request<C>>,
    closed: Seq<bool>,
    dispatch: Dispatch<C>,
) -> bool {
    let live = liveness::kept(batch, closed);
    &&& closed.len() == batch.len()
    &&& match dispatch {
        Dispatch::Skip => live.len() == 0,
        Dispatch::Load { waiters, inputs } => live.len() > 0 && waiters@ == live && inputs@
            == inputs_of(live),
    }
}

/// Hands one reply to its channel.
pub fn deliver<C: BatchCollector>(delivery: Delivery<C>) -> (receipt: Receipt<Reply<C>>)
    ensures
        receipt.respond() == delivery.respond,
        receipt.value() == delivery.reply,
{
    receipt::send(delivery.respond, delivery.reply)
}

/// Hands every reply to its own channel, in order.
pub fn deliver_all<C: BatchCollector>(deliveries: Vec<Delivery<C>>) -> (receipts: Vec<
    Receipt<Reply<C>>,
>)
    ensures
        receipts@.len() == deliveries@.len(),
        forall|i: int|
            #![trigger receipts@[i]]
            0 <= i < receipts@.len() ==> receipts@[i].respond() == deliveries@[i].respond
                && receipts@[i].value() == deliveries@[i].reply,
{
    let ghost all = deliveries@;
    let mut receipts: Vec<Receipt<Reply<C>>> = Vec::new();
    for delivery in iter: deliveries
        invariant
            iter.seq() == all,
            receipts@.len() == iter.index(),
            forall|i: int|
                #![trigger receipts@[i]]
                0 <= i < receipts@.len() ==> receipts@[i].respond() == all[i].respond
                    && receipts@[i].value() == all[i].reply,
    {
        receipts.push(deliver(delivery));
    }
    receipts
}

/// The text logged for a reply nobody was there to take.
pub open spec fn dropped_warning() -> Seq<char> {
    "carpool: dropped a load result because its caller went away"@
}

/// A caller that cancelled is benign, but its lost result is never silently ignored:
/// the text to log, unless the result was delivered.
pub fn warn_if_dropped(delivered: bool) -> (warning: Option<&'static str>)
    ensures
        warning is None <==> delivered,
        warning matches Some(text) ==> text@ == dropped_warning(),
{
    if delivered {
        None
    } else {
        Some("carpool: dropped a load result because its caller went away")
    }
}

/// The text logged for a downstream call that panicked.
pub fn warn_collector_panicked(cause: &str) -> (warning: String)
    ensures
        warning@ == "carpool: the collector panicked while loading a batch: "@ + cause@,
{
    let mut warning: String = "carpool: the collector panicked while loading a batch: ".to_owned();
    warning.append(cause);
    warning
}

impl<C: BatchCollector> Waiters<C> {
    /// The requests of `batch` whose callers still wait. A caller that left is skipped,
    /// so an input nobody waits for never reaches downstream.
    pub fn gather(batch: Vec<Request<C>>, ledger: &mut Ledger<Reply<C>>) -> (waiters: Self)
        ensures
            looked_at(old(ledger)@, final(ledger)@, channels(batch@)),
            waiters@ == liveness::kept(
                batch@,
                answers(looks_since(old(ledger)@, final(ledger)@)),
            ),
    {
        let closed = ledger.survey(&batch, usize::MAX);
        proof {
            assert(channels(batch@).take(closed@.len() as int) =~= channels(batch@));
        }
        Waiters::gather_observed(batch, &closed)
    }

    /// [`Waiters::gather`] for a given reading of the channels:
    /// `closed[i]` says whether the caller of the `i`-th request left.
    pub fn gather_observed(batch: Vec<Request<C>>, closed: &Vec<bool>) -> (waiters: Self)
        requires
            closed@.len() == batch@.len(),
        ensures
            waiters@ == liveness::kept(batch@, closed@),
    {
        let ghost all = batch@;
        let mut requests: Vec<Request<C>> = Vec::new();
        let mut i: usize = 0;
        for request in iter: batch
            invariant
                i == iter.index(),
                iter.seq() == all,
                closed.len() == all.len(),
                requests@ == liveness::kept(all.take(i as int), closed@.take(i as int)),
        {
            proof {
                assert(all.take(i + 1).drop_last() =~= all.take(i as int));
                assert(closed@.take(i + 1).drop_last() =~= closed@.take(i as int));
            }
            if !closed[i] {
                requests.push(request);
            }
            i = i + 1;
        }
        proof {
            assert(all.take(i as int) =~= all);
            assert(closed@.take(i as int) =~= closed@);
        }
        Waiters { requests }
    }

    /// Whether nobody waits: then downstream is not called at all.
    pub fn is_empty(&self) -> (empty: bool)
        ensures
            empty == (self@.len() == 0),
    {
        self.requests.len() == 0
    }

    /// The downstream call these waiters need, if any waits.
    pub fn dispatch(self) -> (dispatch: Dispatch<C>)
        requires
            is_identity::<C::Input>(),
        ensures
            match dispatch {
                Dispatch::Skip => self@.len() == 0,
                Dispatch::Load { waiters, inputs } => self@.len() > 0 && waiters == self && inputs@
                    == inputs_of(self@),
            },
    {
        if self.is_empty() {
            return Dispatch::Skip;
        }
        let inputs = self.requested();
        Dispatch::Load { waiters: self, inputs }
    }

    /// The distinct inputs to ask downstream for: equal inputs collapse to one entry.
    pub fn requested(&self) -> (inputs: HashSet<C::Input>)
        requires
            is_identity::<C::Input>(),
        ensures
            inputs@ == inputs_of(self@),
    {
        let mut inputs: HashSet<C::Input> = HashSet::new();
        let mut i: usize = 0;
        proof {
            assert(inputs@ =~= inputs_of(self@.take(0)));
        }
        while i < self.requests.len()
            invariant
                is_identity::<C::Input>(),
                i <= self@.len(),
                inputs@ == inputs_of(self@.take(i as int)),
            decreases self@.len() - i,
        {
            let input = self.requests[i].input.clone();
            proof {
                assert(cloned(self.requests@[i as int].input, input));
                lemma_inputs_of_push(self@.take(i as int), self@[i as int]);
                assert(self@.take(i as int).push(self@[i as int]) =~= self@.take(i + 1));
            }
            inputs.insert(input);
            i = i + 1;
        }
        proof {
            assert(self@.take(i as int) =~= self@);
        }
        inputs
    }

    /// What each waiter is told once the downstream call for [`Waiters::requested`] ended:
    /// one reply per waiter, on that waiter's own channel.
    pub fn settle(self, loaded: Loaded<C>) -> (deliveries: Vec<Delivery<C>>)
        requires
            is_identity::<C::Input>(),
        ensures
            deliveries@.len() == self@.len(),
            forall|i: int|
                #![trigger deliveries@[i]]
                0 <= i < self@.len() ==> {
                    &&& deliveries@[i].respond == self@[i].respond
                    &&& is_reply(loaded, inputs_of(self@), self@[i].input, deliveries@[i].reply)
                },
    {
        let verdict = match loaded {
            Loaded::Elapsed => Err(Error::Timeout),
            Loaded::Panicked => Err(Error::CollectorPanic),
            Loaded::Failed(e) => Err(Error::Collector(e)),
            Loaded::Answered(response) => {
                let unknown = self.count_unknown(&response);
                if unknown > 0 {
                    Err(Error::ContractViolation { unknown_inputs: unknown })
                } else {
                    Ok(response)
                }
            },
        };
        match verdict {
            Err(error) => fail_batch(self.requests, error),
            Ok(response) => self.hand_out(&response),
        }
    }

    /// Tells each waiter once the downstream call for [`Waiters::requested`] ended: one reply per
    /// waiter, handed to that waiter's own channel.
    pub fn reply_all(self, loaded: Loaded<C>) -> (receipts: Vec<Receipt<Reply<C>>>)
        requires
            is_identity::<C::Input>(),
        ensures
            are_replies(self@, loaded, receipts@),
    {
        let deliveries = self.settle(loaded);
        let ghost all = deliveries@;
        let receipts = deliver_all(deliveries);
        proof {
            assert forall|i: int| #![trigger receipts@[i]] 0 <= i < self@.len() implies {
                &&& receipts@[i].respond() == self@[i].respond
                &&& is_reply(loaded, inputs_of(self@), self@[i].input, receipts@[i].value())
            } by {
                assert(receipts@[i].value() == all[i].reply);
            }
        }
        receipts
    }

    /// How many inputs `response` answers that no waiter asked for.
    fn count_unknown(&self, response: &HashMap<C::Input, C::Output>) -> (unknown: usize)
        requires
            is_identity::<C::Input>(),
        ensures
            unknown == unknown_inputs::<C>(response@, inputs_of(self@)),
    {
        let requested = self.requested();
        let total = response.len();
        let mut unknown: usize = 0;
        let keys = response.keys();
        let ghost all = keys.remaining().unref();
        proof {
            assert(all.take(0).to_set().difference(requested@) =~= Set::empty());
        }
        for input in walk: keys
            invariant
                is_identity::<C::Input>(),
                total == response@.len(),
                walk.seq().unref() == all,
                walk.seq().len() == all.len(),
                all.no_duplicates(),
                all.len() == response@.dom().len(),
                unknown <= walk.index(),
                unknown == all.take(walk.index() as int).to_set().difference(requested@).len(),
        {
            proof {
                lemma_difference_step(all, walk.index() as int, requested@);
            }
            if !requested.contains(input) {
                unknown = unknown + 1;
            }
        }
        proof {
            assert(all.take(all.len() as int) =~= all);
            assert(all.to_set() =~= response@.dom());
        }
        unknown
    }

    /// Each waiter's own clone of the value for its input, or the addressed error.
    fn hand_out(self, response: &HashMap<C::Input, C::Output>) -> (deliveries: Vec<Delivery<C>>)
        requires
            is_identity::<C::Input>(),
        ensures
            deliveries@.len() == self@.len(),
            forall|i: int|
                #![trigger deliveries@[i]]
                0 <= i < self@.len() ==> {
                    &&& deliveries@[i].respond == self@[i].respond
                    &&& if response@.contains_key(self@[i].input) {
                        deliveries@[i].reply matches Ok(value) && cloned(
                            response@[self@[i].input],
                            value,
                        )
                    } else {
                        deliveries@[i].reply matches Err(Error::MissingOutput)
                    }
                },
    {
        let ghost all = self@;
        let mut deliveries: Vec<Delivery<C>> = Vec::new();
        for request in iter: self.requests
            invariant
                is_identity::<C::Input>(),
                iter.seq() == all,
                deliveries@.len() == iter.index(),
                forall|i: int|
                    #![trigger deliveries@[i]]
                    0 <= i < iter.index() ==> {
                        &&& deliveries@[i].respond == all[i].respond
                        &&& if response@.contains_key(all[i].input) {
                            deliveries@[i].reply matches Ok(value) && cloned(
                                response@[all[i].input],
                                value,
                            )
                        } else {
                            deliveries@[i].reply matches Err(Error::MissingOutput)
                        }
                    },
        {
            let reply = match response.get(&request.input) {
                Some(value) => Ok(value.clone()),
                None => Err(Error::MissingOutput),
            };
            deliveries.push(Delivery { respond: request.respond, reply });
        }
        deliveries
    }
}

/// The same error for every request of a batch, whether or not its caller still waits:
/// what a batch gets that is dropped before downstream is called.
pub fn fail_batch<C: BatchCollector>(batch: Vec<Request<C>>, error: Error<C::Error>) -> (deliveries:
    Vec<Delivery<C>>)
    ensures
        deliveries@.len() == batch@.len(),
        forall|i: int|
            #![trigger deliveries@[i]]
            0 <= i < batch@.len() ==> {
                &&& deliveries@[i].respond == batch@[i].respond
                &&& deliveries@[i].reply matches Err(copy) && Error::is_clone(error, copy)
            },
{
    let ghost all = batch@;
    let mut deliveries: Vec<Delivery<C>> = Vec::new();
    for request in iter: batch
        invariant
            iter.seq() == all,
            deliveries@.len() == iter.index(),
            forall|i: int|
                #![trigger deliveries@[i]]
                0 <= i < iter.index() ==> {
                    &&& deliveries@[i].respond == all[i].respond
                    &&& deliveries@[i].reply matches Err(copy) && Error::is_clone(error, copy)
                },
    {
        deliveries.push(Delivery { respond: request.respond, reply: Err(error.clone()) });
    }
    deliveries
}

/// One more request asks for one more input, or for one that was asked for already.
proof fn lemma_inputs_of_push<C: BatchCollector>(requests: Seq<Request<C>>, request: Request<C>)
    ensures
        inputs_of(requests.push(request)) == inputs_of(requests).insert(request.input),
{
    let f = |request: Request<C>| request.input;
    assert(requests.push(request).map_values(f) =~= requests.map_values(f).push(request.input));
    let before = requests.map_values(f);
    assert(before.push(request.input).to_set() =~= before.to_set().insert(request.input)) by {
        broadcast use vstd::seq_lib::group_seq_properties;
        assert forall|x: C::Input| before.to_set().insert(request.input).contains(x) implies before.push(
            request.input,
        ).contains(x) by {
            if before.contains(x) {
                let k = before.index_of(x);
                assert(before.push(request.input)[k] == x);
            } else {
                assert(before.push(request.input)[before.len() as int] == x);
            }
        }
    }
}

/// Walking a sequence without duplicates meets each element outside `known` once.
proof fn lemma_difference_step<T>(items: Seq<T>, i: int, known: Set<T>)
    requires
        0 <= i < items.len(),
        items.no_duplicates(),
    ensures
        items.take(i + 1).to_set().difference(known).len() == items.take(i).to_set().difference(
            known,
        ).len() + if known.contains(items[i]) {
            0nat
        } else {
            1nat
        },
{
    let before = items.take(i).to_set().difference(known);
    let after = items.take(i + 1).to_set().difference(known);
    assert forall|x: T| items.take(i + 1).contains(x) <==> items.take(i).contains(x) || x
        == items[i] by {
        if items.take(i).contains(x) {
            let k = items.take(i).index_of(x);
            assert(items.take(i + 1)[k] == x);
        }
        if x == items[i] {
            assert(items.take(i + 1)[i] == x);
        }
        if items.take(i + 1).contains(x) && x != items[i] {
            let k = items.take(i + 1).index_of(x);
            assert(items.take(i)[k] == x);
        }
    }
    assert(!items.take(i).contains(items[i]));
    broadcast use vstd::seq_lib::seq_to_set_is_finite;
    if known.contains(items[i]) {
        assert(after =~= before);
    } else {
        assert(after =~= before.insert(items[i]));
    }
}

/// An input reaches downstream exactly when somebody still waits for it:
/// an abandoned input does not, and one caller leaving takes nothing from the others.
pub proof fn law_requested_iff_awaited<C: BatchCollector>(
    batch: Seq<Request<C>>,
    closed: Seq<bool>,
    input: C::Input,
)
    requires
        closed.len() == batch.len(),
    ensures
        inputs_of(liveness::kept(batch, closed)).contains(input) <==> exists|k: int|
            0 <= k < batch.len() && !closed[k] && #[trigger] batch[k].input == input,
{
    let live = liveness::kept(batch, closed);
    let asked = live.map_values(|request: Request<C>| request.input);
    let at = liveness::law_kept_in_order(batch, closed);
    if asked.contains(input) {
        let i = asked.index_of(input);
        assert(live[i] == batch[at[i]]);
        assert(batch[at[i]].input == input);
    }
    if exists|k: int| 0 <= k < batch.len() && !closed[k] && #[trigger] batch[k].input == input {
        let k = choose|k: int|
            0 <= k < batch.len() && !closed[k] && #[trigger] batch[k].input == input;
        assert(at.contains(k));
        let i = at.index_of(k);
        assert(live[i] == batch[at[i]]);
        assert(asked[i] == input);
    }
}

/// Duplicate inputs share one result: two waiters of one input are told the same.
pub proof fn law_equal_inputs_share_the_reply<C: BatchCollector>(
    loaded: Loaded<C>,
    requested: Set<C::Input>,
    input: C::Input,
    first: Reply<C>,
    second: Reply<C>,
)
    requires
        is_reply(loaded, requested, input, first),
        is_reply(loaded, requested, input, second),
        forall|a: C::Output, b: C::Output| #[trigger] cloned(a, b) ==> a == b,
        forall|a: C::Error, b: C::Error| #[trigger] cloned(a, b) ==> a == b,
    ensures
        first == second,
{
}

/// An input nobody asked for taints the whole batch:
/// every waiter is told of the violation, even where its own answer is there or is missing.
pub proof fn law_unknown_input_taints_the_batch<C: BatchCollector>(
    response: HashMap<C::Input, C::Output>,
    requested: Set<C::Input>,
    stray: C::Input,
    input: C::Input,
    reply: Reply<C>,
)
    requires
        response@.contains_key(stray),
        !requested.contains(stray),
        is_reply(Loaded::<C>::Answered(response), requested, input, reply),
    ensures
        reply is Err,
        reply->Err_0 is ContractViolation,
        reply->Err_0->unknown_inputs == unknown_inputs::<C>(response@, requested),
        unknown_inputs::<C>(response@, requested) > 0,
{
    let unknown = response@.dom().difference(requested);
    assert(unknown.contains(stray));
}

/// When a response holds nothing unknown, a missing input is told to its own waiters only,
/// and everyone else gets the value for its input.
pub proof fn law_missing_input_concerns_its_own_waiters<C: BatchCollector>(
    response: HashMap<C::Input, C::Output>,
    requested: Set<C::Input>,
    input: C::Input,
    reply: Reply<C>,
)
    requires
        response@.dom().subset_of(requested),
        is_reply(Loaded::<C>::Answered(response), requested, input, reply),
    ensures
        reply is Ok <==> response@.contains_key(input),
        reply is Err ==> reply->Err_0 is MissingOutput,
        reply is Ok ==> cloned(response@[input], reply->Ok_0),
{
    assert(response@.dom().difference(requested) =~= Set::empty());
}

/// A call that timed out, panicked or failed is told to every waiter alike.
pub proof fn law_failed_call_reaches_every_waiter<C: BatchCollector>(
    loaded: Loaded<C>,
    requested: Set<C::Input>,
    input: C::Input,
    reply: Reply<C>,
)
    requires
        !(loaded is Answered),
        is_reply(loaded, requested, input, reply),
    ensures
        reply is Err,
        loaded is Elapsed <==> reply->Err_0 is Timeout,
        loaded is Panicked <==> reply->Err_0 is CollectorPanic,
        loaded is Failed <==> reply->Err_0 is Collector,
{
}

/// Whether one of these requests asks for `input`.
pub open spec fn asks_for<C: BatchCollector>(
    requests: Seq<Request<C>>,
    input: C::Input,
) -> bool {
    exists|k: int| 0 <= k < requests.len() && #[trigger] requests[k].input == input
}

/// The set of inputs holds what is asked for and nothing else.
pub proof fn lemma_inputs_are_asked_for<C: BatchCollector>(requests: Seq<Request<C>>, input: C::Input)
    ensures
        inputs_of(requests).contains(input) <==> asks_for(requests, input),
{
    let asked = requests.map_values(|request: Request<C>| request.input);
    if asked.contains(input) {
        let k = asked.index_of(input);
        assert(requests[k].input == input);
    }
    if asks_for(requests, input) {
        let k = choose|k: int| 0 <= k < requests.len() && #[trigger] requests[k].input == input;
        assert(asked[k] == input);
    }
}

/// What is left of requests after asking their callers: those at the places of the waiting.
proof fn lemma_kept_at_places<T>(items: Seq<T>, closed: Seq<bool>) -> (at: Seq<int>)
    requires
        items.len() == closed.len(),
    ensures
        are_places(closed, at),
        at.len() == liveness::kept(items, closed).len(),
        forall|i: int|
            0 <= i < at.len() ==> #[trigger] liveness::kept(items, closed)[i] == items[at[i]],
{
    let at = liveness::law_kept_in_order(items, closed);
    assert forall|i: int| 0 <= i < at.len() implies #[trigger] liveness::kept(items, closed)[i]
        == items[at[i]] by {
        assert(0 <= at[i] < items.len());
    }
    at
}

/// Gathering asks every caller of a batch once, in order, and keeps exactly the requests of those
/// found waiting, in order.
pub proof fn law_gathering_keeps_who_waits<C: BatchCollector>(
    batch: Vec<Request<C>>,
    ledger: &mut Ledger<Reply<C>>,
    waiters: Waiters<C>,
)
    requires
        call_ensures(Waiters::<C>::gather, (batch, ledger), waiters),
    ensures
        ({
            let looks = final(ledger)@;
            let start = old(ledger)@.len() as int;
            &&& looks.len() == start + batch@.len()
            &&& looks.take(start) == old(ledger)@
            &&& forall|k: int|
                0 <= k < batch@.len() ==> (#[trigger] looks[start + k]).respond == batch@[k].respond
            &&& exists|at: Seq<int>| #[trigger]
                are_places(flags_from(looks, start), at) && at.len() == waiters@.len()
                    && forall|i: int| 0 <= i < at.len() ==> #[trigger] waiters@[i] == batch@[at[i]]
        }),
{
    let looks = final(ledger)@;
    let start = old(ledger)@.len() as int;
    let since = looks_since(old(ledger)@, looks);
    assert forall|k: int| 0 <= k < batch@.len() implies (#[trigger] looks[start + k]).respond
        == batch@[k].respond by {
        assert(since[k].respond == channels(batch@)[k]);
    }
    assert(flags_from(looks, start) =~= answers(since));
    let at = lemma_kept_at_places(batch@, answers(since));
}

/// Gathering from given readings keeps exactly the requests read as waiting, in order.
pub proof fn law_gathering_goes_by_the_readings<C: BatchCollector>(
    batch: Vec<Request<C>>,
    closed: Vec<bool>,
    waiters: Waiters<C>,
)
    requires
        call_ensures(Waiters::<C>::gather_observed, (batch, &closed), waiters),
        closed@.len() == batch@.len(),
    ensures
        exists|at: Seq<int>| #[trigger]
            are_places(closed@, at) && at.len() == waiters@.len() && forall|i: int|
                0 <= i < at.len() ==> #[trigger] waiters@[i] == batch@[at[i]],
{
    let at = lemma_kept_at_places(batch@, closed@);
}

/// Waiters ask downstream for exactly what they wait for, and not at all if there are none.
pub proof fn law_waiters_ask_for_what_they_wait_for<C: BatchCollector>(
    waiters: Waiters<C>,
    dispatch: Dispatch<C>,
    requested: HashSet<C::Input>,
    empty: bool,
)
    requires
        call_ensures(Waiters::<C>::dispatch, (waiters,), dispatch),
        call_ensures(Waiters::<C>::requested, (&waiters,), requested),
        call_ensures(Waiters::<C>::is_empty, (&waiters,), empty),
    ensures
        empty <==> waiters@.len() == 0,
        dispatch is Skip <==> waiters@.len() == 0,
        dispatch is Load ==> dispatch->waiters@ == waiters@,
        forall|input: C::Input| #[trigger]
            requested@.contains(input) <==> asks_for(waiters@, input),
        dispatch is Load ==> forall|input: C::Input| #[trigger]
            dispatch->inputs@.contains(input) <==> asks_for(waiters@, input),
{
    assert forall|input: C::Input| #[trigger] requested@.contains(input) <==> asks_for(
        waiters@,
        input,
    ) by {
        lemma_inputs_are_asked_for(waiters@, input);
    }
    if dispatch is Load {
        assert forall|input: C::Input| #[trigger] dispatch->inputs@.contains(input) <==> asks_for(
            waiters@,
            input,
        ) by {
            lemma_inputs_are_asked_for(waiters@, input);
        }
    }
}

/// A window is skipped only if no caller of it waits. If one does, downstream is called: for
/// exactly the inputs that somebody waits for, and on behalf of exactly those who wait, in order.
pub proof fn law_a_window_is_skipped_only_if_nobody_waits<C: BatchCollector>(
    batch: Vec<Request<C>>,
    ledger: &mut Ledger<Reply<C>>,
    dispatch: Dispatch<C>,
)
    requires
        call_ensures(dispatch_window::<C>, (batch, ledger), dispatch),
    ensures
        ({
            let looks = final(ledger)@;
            let start = old(ledger)@.len() as int;
            &&& looks.len() == start + batch@.len()
            &&& looks.take(start) == old(ledger)@
            &&& forall|k: int|
                0 <= k < batch@.len() ==> (#[trigger] looks[start + k]).respond == batch@[k].respond
            &&& dispatch is Skip <==> forall|k: int|
                0 <= k < batch@.len() ==> (#[trigger] looks[start + k]).closed
            &&& dispatch is Load ==> exists|at: Seq<int>| #[trigger]
                are_places(flags_from(looks, start), at) && at.len() == dispatch->waiters@.len()
                    && forall|i: int|
                    0 <= i < at.len() ==> #[trigger] dispatch->waiters@[i] == batch@[at[i]]
            &&& dispatch is Load ==> forall|input: C::Input| #[trigger]
                dispatch->inputs@.contains(input) <==> exists|k: int|
                    0 <= k < batch@.len() && !looks[start + k].closed && #[trigger] batch@[k].input
                        == input
        }),
{
    let looks = final(ledger)@;
    let start = old(ledger)@.len() as int;
    let since = looks_since(old(ledger)@, looks);
    let closed = answers(since);
    assert forall|k: int| 0 <= k < batch@.len() implies (#[trigger] looks[start + k]).respond
        == batch@[k].respond && looks[start + k].closed == closed[k] by {
        assert(since[k].respond == channels(batch@)[k]);
    }
    assert(flags_from(looks, start) =~= closed);
    let at = lemma_kept_at_places(batch@, closed);
    if dispatch is Skip {
        assert forall|k: int| 0 <= k < batch@.len() implies (#[trigger] looks[start + k]).closed by {
            if !closed[k] {
                assert(at.contains(k));
            }
        }
    } else {
        assert(!closed[at[0]]);
        assert(!looks[start + at[0]].closed);
        assert forall|input: C::Input| #[trigger] dispatch->inputs@.contains(input) <==> exists|
            k: int,
        |
            0 <= k < batch@.len() && !looks[start + k].closed && #[trigger] batch@[k].input
                == input by {
            law_requested_iff_awaited(batch@, closed, input);
            if exists|k: int|
                0 <= k < batch@.len() && !closed[k] && #[trigger] batch@[k].input == input {
                let k = choose|k: int|
                    0 <= k < batch@.len() && !closed[k] && #[trigger] batch@[k].input == input;
                assert(!looks[start + k].closed && batch@[k].input == input);
            }
            if exists|k: int|
                0 <= k < batch@.len() && !looks[start + k].closed && #[trigger] batch@[k].input
                    == input {
                let k = choose|k: int|
                    0 <= k < batch@.len() && !looks[start + k].closed && #[trigger] batch@[k].input
                        == input;
                assert(!closed[k] && batch@[k].input == input);
            }
        }
    }
}

/// The inputs of a response that none of the waiters asked for.
pub open spec fn strays<C: BatchCollector>(
    response: Map<C::Input, C::Output>,
    waiters: Seq<Request<C>>,
) -> Set<C::Input> {
    response.dom().filter(|input: C::Input| !asks_for(waiters, input))
}

/// What each waiter is told, for every end of the downstream call.
///
/// One reply goes to each waiter, on its own channel. A call that outran its deadline, panicked or
/// failed is told to all. So is a response with inputs that nobody asked for, and how many there
/// are. Of any other response, a waiter gets the value for its own input, or is told that there is
/// none.
pub proof fn law_every_waiter_is_told_what_its_input_came_to<C: BatchCollector>(
    waiters: Waiters<C>,
    loaded: Loaded<C>,
    deliveries: Vec<Delivery<C>>,
    receipts: Vec<Receipt<Reply<C>>>,
    i: int,
)
    requires
        call_ensures(Waiters::<C>::settle, (waiters, loaded), deliveries),
        call_ensures(Waiters::<C>::reply_all, (waiters, loaded), receipts),
        0 <= i < waiters@.len(),
    ensures
        deliveries@.len() == waiters@.len(),
        receipts@.len() == waiters@.len(),
        deliveries@[i].respond == waiters@[i].respond,
        receipts@[i].respond() == waiters@[i].respond,
        forall|reply: Reply<C>|
            #![trigger reply is Ok]
            reply == deliveries@[i].reply || reply == receipts@[i].value() ==> {
                &&& loaded is Elapsed ==> reply is Err && reply->Err_0 is Timeout
                &&& loaded is Panicked ==> reply is Err && reply->Err_0 is CollectorPanic
                &&& loaded is Failed ==> reply is Err && reply->Err_0 is Collector && cloned(
                    loaded->Failed_0,
                    reply->Err_0->Collector_0,
                )
                &&& loaded is Answered ==> {
                    let response = loaded->Answered_0@;
                    let input = waiters@[i].input;
                    &&& strays(response, waiters@).len() > 0 ==> reply is Err
                        && reply->Err_0 is ContractViolation && reply->Err_0->unknown_inputs
                        == strays(response, waiters@).len()
                    &&& strays(response, waiters@).len() == 0 && response.contains_key(input)
                        ==> reply is Ok && cloned(response[input], reply->Ok_0)
                    &&& strays(response, waiters@).len() == 0 && !response.contains_key(input)
                        ==> reply is Err && reply->Err_0 is MissingOutput
                }
            },
{
    assert(deliveries@[i].respond == waiters@[i].respond);
    assert(receipts@[i].respond() == waiters@[i].respond);
    if let Loaded::Answered(response) = loaded {
        let unknown = response@.dom().difference(inputs_of(waiters@));
        assert forall|input: C::Input| strays(response@, waiters@).contains(input)
            <==> unknown.contains(input) by {
            lemma_inputs_are_asked_for(waiters@, input);
        }
        assert(strays(response@, waiters@) =~= unknown);
    }
}

/// A failed batch loses nobody: every request of it gets the error, each on its own channel and in
/// order, and what is handed to the channels is what was to be delivered.
pub proof fn law_a_failed_batch_tells_everyone<C: BatchCollector>(
    batch: Vec<Request<C>>,
    error: Error<C::Error>,
    deliveries: Vec<Delivery<C>>,
    receipts: Vec<Receipt<Reply<C>>>,
    i: int,
)
    requires
        call_ensures(fail_batch::<C>, (batch, error), deliveries),
        call_ensures(deliver_all::<C>, (deliveries,), receipts),
        0 <= i < batch@.len(),
    ensures
        deliveries@.len() == batch@.len(),
        receipts@.len() == batch@.len(),
        receipts@[i].respond() == batch@[i].respond,
        receipts@[i].value() is Err,
        match error {
            Error::Collector(cause) => receipts@[i].value()->Err_0 is Collector && cloned(
                cause,
                receipts@[i].value()->Err_0->Collector_0,
            ),
            other => receipts@[i].value()->Err_0 == other,
        },
        receipts@[i].value() == deliveries@[i].reply,
{
    assert(deliveries@[i].respond == batch@[i].respond);
    assert(receipts@[i].value() == deliveries@[i].reply);
}

/// A delivery hands its reply to its channel, and only a reply that nobody took is worth a
/// warning.
pub proof fn law_only_lost_replies_are_warned_of<C: BatchCollector>(
    delivery: Delivery<C>,
    receipt: Receipt<Reply<C>>,
    delivered: bool,
    warning: Option<&'static str>,
)
    requires
        call_ensures(deliver::<C>, (delivery,), receipt),
        call_ensures(Receipt::<Reply<C>>::delivered, (&receipt,), delivered),
        call_ensures(warn_if_dropped, (delivered,), warning),
    ensures
        receipt.respond() == delivery.respond,
        receipt.value() == delivery.reply,
        warning is Some <==> !receipt.is_delivered(),
{
}

/// A panic is logged with its cause, whatever it is.
pub proof fn law_a_panic_is_logged_with_its_cause(cause: &str, warning: String)
    requires
        call_ensures(warn_collector_panicked, (cause,), warning),
    ensures
        warning@ == "carpool: the collector panicked while loading a batch: "@ + cause@,
{
}

} // verus!
