//! Single-flight: concurrent calls of one input share one fetch.
//!
//! A flight lives while at least one caller waits for it. Its registry entry is checked out
//! when it lands or folds, which frees the input for the next call.
use crate::collector::is_identity;
use crate::error::DedupError;
use crate::fetcher::Fetcher;
use crate::flight;
use crate::flight::{Announcement, Channel, Flight, Waiter};
use crate::source::{Source, Supply};
use std::collections::HashMap;
use vstd::prelude::*;
use vstd::std_specs::hash::obeys_key_model;

verus! {

broadcast use vstd::std_specs::hash::group_hash_axioms;

/// What a caller is told.
pub type Outcome<F> = Result<<F as Fetcher>::Output, DedupError<<F as Fetcher>::Error>>;

/// An outcome on a flight's channel, which every caller gets a clone of.
#[verifier::reject_recursive_types(F)]
pub struct Shared<F: Fetcher> {
    pub outcome: Outcome<F>,
}

/// `copy` is what a caller may be told of `outcome`: the value cloned, or the error with its cause
/// cloned.
pub open spec fn is_share<F: Fetcher>(outcome: Outcome<F>, copy: Outcome<F>) -> bool {
    match outcome {
        Ok(value) => copy is Ok && cloned(value, copy->Ok_0),
        Err(error) => copy is Err && DedupError::is_clone(error, copy->Err_0),
    }
}

impl<F: Fetcher> Clone for Shared<F> {
    fn clone(&self) -> (copy: Self)
        ensures
            is_share::<F>(self.outcome, copy.outcome),
    {
        let outcome = match &self.outcome {
            Ok(value) => Ok(value.clone()),
            Err(error) => Err(error.clone()),
        };
        Shared { outcome }
    }
}

/// The registry entry of a flight.
pub type Entry<F> = Channel<Shared<F>>;

/// The flights in the air, at most one per input.
#[verifier::reject_recursive_types(F)]
pub struct Deduplicator<F: Fetcher> {
    supply: Supply<F>,
    entries: HashMap<F::Input, Entry<F>>,
}

impl<F: Fetcher> View for Deduplicator<F> {
    type V = Map<F::Input, Entry<F>>;

    closed spec fn view(&self) -> Map<F::Input, Entry<F>> {
        self.entries@
    }
}

/// A call that has not found its flight yet. It carries the input twice, so that no clone and
/// no drop of an input happens while the registry is held.
#[verifier::reject_recursive_types(F)]
pub struct Ticket<F: Fetcher> {
    input: F::Input,
    for_flight: F::Input,
}

impl<F: Fetcher> Ticket<F> {
    #[verifier::type_invariant]
    spec fn both_alike(self) -> bool {
        self.input == self.for_flight
    }

    /// The input that is called.
    pub closed spec fn input(&self) -> F::Input {
        self.input
    }

    /// A call of `input`.
    pub fn new(input: F::Input) -> (ticket: Self)
        requires
            is_identity::<F::Input>(),
        ensures
            ticket.input() == input,
    {
        let for_flight = input.clone();
        assert(cloned(input, for_flight));
        Ticket { input, for_flight }
    }
}

/// How a call came to its flight.
#[verifier::reject_recursive_types(F)]
pub enum Joined<F: Fetcher> {
    /// It joined the flight in the air and left its ticket over.
    Follower { waiter: Waiter<Shared<F>>, ticket: Ticket<F> },
    /// It opened the flight, which has to be flown with `checkout` and `flight`.
    Leader { waiter: Waiter<Shared<F>>, checkout: Checkout<F>, flight: Flight<Shared<F>> },
}

impl<F: Fetcher> Joined<F> {
    /// The listener that will hear the outcome.
    pub open spec fn waiter(self) -> Waiter<Shared<F>> {
        match self {
            Joined::Follower { waiter, .. } => waiter,
            Joined::Leader { waiter, .. } => waiter,
        }
    }
}

/// What one call does to the registry, and how it comes to its flight: it joins the flight of
/// its input, or opens one.
pub open spec fn is_joined<F: Fetcher>(
    before: Map<F::Input, Entry<F>>,
    input: F::Input,
    joined: Joined<F>,
    after: Map<F::Input, Entry<F>>,
) -> bool {
    match joined {
        Joined::Follower { waiter, ticket } => {
            &&& before.contains_key(input)
            &&& waiter.channel() == before[input]
            &&& waiter.heard().len() == 0
            &&& ticket.input() == input
            &&& after == before
        },
        Joined::Leader { waiter, checkout, flight } => {
            &&& !before.contains_key(input)
            &&& waiter.channel() == flight.channel()
            &&& waiter.heard().len() == 0
            &&& checkout.input() == input
            &&& checkout.is_armed()
            &&& !checkout.has_started()
            &&& checkout.loads() == Seq::<F::Input>::empty()
            &&& flight.counts().len() == 0
            &&& after == before.insert(input, flight.channel())
            &&& forall|other: F::Input| #[trigger]
                before.contains_key(other) ==> before[other] != flight.channel()
        },
    }
}

impl<F: Fetcher> Deduplicator<F> {
    /// The fetcher that flights fetch with.
    pub open spec fn fetcher_value(&self) -> F {
        self.supply().fetcher()
    }

    /// What flights are given their sources from.
    pub closed spec fn supply(&self) -> Supply<F> {
        self.supply
    }

    /// A deduplicator with nothing in the air.
    pub fn new(fetcher: F) -> (deduplicator: Self)
        ensures
            deduplicator@ == Map::<F::Input, Entry<F>>::empty(),
            deduplicator.fetcher_value() == fetcher,
            deduplicator.supply().issued() == 0,
    {
        Deduplicator { supply: Supply::new(fetcher), entries: HashMap::new() }
    }

    /// How many flights are in the air.
    pub fn in_the_air(&self) -> (count: usize)
        requires
            obeys_key_model::<F::Input>(),
        ensures
            count == self@.len(),
    {
        self.entries.len()
    }

    /// Joins the flight of the ticket's input, or opens one.
    pub fn join_or_open(&mut self, ticket: Ticket<F>) -> (joined: Joined<F>)
        requires
            obeys_key_model::<F::Input>(),
        ensures
            is_joined(old(self)@, ticket.input(), joined, final(self)@),
            joined is Leader ==> joined->checkout.fetcher_value() == old(self).fetcher_value(),
            final(self).fetcher_value() == old(self).fetcher_value(),
            final(self).supply().issued() == old(self).supply().issued() + if joined is Leader {
                1nat
            } else {
                0nat
            },
    {
        proof {
            use_type_invariant(&ticket);
        }
        if let Some(entry) = self.entries.get(&ticket.input) {
            return Joined::Follower { waiter: entry.join(), ticket };
        }
        let Ticket { input, for_flight } = ticket;
        let (entry, flight, waiter) = flight::open(&self.entries);
        self.entries.insert(input, entry);
        let checkout = Checkout::new(self.supply.source(), for_flight);
        Joined::Leader { waiter, checkout, flight }
    }
}

/// What a flight is flown by: what it fetches, with which fetcher, and the duty to take its entry
/// out of the registry, once.
#[verifier::reject_recursive_types(F)]
pub struct Checkout<F: Fetcher> {
    source: Source<F>,
    input: F::Input,
    started: bool,
    armed: bool,
}

/// Calls `std::collections::HashMap::remove_entry`, which removes a key and returns the stored
/// key and its value if the key was there.
#[verifier::external_body]
fn remove_entry<K: std::hash::Hash + Eq, V>(map: &mut HashMap<K, V>, key: &K) -> (removed: Option<
    (K, V),
>)
    requires
        obeys_key_model::<K>(),
    ensures
        final(map)@ == old(map)@.remove(*key),
        match removed {
            Some((k, v)) => k == *key && old(map)@.contains_key(*key) && old(map)@[*key] == v,
            None => !old(map)@.contains_key(*key),
        },
{
    map.remove_entry(key)
}

/// What a check-out took: to be dropped once the registry is released.
pub type CheckedOut<F> = Option<(<F as Fetcher>::Input, Entry<F>)>;

impl<F: Fetcher> Checkout<F> {
    /// The input of the flight.
    pub closed spec fn input(&self) -> F::Input {
        self.input
    }

    /// The fetcher the flight fetches with.
    pub closed spec fn fetcher_value(&self) -> F {
        self.source.fetcher()
    }

    /// The inputs that the flight asked its fetcher for, in order.
    pub closed spec fn loads(&self) -> Seq<F::Input> {
        self.source.loads()
    }

    /// Whether the flight's fetch was started.
    pub closed spec fn has_started(&self) -> bool {
        self.started
    }

    /// Whether the entry has not been checked out yet.
    pub closed spec fn is_armed(&self) -> bool {
        self.armed
    }

    /// The registry once this checkout did its duty.
    pub open spec fn leaves(&self, entries: Map<F::Input, Entry<F>>) -> Map<F::Input, Entry<F>> {
        if self.is_armed() {
            entries.remove(self.input())
        } else {
            entries
        }
    }

    /// What this checkout takes out of the registry.
    pub open spec fn takes(&self, entries: Map<F::Input, Entry<F>>) -> CheckedOut<F> {
        if self.is_armed() && entries.contains_key(self.input()) {
            Some((self.input(), entries[self.input()]))
        } else {
            None
        }
    }

    /// `after` is this checkout with its duty done.
    pub open spec fn is_done_as(&self, after: Checkout<F>) -> bool {
        &&& after.input() == self.input()
        &&& after.fetcher_value() == self.fetcher_value()
        &&& after.loads() == self.loads()
        &&& after.has_started() == self.has_started()
        &&& !after.is_armed()
    }

    /// `after` is this checkout with its fetch started: its fetcher was asked once more, for the
    /// flight's input.
    pub open spec fn is_started_as(&self, after: Checkout<F>) -> bool {
        &&& !self.has_started()
        &&& after.has_started()
        &&& after.loads() == self.loads().push(self.input())
        &&& after.input() == self.input()
        &&& after.fetcher_value() == self.fetcher_value()
        &&& after.is_armed() == self.is_armed()
    }

    /// An armed checkout for the flight of `input`.
    fn new(source: Source<F>, input: F::Input) -> (checkout: Self)
        ensures
            checkout.fetcher_value() == source.fetcher(),
            checkout.loads() == source.loads(),
            !checkout.has_started(),
            checkout.input() == input,
            checkout.is_armed(),
    {
        Checkout { source, input, started: false, armed: true }
    }

    /// Whether the entry has not been checked out yet: if it has, the registry need not be
    /// touched.
    pub fn armed(&self) -> (armed: bool)
        ensures
            armed == self.is_armed(),
    {
        self.armed
    }

    /// Whether the flight's fetch was started.
    pub fn started(&self) -> (started: bool)
        ensures
            started == self.has_started(),
    {
        self.started
    }

    /// Starts the fetch of the flight's input, with the fetcher of the deduplicator that the
    /// flight was opened by. A flight fetches once.
    pub fn start(&mut self) -> (loading: F::Loading)
        requires
            is_identity::<F::Input>(),
            !old(self).has_started(),
        ensures
            old(self).is_started_as(*final(self)),
            call_ensures(F::load, (&old(self).fetcher_value(), old(self).input()), loading),
    {
        let input = self.input.clone();
        assert(cloned(self.input, input));
        self.started = true;
        self.source.load(input)
    }

    /// Takes the flight's entry out of the registry. Idempotent: a second check-out would take
    /// whichever flight owns the input by then, so it takes nothing.
    #[must_use]
    pub fn check_out_in(&mut self, registry: &mut Deduplicator<F>) -> (checked_out: CheckedOut<F>)
        requires
            obeys_key_model::<F::Input>(),
        ensures
            checked_out == old(self).takes(old(registry)@),
            final(registry)@ == old(self).leaves(old(registry)@),
            final(registry).supply() == old(registry).supply(),
            old(self).is_done_as(*final(self)),
    {
        if !self.armed {
            return None;
        }
        self.armed = false;
        remove_entry(&mut registry.entries, &self.input)
    }

    /// Checks the flight out if nobody listens to it any more. The look and the removal are one
    /// step: nobody can join in between.
    pub fn check_out_if_empty(
        &mut self,
        registry: &mut Deduplicator<F>,
        flight: &mut Flight<Shared<F>>,
    ) -> (fold: Fold<F>)
        requires
            obeys_key_model::<F::Input>(),
        ensures
            final(flight).channel() == old(flight).channel(),
            counted_once(old(flight).counts(), final(flight).counts()),
            is_fold(
                *old(self),
                old(registry)@,
                final(flight).counts().last(),
                fold,
                *final(self),
                final(registry)@,
            ),
            final(registry).supply() == old(registry).supply(),
    {
        let waiting: usize = flight.listening();
        assert(flight.counts().drop_last() =~= old(flight).counts());
        self.check_out_if_count(registry, waiting)
    }

    /// [`Checkout::check_out_if_empty`] for a given number of listeners.
    pub fn check_out_if_count(&mut self, registry: &mut Deduplicator<F>, waiting: usize) -> (fold:
        Fold<F>)
        requires
            obeys_key_model::<F::Input>(),
        ensures
            is_fold(*old(self), old(registry)@, waiting, fold, *final(self), final(registry)@),
            final(registry).supply() == old(registry).supply(),
    {
        if waiting > 0 {
            return Fold::Refused;
        }
        Fold::Folded(self.check_out_in(registry))
    }
}

/// The listeners of a flight were counted once more.
pub open spec fn counted_once(before: Seq<usize>, after: Seq<usize>) -> bool {
    after.len() == before.len() + 1 && after.drop_last() == before
}

/// Whether a flight folded.
#[verifier::reject_recursive_types(F)]
pub enum Fold<F: Fetcher> {
    /// Someone listens: the flight goes on.
    Refused,
    /// Nobody is left to pay for the fetch.
    Folded(CheckedOut<F>),
}

/// What trying to fold a flight does, given how many listen: with a listener it changes
/// nothing, without one the flight is checked out.
pub open spec fn is_fold<F: Fetcher>(
    before: Checkout<F>,
    entries: Map<F::Input, Entry<F>>,
    waiting: usize,
    fold: Fold<F>,
    after: Checkout<F>,
    left: Map<F::Input, Entry<F>>,
) -> bool {
    if waiting > 0 {
        fold == Fold::<F>::Refused && after == before && left == entries
    } else {
        &&& fold == Fold::<F>::Folded(before.takes(entries))
        &&& left == before.leaves(entries)
        &&& before.is_done_as(after)
    }
}

/// What a flight in the air hears of.
#[verifier::reject_recursive_types(F)]
pub enum Signal<F: Fetcher> {
    /// The fetch ended.
    Fetched(Result<F::Output, F::Error>),
    /// The last listener left.
    Emptied,
}

/// Which signal a flight acts on, given what has arrived: an outcome in hand beats an emptiness
/// that arrived with it.
pub fn first_signal<F: Fetcher>(
    fetched: Option<Result<F::Output, F::Error>>,
    emptied: bool,
) -> (signal: Option<Signal<F>>)
    ensures
        signal == match fetched {
            Some(result) => Some(Signal::<F>::Fetched(result)),
            None if emptied => Some(Signal::<F>::Emptied),
            None => None,
        },
{
    match fetched {
        Some(result) => Some(Signal::Fetched(result)),
        None => if emptied {
            Some(Signal::Emptied)
        } else {
            None
        },
    }
}

/// What a flight does next.
#[verifier::reject_recursive_types(F)]
pub enum Leg<F: Fetcher> {
    /// Announce the outcome; the input is free already.
    Land { outcome: Outcome<F>, checked_out: CheckedOut<F> },
    /// Drop the fetch and end.
    Fold(CheckedOut<F>),
    /// Go on with the fetch and wait afresh for the last listener to leave.
    FlyOn,
}

/// What the callers of a fetch are told.
pub open spec fn outcome_of<F: Fetcher>(result: Result<F::Output, F::Error>) -> Outcome<F> {
    match result {
        Ok(value) => Ok(value),
        Err(cause) => Err(DedupError::Load(cause)),
    }
}

/// What a flight does at a signal, given how many listen: a fetched result lands, whoever
/// listens, and an emptied flight folds unless someone joined.
pub open spec fn is_leg<F: Fetcher>(
    before: Checkout<F>,
    entries: Map<F::Input, Entry<F>>,
    signal: Signal<F>,
    waiting: usize,
    leg: Leg<F>,
    after: Checkout<F>,
    left: Map<F::Input, Entry<F>>,
) -> bool {
    match signal {
        Signal::Fetched(result) => {
            &&& leg == (Leg::<F>::Land {
                outcome: outcome_of::<F>(result),
                checked_out: before.takes(entries),
            })
            &&& left == before.leaves(entries)
            &&& before.is_done_as(after)
        },
        Signal::Emptied => if waiting > 0 {
            leg == Leg::<F>::FlyOn && after == before && left == entries
        } else {
            &&& leg == Leg::<F>::Fold(before.takes(entries))
            &&& left == before.leaves(entries)
            &&& before.is_done_as(after)
        },
    }
}

/// What a flight does at a signal. Its listeners are counted only when it was emptied.
pub fn fly<F: Fetcher>(
    checkout: &mut Checkout<F>,
    registry: &mut Deduplicator<F>,
    flight: &mut Flight<Shared<F>>,
    signal: Signal<F>,
) -> (leg: Leg<F>)
    requires
        obeys_key_model::<F::Input>(),
    ensures
        final(flight).channel() == old(flight).channel(),
        match signal {
            Signal::Fetched(_) => final(flight).counts() == old(flight).counts(),
            Signal::Emptied => counted_once(old(flight).counts(), final(flight).counts()),
        },
        is_leg(
            *old(checkout),
            old(registry)@,
            signal,
            final(flight).counts().last(),
            leg,
            *final(checkout),
            final(registry)@,
        ),
        final(registry).supply() == old(registry).supply(),
{
    match signal {
        Signal::Fetched(result) => settle(checkout, registry, result),
        Signal::Emptied => after_fold(checkout.check_out_if_empty(registry, flight)),
    }
}

/// The leg after a fetch ended: the entry is checked out before anyone is told, which frees the
/// input for the next call.
fn settle<F: Fetcher>(
    checkout: &mut Checkout<F>,
    registry: &mut Deduplicator<F>,
    result: Result<F::Output, F::Error>,
) -> (leg: Leg<F>)
    requires
        obeys_key_model::<F::Input>(),
    ensures
        is_leg(
            *old(checkout),
            old(registry)@,
            Signal::Fetched(result),
            0,
            leg,
            *final(checkout),
            final(registry)@,
        ),
        final(registry).supply() == old(registry).supply(),
{
    let outcome = match result {
        Ok(value) => Ok(value),
        Err(cause) => Err(DedupError::Load(cause)),
    };
    Leg::Land { outcome, checked_out: checkout.check_out_in(registry) }
}

/// The leg after trying to fold.
fn after_fold<F: Fetcher>(fold: Fold<F>) -> (leg: Leg<F>)
    ensures
        leg == match fold {
            Fold::Folded(checked_out) => Leg::<F>::Fold(checked_out),
            Fold::Refused => Leg::<F>::FlyOn,
        },
{
    match fold {
        Fold::Folded(checked_out) => Leg::Fold(checked_out),
        Fold::Refused => Leg::FlyOn,
    }
}

/// [`fly`] for a given number of listeners.
pub fn fly_counted<F: Fetcher>(
    checkout: &mut Checkout<F>,
    registry: &mut Deduplicator<F>,
    waiting: usize,
    signal: Signal<F>,
) -> (leg: Leg<F>)
    requires
        obeys_key_model::<F::Input>(),
    ensures
        is_leg(
            *old(checkout),
            old(registry)@,
            signal,
            waiting,
            leg,
            *final(checkout),
            final(registry)@,
        ),
        final(registry).supply() == old(registry).supply(),
{
    match signal {
        Signal::Fetched(result) => settle(checkout, registry, result),
        Signal::Emptied => after_fold(checkout.check_out_if_count(registry, waiting)),
    }
}

/// Announces a flight's outcome to everyone who listens to it.
pub fn land<F: Fetcher>(flight: Flight<Shared<F>>, outcome: Outcome<F>) -> (announcement:
    Announcement<Shared<F>>)
    ensures
        announcement.channel() == flight.channel(),
        announcement.outcome().outcome == outcome,
{
    flight.announce(Shared { outcome })
}

/// What a waiting call finds.
#[verifier::reject_recursive_types(F)]
pub enum Found<F: Fetcher> {
    /// It read its channel.
    Read(Option<Outcome<F>>),
    /// The channel changed.
    Changed,
    /// The flight is gone.
    Gone,
}

/// What a waiting call does next.
#[verifier::reject_recursive_types(F)]
pub enum Turn<F: Fetcher> {
    /// Read the channel.
    Read,
    /// Wait until the channel changes or the flight is gone.
    Await,
    /// Tell the caller.
    Return(Outcome<F>),
}

/// A waiting call returns the first outcome it reads, or that its flight was lost.
pub open spec fn turn_after<F: Fetcher>(found: Found<F>) -> Turn<F> {
    match found {
        Found::Read(Some(outcome)) => Turn::Return(outcome),
        Found::Read(None) => Turn::Await,
        Found::Changed => Turn::Read,
        Found::Gone => Turn::Return(Err(DedupError::Lost)),
    }
}

/// What a waiting call does next.
pub fn next_turn<F: Fetcher>(found: Found<F>) -> (turn: Turn<F>)
    ensures
        turn == turn_after(found),
{
    match found {
        Found::Read(Some(outcome)) => Turn::Return(outcome),
        Found::Read(None) => Turn::Await,
        Found::Changed => Turn::Read,
        Found::Gone => Turn::Return(Err(DedupError::Lost)),
    }
}

/// Reads a call's channel and says what it does next. Joining marks what is there as seen, so
/// a call reads before it first waits for a change.
pub fn read_turn<F: Fetcher>(waiter: &mut Waiter<Shared<F>>) -> (turn: Turn<F>)
    ensures
        final(waiter).channel() == old(waiter).channel(),
        final(waiter).heard().len() == old(waiter).heard().len() + 1,
        final(waiter).heard().drop_last() == old(waiter).heard(),
        turn == turn_after(Found::<F>::Read(outcome_in(final(waiter).heard().last()))),
{
    let seen: Option<Shared<F>> = waiter.read(None);
    assert(waiter.heard().drop_last() =~= old(waiter).heard());
    next_turn(
        Found::Read(
            match seen {
                Some(shared) => Some(shared.outcome),
                None => None,
            },
        ),
    )
}

/// The outcome in what was read of a flight's channel.
pub open spec fn outcome_in<F: Fetcher>(seen: Option<Shared<F>>) -> Option<Outcome<F>> {
    match seen {
        Some(shared) => Some(shared.outcome),
        None => None,
    }
}

/// What a call returns once its flight landed: the outcome that was announced.
pub fn told<F: Fetcher>(
    waiter: &mut Waiter<Shared<F>>,
    announcement: &Announcement<Shared<F>>,
) -> (outcome: Outcome<F>)
    requires
        announcement.channel() == old(waiter).channel(),
    ensures
        is_share::<F>(announcement.outcome().outcome, outcome),
        final(waiter).channel() == old(waiter).channel(),
        final(waiter).heard().len() == old(waiter).heard().len() + 1,
        final(waiter).heard().drop_last() == old(waiter).heard(),
        outcome_in(final(waiter).heard().last()) == Some(outcome),
{
    let seen: Option<Shared<F>> = waiter.read(Some(announcement));
    assert(waiter.heard().drop_last() =~= old(waiter).heard());
    match seen {
        Some(shared) => shared.outcome,
        None => {
            assert(false);
            Err(DedupError::Lost)
        },
    }
}

/// A call of an input whose flight is in the air joins that flight; after any call of an input,
/// its flight is in the air, with the channel the call listens to.
pub proof fn law_a_call_leaves_its_flight_in_the_air<F: Fetcher>(
    before: Map<F::Input, Entry<F>>,
    input: F::Input,
    joined: Joined<F>,
    after: Map<F::Input, Entry<F>>,
)
    requires
        is_joined(before, input, joined, after),
    ensures
        after.contains_key(input),
        joined.waiter().channel() == after[input],
        joined is Leader <==> !before.contains_key(input),
        forall|other: F::Input|
            other != input ==> (#[trigger] after.contains_key(other) <==> before.contains_key(other)),
        forall|other: F::Input| #[trigger]
            before.contains_key(other) ==> after.contains_key(other) && after[other]
                == before[other],
{
}

/// What happens to the registry: calls come, and flights are checked out.
#[verifier::reject_recursive_types(F)]
pub ghost enum Move<F: Fetcher> {
    Call(F::Input, Joined<F>),
    CheckOut(Checkout<F>),
}

/// The flight of `input` is not checked out by this move.
pub open spec fn spares<F: Fetcher>(m: Move<F>, input: F::Input) -> bool {
    match m {
        Move::Call(_, _) => true,
        Move::CheckOut(checkout) => !checkout.is_armed() || checkout.input() != input,
    }
}

/// If this move is a call of `input`, it joined a flight and listens to this entry's channel.
pub open spec fn joins<F: Fetcher>(m: Move<F>, input: F::Input, entry: Entry<F>) -> bool {
    match m {
        Move::Call(called, joined) => called != input || joined is Follower
            && joined.waiter().channel() == entry,
        Move::CheckOut(_) => true,
    }
}

/// The registry goes from `before` to `after` by this move.
pub open spec fn steps_to<F: Fetcher>(
    before: Map<F::Input, Entry<F>>,
    m: Move<F>,
    after: Map<F::Input, Entry<F>>,
) -> bool {
    match m {
        Move::Call(input, joined) => is_joined(before, input, joined, after),
        Move::CheckOut(checkout) => after == checkout.leaves(before),
    }
}

/// The registry goes from `before` to `after` by these moves, one after the other.
pub open spec fn leads_to<F: Fetcher>(
    before: Map<F::Input, Entry<F>>,
    moves: Seq<Move<F>>,
    after: Map<F::Input, Entry<F>>,
) -> bool
    decreases moves.len(),
{
    if moves.len() == 0 {
        after == before
    } else {
        exists|middle: Map<F::Input, Entry<F>>|
            leads_to(before, moves.drop_last(), middle) && #[trigger] steps_to(
                middle,
                moves.last(),
                after,
            )
    }
}

/// Concurrent calls of one input share one flight: while a flight is not checked out, every call
/// of its input joins it and listens to its channel, whatever else happens in between.
pub proof fn law_concurrent_calls_share_one_flight<F: Fetcher>(
    before: Map<F::Input, Entry<F>>,
    moves: Seq<Move<F>>,
    after: Map<F::Input, Entry<F>>,
    input: F::Input,
)
    requires
        before.contains_key(input),
        leads_to(before, moves, after),
        forall|i: int| 0 <= i < moves.len() ==> spares(#[trigger] moves[i], input),
    ensures
        after.contains_key(input),
        after[input] == before[input],
        forall|i: int| 0 <= i < moves.len() ==> joins(#[trigger] moves[i], input, before[input]),
    decreases moves.len(),
{
    if moves.len() > 0 {
        let rest = moves.drop_last();
        let middle = choose|middle: Map<F::Input, Entry<F>>|
            leads_to(before, rest, middle) && #[trigger] steps_to(middle, moves.last(), after);
        assert forall|i: int| 0 <= i < rest.len() implies spares(#[trigger] rest[i], input) by {
            assert(rest[i] == moves[i]);
        }
        law_concurrent_calls_share_one_flight(before, rest, middle, input);
        assert(spares(moves[moves.len() - 1], input));
        assert forall|i: int| 0 <= i < moves.len() implies joins(
            #[trigger] moves[i],
            input,
            before[input],
        ) by {
            if i < rest.len() {
                assert(rest[i] == moves[i]);
            }
        }
    }
}

/// A checked-out input is free: its next call opens a flight of its own.
pub proof fn law_a_checked_out_input_is_free<F: Fetcher>(
    before: Map<F::Input, Entry<F>>,
    checkout: Checkout<F>,
    joined: Joined<F>,
    after: Map<F::Input, Entry<F>>,
)
    requires
        checkout.is_armed(),
        is_joined(checkout.leaves(before), checkout.input(), joined, after),
    ensures
        joined is Leader,
{
}

/// Checking out twice is checking out once: a checkout that did its duty takes nothing from any
/// registry, so it never takes the entry of a later flight of its input.
pub proof fn law_check_out_is_idempotent<F: Fetcher>(
    checkout: Checkout<F>,
    done: Checkout<F>,
    entries: Map<F::Input, Entry<F>>,
)
    requires
        checkout.is_done_as(done),
    ensures
        done.leaves(entries) == entries,
        done.takes(entries) is None,
{
}

/// The registry holds exactly the flights in the air: every flight that is not checked out has
/// its entry there, no two of them have the same input, and there is no other entry.
pub open spec fn holds_exactly<F: Fetcher>(
    entries: Map<F::Input, Entry<F>>,
    flights: Seq<(Checkout<F>, Entry<F>)>,
) -> bool {
    &&& forall|i: int|
        0 <= i < flights.len() && (#[trigger] flights[i]).0.is_armed() ==> entries.contains_key(
            flights[i].0.input(),
        ) && entries[flights[i].0.input()] == flights[i].1
    &&& forall|i: int, j: int|
        0 <= i < j < flights.len() && (#[trigger] flights[i]).0.is_armed() && (
        #[trigger] flights[j]).0.is_armed() ==> flights[i].0.input() != flights[j].0.input()
    &&& forall|input: F::Input| #[trigger]
        entries.contains_key(input) ==> exists|i: int|
            0 <= i < flights.len() && (#[trigger] flights[i]).0.is_armed() && flights[i].0.input()
                == input
}

/// A registry with nothing in it is in step with no flights in the air.
pub proof fn law_nothing_in_the_air_at_first<F: Fetcher>()
    ensures
        holds_exactly::<F>(Map::empty(), Seq::empty()),
{
}

/// No two inputs have the same channel.
pub open spec fn has_own_channels<F: Fetcher>(entries: Map<F::Input, Entry<F>>) -> bool {
    forall|a: F::Input, b: F::Input|
        #![trigger entries[a], entries[b]]
        entries.contains_key(a) && entries.contains_key(b) && a != b ==> entries[a] != entries[b]
}

/// Distinct inputs fly on channels of their own: so it is while nothing is in the air, and calls
/// and check-outs keep it so.
pub proof fn law_distinct_inputs_have_channels_of_their_own<F: Fetcher>(
    before: Map<F::Input, Entry<F>>,
    moves: Seq<Move<F>>,
    after: Map<F::Input, Entry<F>>,
)
    requires
        has_own_channels(before),
        leads_to(before, moves, after),
    ensures
        has_own_channels(after),
        has_own_channels::<F>(Map::empty()),
    decreases moves.len(),
{
    if moves.len() > 0 {
        let rest = moves.drop_last();
        let middle = choose|middle: Map<F::Input, Entry<F>>|
            leads_to(before, rest, middle) && #[trigger] steps_to(middle, moves.last(), after);
        law_distinct_inputs_have_channels_of_their_own(before, rest, middle);
        assert forall|a: F::Input, b: F::Input|
            #![trigger after[a], after[b]]
            after.contains_key(a) && after.contains_key(b) && a != b implies after[a]
            != after[b] by {
            assert(middle.contains_key(a) ==> middle[a] == after[a]);
            assert(middle.contains_key(b) ==> middle[b] == after[b]);
        }
    }
}

/// If this move is a call of another input, it listens to another channel.
pub open spec fn keeps_apart<F: Fetcher>(m: Move<F>, input: F::Input, entry: Entry<F>) -> bool {
    match m {
        Move::Call(called, joined) => called == input || joined.waiter().channel() != entry,
        Move::CheckOut(_) => true,
    }
}

/// While a flight is in the air, no call of another input listens to its channel.
pub proof fn law_other_inputs_listen_elsewhere<F: Fetcher>(
    before: Map<F::Input, Entry<F>>,
    moves: Seq<Move<F>>,
    after: Map<F::Input, Entry<F>>,
    input: F::Input,
)
    requires
        has_own_channels(before),
        before.contains_key(input),
        leads_to(before, moves, after),
        forall|i: int| 0 <= i < moves.len() ==> spares(#[trigger] moves[i], input),
    ensures
        forall|i: int|
            0 <= i < moves.len() ==> keeps_apart(#[trigger] moves[i], input, before[input]),
    decreases moves.len(),
{
    if moves.len() > 0 {
        let rest = moves.drop_last();
        let middle = choose|middle: Map<F::Input, Entry<F>>|
            leads_to(before, rest, middle) && #[trigger] steps_to(middle, moves.last(), after);
        assert forall|i: int| 0 <= i < rest.len() implies spares(#[trigger] rest[i], input) by {
            assert(rest[i] == moves[i]);
        }
        law_other_inputs_listen_elsewhere(before, rest, middle, input);
        law_concurrent_calls_share_one_flight(before, moves, after, input);
        law_distinct_inputs_have_channels_of_their_own(before, moves, after);
        assert forall|i: int| 0 <= i < moves.len() implies keeps_apart(
            #[trigger] moves[i],
            input,
            before[input],
        ) by {
            if i < rest.len() {
                assert(rest[i] == moves[i]);
            } else if let Move::Call(called, joined) = moves[i] {
                if called != input {
                    law_a_call_leaves_its_flight_in_the_air(middle, called, joined, after);
                    assert(after[called] != after[input]);
                }
            }
        }
    }
}

/// Whether this move is a call that opens a flight of `input`, and so is given a source to fetch
/// from.
pub open spec fn opens<F: Fetcher>(m: Move<F>, input: F::Input) -> bool {
    match m {
        Move::Call(called, joined) => called == input && joined is Leader,
        Move::CheckOut(_) => false,
    }
}

/// The flights after a call: one more if the call opened one.
pub open spec fn flights_after_call<F: Fetcher>(
    flights: Seq<(Checkout<F>, Entry<F>)>,
    joined: Joined<F>,
) -> Seq<(Checkout<F>, Entry<F>)> {
    match joined {
        Joined::Follower { .. } => flights,
        Joined::Leader { checkout, flight, .. } => flights.push((checkout, flight.channel())),
    }
}

/// Calls keep the registry in step with the flights in the air.
pub proof fn law_calls_keep_the_registry_in_step<F: Fetcher>(
    before: Map<F::Input, Entry<F>>,
    flights: Seq<(Checkout<F>, Entry<F>)>,
    input: F::Input,
    joined: Joined<F>,
    after: Map<F::Input, Entry<F>>,
)
    requires
        holds_exactly(before, flights),
        is_joined(before, input, joined, after),
    ensures
        holds_exactly(after, flights_after_call(flights, joined)),
{
    let all = flights_after_call(flights, joined);
    if joined is Leader {
        assert forall|i: int| 0 <= i < all.len() && (#[trigger] all[i]).0.is_armed() implies {
            &&& after.contains_key(all[i].0.input())
            &&& after[all[i].0.input()] == all[i].1
        } by {
            if i < flights.len() {
                assert(all[i] == flights[i]);
            }
        }
        assert forall|i: int, j: int|
            0 <= i < j < all.len() && (#[trigger] all[i]).0.is_armed() && (
            #[trigger] all[j]).0.is_armed() implies all[i].0.input() != all[j].0.input() by {
            assert(all[i] == flights[i]);
            if j < flights.len() {
                assert(all[j] == flights[j]);
            }
        }
        assert forall|key: F::Input| #[trigger] after.contains_key(key) implies exists|i: int|
            0 <= i < all.len() && (#[trigger] all[i]).0.is_armed() && all[i].0.input() == key by {
            if key == input {
                assert(all[flights.len() as int].0.input() == key);
            } else {
                assert(before.contains_key(key));
                let i = choose|i: int|
                    0 <= i < flights.len() && (#[trigger] flights[i]).0.is_armed()
                        && flights[i].0.input() == key;
                assert(all[i] == flights[i]);
            }
        }
    }
}

/// Check-outs keep the registry in step with the flights in the air, and each takes the entry
/// of its own flight and no other.
pub proof fn law_check_outs_keep_the_registry_in_step<F: Fetcher>(
    before: Map<F::Input, Entry<F>>,
    flights: Seq<(Checkout<F>, Entry<F>)>,
    at: int,
    done: Checkout<F>,
)
    requires
        holds_exactly(before, flights),
        0 <= at < flights.len(),
        flights[at].0.is_done_as(done),
    ensures
        holds_exactly(
            flights[at].0.leaves(before),
            flights.update(at, (done, flights[at].1)),
        ),
        flights[at].0.is_armed() ==> flights[at].0.takes(before) == Some(
            (flights[at].0.input(), flights[at].1),
        ),
{
    let after = flights[at].0.leaves(before);
    let all = flights.update(at, (done, flights[at].1));
    assert forall|i: int| 0 <= i < all.len() && (#[trigger] all[i]).0.is_armed() implies {
        &&& after.contains_key(all[i].0.input())
        &&& after[all[i].0.input()] == all[i].1
    } by {
        assert(i != at);
        assert(all[i] == flights[i]);
        assert(flights[at] == flights[at]);
    }
    assert forall|i: int, j: int|
        0 <= i < j < all.len() && (#[trigger] all[i]).0.is_armed() && (
        #[trigger] all[j]).0.is_armed() implies all[i].0.input() != all[j].0.input() by {
        assert(all[i] == flights[i] && all[j] == flights[j]);
    }
    assert forall|key: F::Input| #[trigger] after.contains_key(key) implies exists|i: int|
        0 <= i < all.len() && (#[trigger] all[i]).0.is_armed() && all[i].0.input() == key by {
        assert(before.contains_key(key));
        let i = choose|i: int|
            0 <= i < flights.len() && (#[trigger] flights[i]).0.is_armed() && flights[i].0.input()
                == key;
        assert(i != at);
        assert(all[i] == flights[i]);
    }
}

/// A flight ends with its input free, whether it lands or folds; it goes on only while someone
/// listens, and then nothing changed.
pub proof fn law_a_flight_ends_checked_out_or_goes_on_unchanged<F: Fetcher>(
    before: Checkout<F>,
    entries: Map<F::Input, Entry<F>>,
    signal: Signal<F>,
    waiting: usize,
    leg: Leg<F>,
    after: Checkout<F>,
    left: Map<F::Input, Entry<F>>,
)
    requires
        is_leg(before, entries, signal, waiting, leg, after, left),
    ensures
        leg is FlyOn ==> waiting > 0 && after == before && left == entries,
        leg is Fold ==> waiting == 0 && signal is Emptied,
        !(leg is FlyOn) && before.is_armed() ==> !left.contains_key(before.input()),
        !(leg is FlyOn) ==> !after.is_armed(),
        leg is Land <==> signal is Fetched,
{
}

/// The outcome a flight announces goes to the channel that every call that joined it listens to.
pub proof fn law_the_outcome_reaches_the_channel_of_every_call<F: Fetcher>(
    before: Map<F::Input, Entry<F>>,
    input: F::Input,
    opened: Joined<F>,
    opened_into: Map<F::Input, Entry<F>>,
    moves: Seq<Move<F>>,
    after: Map<F::Input, Entry<F>>,
    announcement: Announcement<Shared<F>>,
)
    requires
        is_joined(before, input, opened, opened_into),
        opened is Leader,
        announcement.channel() == opened->flight.channel(),
        leads_to(opened_into, moves, after),
        forall|i: int| 0 <= i < moves.len() ==> spares(#[trigger] moves[i], input),
    ensures
        opened.waiter().channel() == announcement.channel(),
        forall|i: int| 0 <= i < moves.len() ==> joins(
            #[trigger] moves[i],
            input,
            announcement.channel(),
        ),
{
    law_concurrent_calls_share_one_flight(opened_into, moves, after, input);
}

/// `told` is what every caller of a fetch with this result is told: its value, or its error as the
/// cause of theirs, each caller's cloned from the one there is.
pub open spec fn tells<F: Fetcher>(
    result: Result<F::Output, F::Error>,
    told: Outcome<F>,
) -> bool {
    match result {
        Ok(value) => told is Ok && cloned(value, told->Ok_0),
        Err(cause) => told is Err && told->Err_0 is Load && cloned(cause, told->Err_0->Load_0),
    }
}

/// Calls of one input that are made while its flight is in the air share one fetch and its
/// outcome.
///
/// A call opens a flight, others come, the fetch is started and ends with `result`, and the flight
/// lands. Then the fetcher was asked exactly once for all calls of the input: the flight asked it
/// once, for this input, and no other call was given a source. Every call listens to the channel
/// that the outcome was announced on, and each that is told of the announcement is told what the
/// fetch gave. Calls of other inputs listen elsewhere, and the input is free again.
pub proof fn law_calls_of_one_flight_share_one_fetch<F: Fetcher>(
    before: Map<F::Input, Entry<F>>,
    input: F::Input,
    opened: Joined<F>,
    opened_into: Map<F::Input, Entry<F>>,
    moves: Seq<Move<F>>,
    after: Map<F::Input, Entry<F>>,
    started: Checkout<F>,
    result: Result<F::Output, F::Error>,
    waiting: usize,
    leg: Leg<F>,
    done: Checkout<F>,
    left: Map<F::Input, Entry<F>>,
    announcement: Announcement<Shared<F>>,
)
    requires
        has_own_channels(before),
        is_joined(before, input, opened, opened_into),
        opened is Leader,
        leads_to(opened_into, moves, after),
        forall|i: int| 0 <= i < moves.len() ==> spares(#[trigger] moves[i], input),
        opened->checkout.is_started_as(started),
        is_leg(started, after, Signal::Fetched(result), waiting, leg, done, left),
        announcement.channel() == opened->flight.channel(),
        announcement.outcome().outcome == leg->outcome,
    ensures
        done.loads() == seq![input],
        done.has_started(),
        forall|i: int| 0 <= i < moves.len() ==> !opens(#[trigger] moves[i], input),
        opened.waiter().channel() == announcement.channel(),
        forall|i: int| 0 <= i < moves.len() ==> joins(
            #[trigger] moves[i],
            input,
            announcement.channel(),
        ),
        forall|told: Outcome<F>| #[trigger]
            is_share::<F>(announcement.outcome().outcome, told) ==> tells::<F>(result, told),
        forall|i: int| 0 <= i < moves.len() ==> keeps_apart(
            #[trigger] moves[i],
            input,
            announcement.channel(),
        ),
        !left.contains_key(input),
{
    let open = Move::Call(input, opened);
    assert(leads_to(before, seq![open], opened_into)) by {
        reveal_with_fuel(leads_to, 2);
        assert(seq![open].drop_last() =~= Seq::empty());
        assert(steps_to(before, seq![open].last(), opened_into));
    }
    law_distinct_inputs_have_channels_of_their_own(before, seq![open], opened_into);
    law_concurrent_calls_share_one_flight(opened_into, moves, after, input);
    law_other_inputs_listen_elsewhere(opened_into, moves, after, input);
    assert(done.loads() =~= seq![input]);
    assert forall|i: int| 0 <= i < moves.len() implies !opens(#[trigger] moves[i], input) by {
        assert(joins(moves[i], input, opened_into[input]));
    }
}

/// Every call of a fetch is told the same, where a clone is the value it was made from.
pub proof fn law_every_call_is_told_the_same<F: Fetcher>(
    result: Result<F::Output, F::Error>,
    first: Outcome<F>,
    second: Outcome<F>,
)
    requires
        tells::<F>(result, first),
        tells::<F>(result, second),
        forall|a: F::Output, b: F::Output| #[trigger] cloned(a, b) ==> a == b,
        forall|a: F::Error, b: F::Error| #[trigger] cloned(a, b) ==> a == b,
    ensures
        first == second,
        first == outcome_of::<F>(result),
{
}

/// What one call does, for any registry: it opens a flight exactly if none of its input is in the
/// air, and joins that flight otherwise. It changes no entry, and adds one exactly if it opens. A
/// flight it opens is on a channel of its own, flown for the call's input with the deduplicator's
/// fetcher, with nothing fetched yet.
pub proof fn law_a_call_joins_or_opens<F: Fetcher>(
    registry: &mut Deduplicator<F>,
    ticket: Ticket<F>,
    joined: Joined<F>,
)
    requires
        call_ensures(Deduplicator::<F>::join_or_open, (registry, ticket), joined),
    ensures
        joined is Follower <==> old(registry)@.contains_key(ticket.input()),
        joined is Follower ==> joined->Follower_waiter.channel() == old(registry)@[ticket.input()]
            && joined->Follower_waiter.heard().len() == 0 && joined->ticket.input()
            == ticket.input(),
        joined is Leader ==> {
            &&& joined->Leader_waiter.channel() == joined->flight.channel()
            &&& joined->Leader_waiter.heard().len() == 0
            &&& joined->flight.counts().len() == 0
            &&& joined->checkout.input() == ticket.input()
            &&& joined->checkout.is_armed()
            &&& !joined->checkout.has_started()
            &&& joined->checkout.loads().len() == 0
            &&& joined->checkout.fetcher_value() == old(registry).fetcher_value()
            &&& final(registry)@[ticket.input()] == joined->flight.channel()
            &&& forall|other: F::Input| #[trigger]
                old(registry)@.contains_key(other) ==> old(registry)@[other]
                    != joined->flight.channel()
        },
        forall|other: F::Input| #[trigger]
            final(registry)@.contains_key(other) <==> other == ticket.input() || old(
                registry)@.contains_key(other),
        forall|other: F::Input| #[trigger]
            old(registry)@.contains_key(other) ==> final(registry)@[other] == old(registry)@[other],
        final(registry).fetcher_value() == old(registry).fetcher_value(),
        final(registry).supply().issued() == old(registry).supply().issued() + if joined is Leader {
            1nat
        } else {
            0nat
        },
{
}

/// `taken`, `before` and `after` are what a check-out took, and the registry before and after: an
/// armed one takes the entry of its input if there is one, and no other; a spent one takes nothing.
pub open spec fn checks_out<F: Fetcher>(
    before: Map<F::Input, Entry<F>>,
    input: F::Input,
    armed: bool,
    taken: CheckedOut<F>,
    after: Map<F::Input, Entry<F>>,
) -> bool {
    &&& taken is Some <==> armed && before.contains_key(input)
    &&& taken is Some ==> (taken->0).0 == input && (taken->0).1 == before[input]
    &&& forall|other: F::Input| #[trigger]
        after.contains_key(other) <==> before.contains_key(other) && !(armed && other == input)
    &&& forall|other: F::Input| #[trigger]
        after.contains_key(other) ==> after[other] == before[other]
}

/// A check-out takes the flight's own entry and nothing else, and only the first one does.
pub proof fn law_a_check_out_takes_its_own_entry_once<F: Fetcher>(
    checkout: &mut Checkout<F>,
    registry: &mut Deduplicator<F>,
    taken: CheckedOut<F>,
)
    requires
        call_ensures(Checkout::<F>::check_out_in, (checkout, registry), taken),
    ensures
        checks_out(
            old(registry)@,
            old(checkout).input(),
            old(checkout).is_armed(),
            taken,
            final(registry)@,
        ),
        !final(checkout).is_armed(),
        final(checkout).input() == old(checkout).input(),
        final(checkout).loads() == old(checkout).loads(),
        final(checkout).has_started() == old(checkout).has_started(),
        final(registry).supply() == old(registry).supply(),
{
}

/// A flight folds exactly if nobody listens, and is then checked out; with a listener nothing
/// changes. Looking it up asks the flight's own channel, once.
pub proof fn law_a_flight_folds_only_without_listeners<F: Fetcher>(
    checkout: &mut Checkout<F>,
    registry: &mut Deduplicator<F>,
    flight: &mut Flight<Shared<F>>,
    fold: Fold<F>,
)
    requires
        call_ensures(Checkout::<F>::check_out_if_empty, (checkout, registry, flight), fold),
    ensures
        final(flight).channel() == old(flight).channel(),
        final(flight).counts().len() == old(flight).counts().len() + 1,
        final(flight).counts().drop_last() == old(flight).counts(),
        fold is Folded <==> final(flight).counts().last() == 0,
        fold is Refused ==> *final(checkout) == *old(checkout) && final(registry)@ == old(registry)@,
        fold is Folded ==> !final(checkout).is_armed() && final(checkout).input()
            == old(checkout).input() && final(checkout).loads() == old(checkout).loads()
            && checks_out(
            old(registry)@,
            old(checkout).input(),
            old(checkout).is_armed(),
            fold->Folded_0,
            final(registry)@,
        ),
{
}

/// The same for a given number of listeners.
pub proof fn law_folding_goes_by_the_count<F: Fetcher>(
    checkout: &mut Checkout<F>,
    registry: &mut Deduplicator<F>,
    waiting: usize,
    fold: Fold<F>,
)
    requires
        call_ensures(Checkout::<F>::check_out_if_count, (checkout, registry, waiting), fold),
    ensures
        fold is Folded <==> waiting == 0,
        fold is Refused ==> *final(checkout) == *old(checkout) && final(registry)@ == old(registry)@,
        fold is Folded ==> !final(checkout).is_armed() && checks_out(
            old(registry)@,
            old(checkout).input(),
            old(checkout).is_armed(),
            fold->Folded_0,
            final(registry)@,
        ),
{
}

/// What a flight does at a signal. A fetch that ended lands, whoever listens, with what the fetch
/// gave; an emptied flight folds exactly if nobody listens and else flies on unchanged. Landing and
/// folding check the flight out, and take its own entry and no other.
pub proof fn law_a_flight_lands_folds_or_flies_on<F: Fetcher>(
    checkout: &mut Checkout<F>,
    registry: &mut Deduplicator<F>,
    flight: &mut Flight<Shared<F>>,
    signal: Signal<F>,
    leg: Leg<F>,
)
    requires
        call_ensures(fly::<F>, (checkout, registry, flight, signal), leg),
    ensures
        final(flight).channel() == old(flight).channel(),
        leg is Land <==> signal is Fetched,
        signal is Fetched && signal->Fetched_0 is Ok ==> leg->outcome is Ok && leg->outcome->Ok_0
            == signal->Fetched_0->Ok_0,
        signal is Fetched && signal->Fetched_0 is Err ==> leg->outcome is Err
            && leg->outcome->Err_0 is Load && leg->outcome->Err_0->Load_0
            == signal->Fetched_0->Err_0,
        signal is Fetched ==> final(flight).counts() == old(flight).counts(),
        signal is Emptied ==> final(flight).counts().len() == old(flight).counts().len() + 1
            && final(flight).counts().drop_last() == old(flight).counts(),
        signal is Emptied ==> (leg is Fold <==> final(flight).counts().last() == 0),
        leg is FlyOn ==> *final(checkout) == *old(checkout) && final(registry)@ == old(registry)@,
        !(leg is FlyOn) ==> !final(checkout).is_armed() && final(checkout).loads()
            == old(checkout).loads() && checks_out(
            old(registry)@,
            old(checkout).input(),
            old(checkout).is_armed(),
            if leg is Land {
                leg->checked_out
            } else {
                leg->Fold_0
            },
            final(registry)@,
        ),
{
}

/// The same for a given number of listeners.
pub proof fn law_flying_goes_by_the_count<F: Fetcher>(
    checkout: &mut Checkout<F>,
    registry: &mut Deduplicator<F>,
    waiting: usize,
    signal: Signal<F>,
    leg: Leg<F>,
)
    requires
        call_ensures(fly_counted::<F>, (checkout, registry, waiting, signal), leg),
    ensures
        leg is Land <==> signal is Fetched,
        leg is Fold <==> signal is Emptied && waiting == 0,
        leg is FlyOn <==> signal is Emptied && waiting > 0,
        signal is Fetched && signal->Fetched_0 is Ok ==> leg->outcome is Ok && leg->outcome->Ok_0
            == signal->Fetched_0->Ok_0,
        signal is Fetched && signal->Fetched_0 is Err ==> leg->outcome is Err
            && leg->outcome->Err_0 is Load && leg->outcome->Err_0->Load_0
            == signal->Fetched_0->Err_0,
        leg is FlyOn ==> *final(checkout) == *old(checkout) && final(registry)@ == old(registry)@,
        !(leg is FlyOn) ==> !final(checkout).is_armed() && checks_out(
            old(registry)@,
            old(checkout).input(),
            old(checkout).is_armed(),
            if leg is Land {
                leg->checked_out
            } else {
                leg->Fold_0
            },
            final(registry)@,
        ),
{
}

/// A tie goes to the fetch: an outcome in hand is always acted on, an emptiness only without one,
/// and nothing is acted on that did not arrive.
pub proof fn law_a_tie_goes_to_the_fetch<F: Fetcher>(
    fetched: Option<Result<F::Output, F::Error>>,
    emptied: bool,
    signal: Option<Signal<F>>,
)
    requires
        call_ensures(first_signal::<F>, (fetched, emptied), signal),
    ensures
        signal is None <==> fetched is None && !emptied,
        fetched is Some ==> signal is Some && signal->0 is Fetched && signal->0->Fetched_0
            == fetched->0,
        fetched is None && emptied ==> signal is Some && signal->0 is Emptied,
{
}

/// A flight fetches once, for its own input, with its deduplicator's fetcher, and stays in the air.
pub proof fn law_a_flight_fetches_its_own_input_once<F: Fetcher>(
    checkout: &mut Checkout<F>,
    loading: F::Loading,
)
    requires
        call_ensures(Checkout::<F>::start, (checkout,), loading),
        !old(checkout).has_started(),
    ensures
        final(checkout).has_started(),
        final(checkout).loads().len() == old(checkout).loads().len() + 1,
        final(checkout).loads().last() == old(checkout).input(),
        final(checkout).loads().drop_last() == old(checkout).loads(),
        call_ensures(F::load, (&old(checkout).fetcher_value(), old(checkout).input()), loading),
        final(checkout).is_armed() == old(checkout).is_armed(),
        final(checkout).input() == old(checkout).input(),
{
    assert(final(checkout).loads().drop_last() =~= old(checkout).loads());
}

/// A waiting call returns exactly when it read an outcome, with that outcome, or when its flight is
/// gone, as lost. It reads again after every change, and waits only after it read nothing.
pub proof fn law_a_call_returns_what_it_reads<F: Fetcher>(found: Found<F>, turn: Turn<F>)
    requires
        call_ensures(next_turn::<F>, (found,), turn),
    ensures
        found is Read && found->Read_0 is Some ==> turn is Return && turn->Return_0
            == found->Read_0->0,
        found is Read && found->Read_0 is None ==> turn is Await,
        found is Changed ==> turn is Read,
        found is Gone ==> turn is Return && turn->Return_0 is Err && turn->Return_0->Err_0 is Lost,
{
}

/// A call that reads its channel returns what it heard there, and waits if there was nothing.
pub proof fn law_a_read_decides_the_turn<F: Fetcher>(
    waiter: &mut Waiter<Shared<F>>,
    turn: Turn<F>,
)
    requires
        call_ensures(read_turn::<F>, (waiter,), turn),
    ensures
        final(waiter).channel() == old(waiter).channel(),
        final(waiter).heard().len() == old(waiter).heard().len() + 1,
        final(waiter).heard().drop_last() == old(waiter).heard(),
        final(waiter).heard().last() is None ==> turn is Await,
        final(waiter).heard().last() is Some ==> turn is Return && turn->Return_0
            == final(waiter).heard().last()->0.outcome,
{
}

/// What a flight lands with is what its callers are told: the value that was fetched, cloned, or
/// the same error with its cause cloned.
pub proof fn law_callers_are_told_what_was_announced<F: Fetcher>(
    flight: Flight<Shared<F>>,
    outcome: Outcome<F>,
    announcement: Announcement<Shared<F>>,
    waiter: &mut Waiter<Shared<F>>,
    heard: Outcome<F>,
)
    requires
        call_ensures(land::<F>, (flight, outcome), announcement),
        flight.channel() == old(waiter).channel(),
        call_ensures(told::<F>, (waiter, &announcement), heard),
    ensures
        announcement.channel() == flight.channel(),
        outcome is Ok ==> heard is Ok && cloned(outcome->Ok_0, heard->Ok_0),
        outcome is Err && outcome->Err_0 is Load ==> heard is Err && heard->Err_0 is Load && cloned(
            outcome->Err_0->Load_0,
            heard->Err_0->Load_0,
        ),
        outcome is Err && outcome->Err_0 is Lost ==> heard is Err && heard->Err_0 is Lost,
        final(waiter).channel() == old(waiter).channel(),
        final(waiter).heard().len() == old(waiter).heard().len() + 1,
{
}

/// A deduplicator starts with nothing in the air and counts what is.
pub proof fn law_flights_are_counted<F: Fetcher>(
    fetcher: F,
    first: Deduplicator<F>,
    none: usize,
    registry: &mut Deduplicator<F>,
    ticket: Ticket<F>,
    joined: Joined<F>,
)
    requires
        call_ensures(Deduplicator::<F>::new, (fetcher,), first),
        call_ensures(Deduplicator::<F>::in_the_air, (&first,), none),
        old(registry)@.dom().finite(),
        call_ensures(Deduplicator::<F>::join_or_open, (registry, ticket), joined),
    ensures
        none == 0,
        first.fetcher_value() == fetcher,
        final(registry)@.len() == old(registry)@.len() + if joined is Leader {
            1nat
        } else {
            0nat
        },
{
}

/// The count of flights in the air is the number of inputs that have one.
pub proof fn law_the_count_is_the_inputs_in_the_air<F: Fetcher>(
    registry: Deduplicator<F>,
    count: usize,
)
    requires
        call_ensures(Deduplicator::<F>::in_the_air, (&registry,), count),
    ensures
        count == registry@.dom().len(),
{
}

/// A ticket calls the input it was made of, and a fresh flight can fetch.
pub proof fn law_a_ticket_calls_its_input<F: Fetcher>(
    input: F::Input,
    ticket: Ticket<F>,
    checkout: &mut Checkout<F>,
)
    requires
        is_identity::<F::Input>(),
        call_ensures(Ticket::<F>::new, (input,), ticket),
        !old(checkout).has_started(),
    ensures
        ticket.input() == input,
        call_requires(Checkout::<F>::start, (checkout,)),
{
}

} // verus!
