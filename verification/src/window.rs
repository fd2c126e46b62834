//! The collection window.
//!
//! The first item opens a window and arms a timer. The window closes on whichever comes first,
//! `max_batch_size` distinct keys or the timer, and the next item opens a fresh one.
//! Duplicate keys join the open window without advancing the count, so the limit bounds the
//! distinct keys downstream, not the raw item count.
use crate::config::Positive;
use std::collections::HashSet;
use std::hash::Hash;
use vstd::prelude::*;
use vstd::std_specs::hash::obeys_key_model;

verus! {

broadcast use vstd::std_specs::hash::group_hash_axioms;

/// What happened to a collection.
pub enum Event<T, K> {
    /// An item arrived, with the key that tells duplicates.
    Item(T, K),
    /// The timer of the open window fired.
    Timer,
    /// The source is gone: nothing more will arrive.
    SourceClosed,
    /// The consumer took the closed window (`true`), or is gone (`false`).
    HandedOff(bool),
}

/// What the driver of a collection does next.
pub enum Action<T> {
    /// Arm the timer of the window that just opened, then wait for it and for the next item.
    Open,
    /// Wait on, for the armed timer and for the next item.
    Fill,
    /// Disarm the timer and hand the closed window to the consumer.
    HandOff(Vec<T>),
    /// Wait for the item that opens the next window.
    Idle,
    /// Collection is over.
    Stop,
}

/// Which source the driver reads.
#[derive(Debug, Clone, Copy, PartialEq, Eq)]
pub enum Source {
    Timer,
    Inbound,
}

/// The one boundary rule: when the timer and an item are ready together the timer wins,
/// and the item stays with its source for the next window.
pub fn next_source(timer_fired: bool) -> (source: Source)
    ensures
        source == if timer_fired {
            Source::Timer
        } else {
            Source::Inbound
        },
{
    if timer_fired {
        Source::Timer
    } else {
        Source::Inbound
    }
}

/// Where a collection stands.
enum Phase<T, K> {
    /// No window is open.
    Idle,
    /// A window is open and not full.
    Filling { buffer: Vec<T>, seen: HashSet<K> },
    /// A closed window is with the consumer; `last` when nothing can follow it.
    HandingOff { last: bool },
    /// Collection is over.
    Stopped,
}

/// Where a collection stands, as a value.
#[verifier::reject_recursive_types(K)]
pub enum Stage<T, K> {
    Idle,
    /// The items of the open window in arrival order, and their distinct keys.
    Filling { items: Seq<T>, seen: Set<K> },
    HandingOff { last: bool },
    Stopped,
}

/// A source of items being sliced into windows.
pub struct Collection<T, K> {
    max: usize,
    phase: Phase<T, K>,
}

impl<T, K> View for Collection<T, K> {
    type V = Stage<T, K>;

    closed spec fn view(&self) -> Stage<T, K> {
        match self.phase {
            Phase::Idle => Stage::Idle,
            Phase::Filling { buffer, seen } => Stage::Filling { items: buffer@, seen: seen@ },
            Phase::HandingOff { last } => Stage::HandingOff { last },
            Phase::Stopped => Stage::Stopped,
        }
    }
}

/// The stage after one event, and what the driver does next.
pub enum Next<T> {
    Open,
    Fill,
    HandOff(Seq<T>),
    Idle,
    Stop,
}

/// The window after one more item: it closes once `max` distinct keys are in.
pub open spec fn put_in<T, K>(
    max: nat,
    items: Seq<T>,
    seen: Set<K>,
    item: T,
    key: K,
) -> (Stage<T, K>, Next<T>) {
    let items = items.push(item);
    let opening = items.len() == 1;
    let seen = seen.insert(key);
    if seen.len() >= max {
        (Stage::HandingOff { last: false }, Next::HandOff(items))
    } else if opening {
        (Stage::Filling { items, seen }, Next::Open)
    } else {
        (Stage::Filling { items, seen }, Next::Fill)
    }
}

/// Whether an event can happen at a stage: a timer only fires while a window is open,
/// and a consumer only answers for a window it was handed.
pub open spec fn can_happen<T, K>(stage: Stage<T, K>, event: Event<T, K>) -> bool {
    match stage {
        Stage::Idle => event is Item || event is SourceClosed,
        Stage::Filling { .. } => !(event is HandedOff),
        Stage::HandingOff { .. } => event is HandedOff,
        Stage::Stopped => false,
    }
}

/// One step of a collection: the stage that follows and what the driver does next.
pub open spec fn follow<T, K>(max: nat, stage: Stage<T, K>, event: Event<T, K>) -> (
    Stage<T, K>,
    Next<T>,
) {
    match (stage, event) {
        (Stage::Idle, Event::Item(item, key)) => put_in(
            max,
            Seq::empty(),
            Set::empty(),
            item,
            key,
        ),
        (Stage::Filling { items, seen }, Event::Item(item, key)) => put_in(
            max,
            items,
            seen,
            item,
            key,
        ),
        (Stage::Filling { items, .. }, Event::Timer) => (
            Stage::HandingOff { last: false },
            Next::HandOff(items),
        ),
        (Stage::Filling { items, .. }, Event::SourceClosed) => (
            Stage::HandingOff { last: true },
            Next::HandOff(items),
        ),
        (Stage::HandingOff { last }, Event::HandedOff(taken)) => if taken && !last {
            (Stage::Idle, Next::Idle)
        } else {
            (Stage::Stopped, Next::Stop)
        },
        _ => (Stage::Stopped, Next::Stop),
    }
}

/// An executable action does what a step calls for.
pub open spec fn is_action<T>(action: Action<T>, next: Next<T>) -> bool {
    match next {
        Next::Open => action is Open,
        Next::Fill => action is Fill,
        Next::HandOff(items) => action matches Action::HandOff(batch) && batch@ == items,
        Next::Idle => action is Idle,
        Next::Stop => action is Stop,
    }
}

impl<T, K> Collection<T, K> {
    /// The limit of distinct keys per window.
    pub closed spec fn max(&self) -> nat {
        self.max as nat
    }

    /// An open window holds an item, fewer than the limit of distinct keys, and no more
    /// distinct keys than items.
    pub open spec fn wf(&self) -> bool {
        stage_wf(self.max(), self@)
    }
}

/// What holds of every stage a collection comes to.
pub open spec fn stage_wf<T, K>(max: nat, stage: Stage<T, K>) -> bool {
    &&& max > 0
    &&& stage matches Stage::Filling { items, seen } ==> {
        &&& items.len() > 0
        &&& seen.finite()
        &&& 0 < seen.len() < max
        &&& seen.len() <= items.len()
    }
}

impl<T, K: Hash + Eq> Collection<T, K> {
    /// A collection that closes a window at `max_batch_size` distinct keys.
    pub fn new(max_batch_size: Positive) -> (collection: Self)
        ensures
            collection.wf(),
            collection.max() == max_batch_size.value(),
            collection@ is Idle,
    {
        Collection { max: max_batch_size.get(), phase: Phase::Idle }
    }

    /// Takes in one event.
    pub fn on(&mut self, event: Event<T, K>) -> (action: Action<T>)
        requires
            obeys_key_model::<K>(),
            old(self).wf(),
            can_happen(old(self)@, event),
        ensures
            final(self).wf(),
            final(self).max() == old(self).max(),
            final(self)@ == follow(old(self).max(), old(self)@, event).0,
            is_action(action, follow(old(self).max(), old(self)@, event).1),
    {
        let mut phase = Phase::Stopped;
        std::mem::swap(&mut phase, &mut self.phase);
        match (phase, event) {
            (Phase::Idle, Event::Item(item, key)) => self.put_in(
                Vec::new(),
                HashSet::new(),
                item,
                key,
            ),
            (Phase::Filling { buffer, seen }, Event::Item(item, key)) => self.put_in(
                buffer,
                seen,
                item,
                key,
            ),
            (Phase::Filling { buffer, .. }, Event::Timer) => {
                self.phase = Phase::HandingOff { last: false };
                Action::HandOff(buffer)
            },
            (Phase::Filling { buffer, .. }, Event::SourceClosed) => {
                self.phase = Phase::HandingOff { last: true };
                Action::HandOff(buffer)
            },
            (Phase::HandingOff { last: false }, Event::HandedOff(true)) => {
                self.phase = Phase::Idle;
                Action::Idle
            },
            _ => Action::Stop,
        }
    }

    /// Puts an item into a window and closes the window if that fills it.
    fn put_in(&mut self, buffer: Vec<T>, seen: HashSet<K>, item: T, key: K) -> (action: Action<T>)
        requires
            obeys_key_model::<K>(),
            old(self).max() > 0,
            seen@.finite(),
            seen@.len() <= buffer@.len(),
        ensures
            final(self).wf(),
            final(self).max() == old(self).max(),
            final(self)@ == put_in(old(self).max(), buffer@, seen@, item, key).0,
            is_action(action, put_in(old(self).max(), buffer@, seen@, item, key).1),
    {
        let mut buffer = buffer;
        let mut seen = seen;
        seen.insert(key);
        buffer.push(item);
        if seen.len() >= self.max {
            self.phase = Phase::HandingOff { last: false };
            return Action::HandOff(buffer);
        }
        let opening = buffer.len() == 1;
        self.phase = Phase::Filling { buffer, seen };
        if opening {
            Action::Open
        } else {
            Action::Fill
        }
    }
}

/// Where a collection that starts idle comes to by `events`, and the windows it handed off.
pub open spec fn run<T, K>(max: nat, events: Seq<Event<T, K>>) -> (Stage<T, K>, Seq<Seq<T>>)
    decreases events.len(),
{
    if events.len() == 0 {
        (Stage::Idle, Seq::empty())
    } else {
        let (stage, windows) = run(max, events.drop_last());
        let (after, next) = follow(max, stage, events.last());
        match next {
            Next::HandOff(items) => (after, windows.push(items)),
            _ => (after, windows),
        }
    }
}

/// Whether each of `events` can happen where the ones before it led.
pub open spec fn can_run<T, K>(max: nat, events: Seq<Event<T, K>>) -> bool
    decreases events.len(),
{
    events.len() > 0 ==> {
        &&& can_run(max, events.drop_last())
        &&& can_happen(run(max, events.drop_last()).0, events.last())
    }
}

/// The items that arrived, with their keys, in arrival order.
pub open spec fn arrivals<T, K>(events: Seq<Event<T, K>>) -> Seq<(T, K)>
    decreases events.len(),
{
    if events.len() == 0 {
        Seq::empty()
    } else {
        let before = arrivals(events.drop_last());
        match events.last() {
            Event::Item(item, key) => before.push((item, key)),
            _ => before,
        }
    }
}

/// The items of a run of arrivals.
pub open spec fn items_of<T, K>(arrived: Seq<(T, K)>) -> Seq<T> {
    arrived.map_values(|arrival: (T, K)| arrival.0)
}

/// The distinct keys of a run of arrivals.
pub open spec fn keys_of<T, K>(arrived: Seq<(T, K)>) -> Set<K> {
    arrived.map_values(|arrival: (T, K)| arrival.1).to_set()
}

/// Arrivals sliced into windows: those that closed, in order, and the one still open.
#[verifier::reject_recursive_types(T)]
#[verifier::reject_recursive_types(K)]
pub struct Slices<T, K> {
    pub closed: Seq<Seq<(T, K)>>,
    pub open: Seq<(T, K)>,
}

/// How events slice the arrivals: an item that brings the open window to `max` distinct keys
/// closes it, and so do the timer and the end of the source.
pub open spec fn slices<T, K>(max: nat, events: Seq<Event<T, K>>) -> Slices<T, K>
    decreases events.len(),
{
    if events.len() == 0 {
        Slices { closed: Seq::empty(), open: Seq::empty() }
    } else {
        let before = slices(max, events.drop_last());
        match events.last() {
            Event::Item(item, key) => {
                let open = before.open.push((item, key));
                if keys_of(open).len() >= max {
                    Slices { closed: before.closed.push(open), open: Seq::empty() }
                } else {
                    Slices { closed: before.closed, open }
                }
            },
            Event::HandedOff(_) => before,
            _ => if before.open.len() > 0 {
                Slices { closed: before.closed.push(before.open), open: Seq::empty() }
            } else {
                before
            },
        }
    }
}

/// The windows put back together.
pub open spec fn joined<A>(windows: Seq<Seq<A>>) -> Seq<A>
    decreases windows.len(),
{
    if windows.len() == 0 {
        Seq::empty()
    } else {
        joined(windows.drop_last()) + windows.last()
    }
}

/// The items of each window.
pub open spec fn items_of_each<T, K>(windows: Seq<Seq<(T, K)>>) -> Seq<Seq<T>> {
    windows.map_values(|window: Seq<(T, K)>| items_of(window))
}

/// The keys of one more arrival.
proof fn lemma_keys_of_push<T, K>(arrived: Seq<(T, K)>, arrival: (T, K))
    ensures
        keys_of(arrived.push(arrival)) == keys_of(arrived).insert(arrival.1),
        items_of(arrived.push(arrival)) == items_of(arrived).push(arrival.0),
        keys_of(arrived).finite(),
        keys_of(arrived).len() <= arrived.len(),
{
    broadcast use vstd::seq_lib::seq_to_set_is_finite;

    let f = |arrival: (T, K)| arrival.1;
    let before = arrived.map_values(f);
    before.lemma_cardinality_of_set();
    assert(arrived.push(arrival).map_values(f) =~= before.push(arrival.1));
    assert(items_of(arrived.push(arrival)) =~= items_of(arrived).push(arrival.0));
    let after = before.push(arrival.1).to_set();
    assert forall|k: K| #[trigger] after.contains(k) <==> before.to_set().insert(
        arrival.1,
    ).contains(k) by {
        if before.contains(k) {
            let i = before.index_of(k);
            assert(before.push(arrival.1)[i] == k);
        }
        if k == arrival.1 {
            assert(before.push(arrival.1)[before.len() as int] == k);
        }
        if before.push(arrival.1).contains(k) && k != arrival.1 {
            let i = before.push(arrival.1).index_of(k);
            assert(before[i] == k);
        }
    }
    assert(after =~= before.to_set().insert(arrival.1));
}

/// A collection hands off exactly the slices of what arrived, each as soon as it closes,
/// and holds exactly the slice that is still open.
pub proof fn law_collection_slices_the_arrivals<T, K>(max: nat, events: Seq<Event<T, K>>)
    requires
        max > 0,
        can_run(max, events),
    ensures
        stage_wf(max, run(max, events).0),
        run(max, events).1 == items_of_each(slices(max, events).closed),
        match run(max, events).0 {
            Stage::Filling { items, seen } => {
                &&& items == items_of(slices(max, events).open)
                &&& seen == keys_of(slices(max, events).open)
            },
            _ => slices(max, events).open.len() == 0,
        },
    decreases events.len(),
{
    if events.len() == 0 {
        assert(items_of_each(Seq::<Seq<(T, K)>>::empty()) =~= Seq::empty());
    } else {
        law_collection_slices_the_arrivals(max, events.drop_last());
        let before = slices(max, events.drop_last());
        let (stage, windows) = run(max, events.drop_last());
        if !(stage is Filling) {
            assert(before.open =~= Seq::empty());
            assert(keys_of(before.open) =~= Set::empty());
            assert(items_of(before.open) =~= Seq::empty());
        }
        if let Event::Item(item, key) = events.last() {
            lemma_keys_of_push(before.open, (item, key));
        }
        let after = slices(max, events);
        if after.closed.len() > before.closed.len() {
            assert(items_of_each(after.closed) =~= items_of_each(before.closed).push(
                items_of(after.closed.last()),
            ));
        }
    }
}

/// Nothing is lost, duplicated or reordered: the windows, put back together and followed by
/// what is still open, are what arrived.
pub proof fn law_nothing_lost_nothing_duplicated<T, K>(max: nat, events: Seq<Event<T, K>>)
    ensures
        joined(slices(max, events).closed) + slices(max, events).open == arrivals(events),
    decreases events.len(),
{
    if events.len() == 0 {
        assert(Seq::<(T, K)>::empty() + Seq::<(T, K)>::empty() =~= Seq::empty());
    } else {
        law_nothing_lost_nothing_duplicated(max, events.drop_last());
        let before = slices(max, events.drop_last());
        let after = slices(max, events);
        if after.closed.len() > before.closed.len() {
            assert(after.closed.drop_last() =~= before.closed);
        }
        assert(joined(after.closed) + after.open =~= arrivals(events));
    }
}

/// The limit bounds the distinct keys, not the items: no window holds more than `max` distinct
/// keys, one that is still open holds fewer, and none is empty.
pub proof fn law_windows_are_bounded<T, K>(max: nat, events: Seq<Event<T, K>>)
    requires
        max > 0,
    ensures
        forall|i: int|
            #![trigger slices(max, events).closed[i]]
            0 <= i < slices(max, events).closed.len() ==> {
                &&& slices(max, events).closed[i].len() > 0
                &&& keys_of(slices(max, events).closed[i]).len() <= max
            },
        keys_of(slices(max, events).open).len() < max,
    decreases events.len(),
{
    if events.len() == 0 {
        assert(keys_of(Seq::<(T, K)>::empty()) =~= Set::empty());
    } else {
        law_windows_are_bounded(max, events.drop_last());
        let before = slices(max, events.drop_last());
        let after = slices(max, events);
        assert(keys_of(Seq::<(T, K)>::empty()) =~= Set::empty());
        if let Event::Item(item, key) = events.last() {
            lemma_keys_of_push(before.open, (item, key));
        }
        assert forall|i: int|
            #![trigger after.closed[i]]
            0 <= i < after.closed.len() implies after.closed[i].len() > 0 && keys_of(
            after.closed[i],
        ).len() <= max by {
            if i < before.closed.len() {
                assert(after.closed[i] == before.closed[i]);
            }
        }
    }
}

/// Duplicates never close a window by size: an item whose key is in the open window joins it
/// and leaves it open.
pub proof fn law_duplicates_do_not_close_the_window<T, K>(
    max: nat,
    items: Seq<T>,
    seen: Set<K>,
    item: T,
    key: K,
)
    requires
        stage_wf(max, Stage::Filling { items, seen }),
        seen.contains(key),
    ensures
        follow(max, Stage::Filling { items, seen }, Event::Item(item, key)) == (
            Stage::Filling { items: items.push(item), seen },
            Next::<T>::Fill,
        ),
{
    assert(seen.insert(key) =~= seen);
}

/// One step of a collection, for any stage and any event that can happen there.
///
/// An item joins the open window, or opens one. The window closes with it exactly if that brings
/// the distinct keys to `max`. The timer is armed exactly when a window opens and stays open; an
/// item that joins an open window never arms it anew. The timer and the end of the source close the
/// window as it is, and a closed window is handed off whole and in order. After a hand-off the
/// collection goes on if the consumer took it and the source is not at its end, and else it stops.
pub proof fn law_a_step_of_a_collection<T, K: Hash + Eq>(
    collection: &mut Collection<T, K>,
    event: Event<T, K>,
    action: Action<T>,
)
    requires
        call_ensures(Collection::<T, K>::on, (collection, event), action),
        old(collection).wf(),
        can_happen(old(collection)@, event),
    ensures
        final(collection).max() == old(collection).max(),
        action is Open <==> old(collection)@ is Idle && final(collection)@ is Filling,
        action is Fill <==> old(collection)@ is Filling && final(collection)@ is Filling,
        action is HandOff <==> final(collection)@ is HandingOff,
        action is Idle <==> final(collection)@ is Idle,
        action is Stop <==> final(collection)@ is Stopped,
        event is Item ==> {
            let items = if old(collection)@ is Filling {
                old(collection)@->items
            } else {
                Seq::empty()
            };
            let seen = if old(collection)@ is Filling {
                old(collection)@->seen
            } else {
                Set::empty()
            };
            let distinct = seen.len() + if seen.contains(event->Item_1) {
                0int
            } else {
                1int
            };
            if distinct >= old(collection).max() {
                &&& action is HandOff
                &&& action->HandOff_0@ == items.push(event->Item_0)
                &&& !final(collection)@->last
            } else {
                &&& final(collection)@ is Filling
                &&& final(collection)@->items == items.push(event->Item_0)
                &&& final(collection)@->seen == seen.insert(event->Item_1)
            }
        },
        event is Timer ==> {
            &&& action is HandOff
            &&& action->HandOff_0@ == old(collection)@->items
            &&& !final(collection)@->last
        },
        event is SourceClosed && old(collection)@ is Idle ==> action is Stop,
        event is SourceClosed && old(collection)@ is Filling ==> {
            &&& action is HandOff
            &&& action->HandOff_0@ == old(collection)@->items
            &&& final(collection)@->last
        },
        event is HandedOff ==> if event->HandedOff_0 && !old(collection)@->last {
            action is Idle
        } else {
            action is Stop
        },
{
    if let Event::Item(item, key) = event {
        let seen = if old(collection)@ is Filling {
            old(collection)@->seen
        } else {
            Set::empty()
        };
        assert(seen.finite());
        if seen.contains(key) {
            assert(seen.insert(key) =~= seen);
        }
    }
}

/// A collection starts with no window open, and with the limit it was given.
pub proof fn law_a_collection_starts_idle<T, K: Hash + Eq>(
    max_batch_size: Positive,
    collection: Collection<T, K>,
)
    requires
        call_ensures(Collection::<T, K>::new, (max_batch_size,), collection),
    ensures
        collection@ is Idle,
        collection.max() == max_batch_size.value(),
        collection.wf(),
{
}

/// When the timer and an item are ready together, the timer is read: the item waits for the next
/// window. Only a timer that fired keeps an item waiting.
pub proof fn law_the_timer_wins_the_boundary(timer_fired: bool, source: Source)
    requires
        call_ensures(next_source, (timer_fired,), source),
    ensures
        source is Timer <==> timer_fired,
        source is Inbound <==> !timer_fired,
{
}

/// A collection takes whatever can come next: an item or the end of the source while it is idle or
/// a window is open, the timer while one is open, and the consumer's answer, whatever it is, once a
/// window was handed off.
pub proof fn law_a_collection_takes_what_comes<T, K: Hash + Eq>(
    collection: &mut Collection<T, K>,
    event: Event<T, K>,
)
    requires
        obeys_key_model::<K>(),
        old(collection).wf(),
        old(collection)@ is Idle ==> event is Item || event is SourceClosed,
        old(collection)@ is Filling ==> event is Item || event is Timer || event is SourceClosed,
        old(collection)@ is HandingOff ==> event is HandedOff,
        !(old(collection)@ is Stopped),
    ensures
        call_requires(Collection::<T, K>::on, (collection, event)),
{
}

/// A collection is sound wherever its steps lead: its limit is not zero, and an open window holds
/// an item, fewer distinct keys than the limit, and no more of them than items.
pub proof fn law_a_collection_stays_sound<T, K: Hash + Eq>(
    collection: &mut Collection<T, K>,
    event: Event<T, K>,
    action: Action<T>,
)
    requires
        call_ensures(Collection::<T, K>::on, (collection, event), action),
    ensures
        final(collection).wf(),
        final(collection).max() > 0,
        final(collection)@ is Filling ==> {
            &&& final(collection)@->items.len() > 0
            &&& 0 < final(collection)@->seen.len() < final(collection).max()
            &&& final(collection)@->seen.len() <= final(collection)@->items.len()
        },
        action is HandOff && event is Item ==> action->HandOff_0@.len() > 0,
{
}

} // verus!
