//! Pending requests in arrival order.
use crate::ledger::{Ledger, Look};
use crate::liveness::{answers, kept, live_count, looked_at, looks_since, scanned, Line};
use crate::liveness::{
    kept_places, law_all_gone_none_kept, law_all_live_all_kept, law_kept_in_order,
    are_places, flags_from, lemma_scan_was_short,
};
use crate::liveness::{lemma_kept_len, lemma_live_count_front};
use std::collections::VecDeque;
use tokio::sync::oneshot;
use vstd::prelude::*;

verus! {

/// A pending request: the input and the channel its caller awaits.
pub type Pending<I, O> = (I, oneshot::Sender<O>);

/// Pending requests, oldest first. An entry whose caller left stays until a scan buries it.
#[verifier::reject_recursive_types(O)]
pub struct Queue<I, O> {
    items: VecDeque<Pending<I, O>>,
    ledger: Ledger<O>,
}

impl<I, O> View for Queue<I, O> {
    type V = Seq<Pending<I, O>>;

    closed spec fn view(&self) -> Seq<Pending<I, O>> {
        self.items@
    }
}

impl<I, O> Default for Queue<I, O> {
    /// The empty queue.
    fn default() -> (queue: Self)
        ensures
            queue@ == Seq::<Pending<I, O>>::empty(),
            queue.looks() == Seq::<Look<O>>::empty(),
    {
        Queue { items: VecDeque::new(), ledger: Ledger::default() }
    }
}

/// The channels of some entries, in order.
pub open spec fn channels<I, O>(entries: Seq<Pending<I, O>>) -> Seq<oneshot::Sender<O>> {
    entries.map_values(|entry: Pending<I, O>| entry.1)
}

impl<I, O> Line<O> for VecDeque<Pending<I, O>> {
    open spec fn channels(&self) -> Seq<oneshot::Sender<O>> {
        channels(self@)
    }

    fn length(&self) -> (length: usize) {
        self.len()
    }

    fn channel(&self, i: usize) -> (channel: &oneshot::Sender<O>) {
        &self[i].1
    }
}

impl<I, O> Queue<I, O> {
    /// Everything that was read of the channels of entries.
    pub closed spec fn looks(&self) -> Seq<Look<O>> {
        self.ledger@
    }

    /// Appends a request.
    pub fn push(&mut self, input: I, tx: oneshot::Sender<O>)
        ensures
            final(self)@ == old(self)@.push((input, tx)),
            final(self).looks() == old(self).looks(),
    {
        self.items.push_back((input, tx));
    }

    /// The raw count: entries whose receiver is gone count until a scan buries them.
    pub fn len(&self) -> (len: usize)
        ensures
            len == self@.len(),
    {
        self.items.len()
    }

    /// Whether the raw count is zero.
    pub fn is_empty(&self) -> (empty: bool)
        ensures
            empty == (self@.len() == 0),
    {
        self.items.len() == 0
    }

    /// Whether the raw count covers `n`: what a caller waiting for a threshold waits for.
    pub fn reached(&self, n: usize) -> (reached: bool)
        ensures
            reached == (self@.len() >= n),
    {
        self.items.len() >= n
    }

    /// Up to `n` still-awaited entries in arrival order.
    /// Entries met on the way whose caller left are dropped and do not count against `n`;
    /// nothing past the `n`-th live entry is looked at.
    pub fn take(&mut self, n: usize) -> (live: Vec<Pending<I, O>>)
        ensures
            ({
                let closed = answers(looks_since(old(self).looks(), final(self).looks()));
                &&& looked_at(
                    old(self).looks(),
                    final(self).looks(),
                    channels(old(self)@.take(closed.len() as int)),
                )
                &&& is_take(old(self)@, n as nat, closed, live@, final(self)@)
            }),
    {
        let closed = self.ledger.survey(&self.items, n);
        proof {
            let k = closed@.len() as int;
            assert(channels(self@).take(k) =~= channels(self@.take(k)));
        }
        let live = self.take_observed(n, &closed);
        proof {
            assert(closed@.take(closed@.len() as int) =~= closed@);
        }
        live
    }

    /// [`Queue::take`] for a given reading of the channels:
    /// `closed[i]` says whether the caller of the `i`-th entry left.
    pub fn take_observed(&mut self, n: usize, closed: &Vec<bool>) -> (live: Vec<Pending<I, O>>)
        requires
            closed@.len() <= old(self)@.len(),
        ensures
            ({
                let end = scanned(closed@, n as nat) as int;
                &&& live@ == kept(old(self)@.take(end), closed@.take(end))
                &&& final(self)@ == old(self)@.skip(end)
            }),
            final(self).looks() == old(self).looks(),
    {
        let mut live: Vec<Pending<I, O>> = Vec::new();
        let mut i: usize = 0;
        proof {
            assert(closed@.skip(0) =~= closed@);
            assert(self@.skip(0) =~= self@);
        }
        while live.len() < n && i < closed.len()
            invariant
                i <= closed@.len() <= old(self)@.len(),
                live@.len() <= n,
                self.looks() == old(self).looks(),
                self@ == old(self)@.skip(i as int),
                live@ == kept(old(self)@.take(i as int), closed@.take(i as int)),
                scanned(closed@, n as nat) == i + scanned(
                    closed@.skip(i as int),
                    (n - live@.len()) as nat,
                ),
            decreases closed@.len() - i,
        {
            let ghost rest = closed@.skip(i as int);
            let ghost seen = old(self)@.take(i + 1);
            proof {
                assert(rest.drop_first() =~= closed@.skip(i + 1));
                assert(seen.drop_last() =~= old(self)@.take(i as int));
                assert(closed@.take(i + 1).drop_last() =~= closed@.take(i as int));
                assert(old(self)@.skip(i as int).drop_first() =~= old(self)@.skip(i + 1));
            }
            match self.items.pop_front() {
                None => {
                    proof {
                        assert(false);
                    }
                },
                Some(entry) => {
                    proof {
                        assert(self@ =~= old(self)@.skip(i + 1));
                        assert(entry == seen.last());
                    }
                    if !closed[i] {
                        live.push(entry);
                    }
                },
            }
            i = i + 1;
        }
        live
    }

    /// Exactly `n` live entries in arrival order, or `None`.
    /// Below the raw threshold nothing is looked at; otherwise every entry whose caller left
    /// is dropped first, whether or not enough live ones remain.
    pub fn take_if(&mut self, n: usize) -> (batch: Option<Vec<Pending<I, O>>>)
        ensures
            ({
                let closed = answers(looks_since(old(self).looks(), final(self).looks()));
                let asked = if old(self)@.len() >= n {
                    old(self)@
                } else {
                    Seq::empty()
                };
                &&& looked_at(old(self).looks(), final(self).looks(), channels(asked))
                &&& is_take_if(old(self)@, n as nat, closed, batch, final(self)@)
            }),
    {
        if self.items.len() < n {
            proof {
                let looks = self.looks();
                assert(looks_since(looks, looks) =~= Seq::empty());
                assert(looks.take(looks.len() as int) =~= looks);
            }
            return None;
        }
        let closed = self.ledger.survey(&self.items, usize::MAX);
        proof {
            assert(channels(self@).take(closed@.len() as int) =~= channels(self@));
        }
        self.take_if_observed(n, &closed)
    }

    /// [`Queue::take_if`] for a given reading of the channels:
    /// `closed[i]` says whether the caller of the `i`-th entry left.
    pub fn take_if_observed(&mut self, n: usize, closed: &Vec<bool>) -> (batch: Option<
        Vec<Pending<I, O>>,
    >)
        requires
            old(self)@.len() >= n ==> closed@.len() == old(self)@.len(),
        ensures
            is_take_if(old(self)@, n as nat, closed@, batch, final(self)@),
            final(self).looks() == old(self).looks(),
    {
        if self.items.len() < n {
            return None;
        }
        let mut live: VecDeque<Pending<I, O>> = VecDeque::new();
        let mut i: usize = 0;
        while i < closed.len()
            invariant
                i <= closed@.len() == old(self)@.len(),
                self.looks() == old(self).looks(),
                self@ == old(self)@.skip(i as int),
                live@ == kept(old(self)@.take(i as int), closed@.take(i as int)),
            decreases closed@.len() - i,
        {
            let ghost seen = old(self)@.take(i + 1);
            proof {
                assert(seen.drop_last() =~= old(self)@.take(i as int));
                assert(closed@.take(i + 1).drop_last() =~= closed@.take(i as int));
            }
            match self.items.pop_front() {
                None => {
                    proof {
                        assert(false);
                    }
                },
                Some(entry) => {
                    proof {
                        assert(self@ =~= old(self)@.skip(i + 1));
                        assert(entry == seen.last());
                    }
                    if !closed[i] {
                        live.push_back(entry);
                    }
                },
            }
            i = i + 1;
        }
        proof {
            assert(old(self)@.take(i as int) =~= old(self)@);
            assert(closed@.take(i as int) =~= closed@);
        }
        let ghost all = live@;
        self.items = live;
        if self.items.len() < n {
            return None;
        }
        let mut batch: Vec<Pending<I, O>> = Vec::new();
        while batch.len() < n
            invariant
                batch@.len() <= n <= all.len(),
                self.looks() == old(self).looks(),
                batch@ == all.take(batch@.len() as int),
                self@ == all.skip(batch@.len() as int),
            decreases n - batch@.len(),
        {
            let ghost k = batch@.len() as int;
            if let Some(entry) = self.items.pop_front() {
                proof {
                    assert(self@ =~= all.skip(k + 1));
                }
                batch.push(entry);
                proof {
                    assert(batch@ =~= all.take(k + 1));
                }
            }
        }
        Some(batch)
    }
}

/// What one `take(n)` did to the entries `before`, given what it read of the channels from
/// the front on: `batch` left, `after` stays.
pub open spec fn is_take<I, O>(
    before: Seq<Pending<I, O>>,
    n: nat,
    closed: Seq<bool>,
    batch: Seq<Pending<I, O>>,
    after: Seq<Pending<I, O>>,
) -> bool {
    let end = closed.len() as int;
    &&& end <= before.len()
    &&& scanned(closed, n) == end
    &&& live_count(closed) == n || end == before.len()
    &&& batch == kept(before.take(end), closed)
    &&& after == before.skip(end)
}

/// What one `take_if(n)` did to the entries `before`, given what it read of the channels.
pub open spec fn is_take_if<I, O>(
    before: Seq<Pending<I, O>>,
    n: nat,
    closed: Seq<bool>,
    batch: Option<Vec<Pending<I, O>>>,
    after: Seq<Pending<I, O>>,
) -> bool {
    if before.len() < n {
        batch is None && after == before
    } else {
        let live = kept(before, closed);
        &&& closed.len() == before.len()
        &&& if live.len() < n {
            batch is None && after == live
        } else {
            batch matches Some(taken) && taken@ == live.take(n as int) && after == live.skip(n as int)
        }
    }
}

/// A take delivers at most `n`, and every entry it scanned was either delivered or buried:
/// none is delivered twice and none vanishes while its caller waits.
pub proof fn law_take_conserves<I, O>(
    before: Seq<Pending<I, O>>,
    n: nat,
    closed: Seq<bool>,
    batch: Seq<Pending<I, O>>,
    after: Seq<Pending<I, O>>,
) -> (at: Seq<int>)
    requires
        is_take(before, n, closed, batch, after),
    ensures
        batch.len() <= n,
        batch.len() + (closed.len() - live_count(closed)) + after.len() == before.len(),
        kept_places(before.take(closed.len() as int), closed, at),
        batch == kept(before.take(closed.len() as int), closed),
        before == before.take(closed.len() as int) + after,
{
    let scan = before.take(closed.len() as int);
    lemma_kept_len(scan, closed);
    lemma_scanned_live(closed, n);
    assert(before =~= scan + after);
    law_kept_in_order(scan, closed)
}

/// A scan meets at most `n` unset flags.
proof fn lemma_scanned_live(closed: Seq<bool>, n: nat)
    requires
        scanned(closed, n) == closed.len(),
    ensures
        live_count(closed) <= n,
    decreases closed.len(),
{
    if closed.len() > 0 {
        let rest: nat = if closed.first() {
            n
        } else {
            (n - 1) as nat
        };
        lemma_live_count_front(closed);
        lemma_scanned_live(closed.drop_first(), rest);
    }
}

/// While every caller waits, a take is the first `n` entries in arrival order and the rest stays.
pub proof fn law_take_of_live_is_a_prefix<I, O>(
    before: Seq<Pending<I, O>>,
    n: nat,
    closed: Seq<bool>,
    batch: Seq<Pending<I, O>>,
    after: Seq<Pending<I, O>>,
)
    requires
        is_take(before, n, closed, batch, after),
        forall|k: int| 0 <= k < closed.len() ==> !#[trigger] closed[k],
    ensures
        batch + after == before,
        batch.len() == if n <= before.len() {
            n
        } else {
            before.len()
        },
{
    let scan = before.take(closed.len() as int);
    law_all_live_all_kept(scan, closed);
    lemma_scanned_live(closed, n);
    assert(batch + after =~= before);
}

/// A take with a limit no smaller than the raw count drains the queue.
pub proof fn law_unbounded_take_drains<I, O>(
    before: Seq<Pending<I, O>>,
    n: nat,
    closed: Seq<bool>,
    batch: Seq<Pending<I, O>>,
    after: Seq<Pending<I, O>>,
)
    requires
        is_take(before, n, closed, batch, after),
        n >= before.len(),
    ensures
        after == Seq::<Pending<I, O>>::empty(),
{
    lemma_kept_len(before.take(closed.len() as int), closed);
    assert(after =~= Seq::empty());
}

/// Once every caller left, a take that asks for anything buries the whole queue
/// and delivers nothing.
pub proof fn law_take_of_dead_buries_all<I, O>(
    before: Seq<Pending<I, O>>,
    n: nat,
    closed: Seq<bool>,
    batch: Seq<Pending<I, O>>,
    after: Seq<Pending<I, O>>,
)
    requires
        is_take(before, n, closed, batch, after),
        n > 0,
        forall|k: int| 0 <= k < closed.len() ==> #[trigger] closed[k],
    ensures
        batch == Seq::<Pending<I, O>>::empty(),
        after == Seq::<Pending<I, O>>::empty(),
{
    law_all_gone_none_kept(before.take(closed.len() as int), closed);
    assert(after =~= Seq::empty());
}

/// A threshold take is all or nothing: exactly `n` entries leave, or none.
/// What stays and what leaves are together the live entries in arrival order, unless the raw
/// count was short, when nothing was touched.
pub proof fn law_take_if_is_all_or_nothing<I, O>(
    before: Seq<Pending<I, O>>,
    n: nat,
    closed: Seq<bool>,
    batch: Option<Vec<Pending<I, O>>>,
    after: Seq<Pending<I, O>>,
)
    requires
        is_take_if(before, n, closed, batch, after),
    ensures
        batch matches Some(taken) ==> taken@.len() == n && taken@ + after == kept(before, closed),
        batch is None ==> after == if before.len() < n {
            before
        } else {
            kept(before, closed)
        },
        batch is Some <==> before.len() >= n && live_count(closed) >= n,
{
    if before.len() >= n {
        lemma_kept_len(before, closed);
        if let Some(taken) = batch {
            assert(taken@ + after =~= kept(before, closed));
        }
    }
}

/// The entries a take delivers, by place: what follows from the readings alone.
proof fn lemma_taken_places<T>(items: Seq<T>, closed: Seq<bool>, n: nat) -> (at: Seq<int>)
    requires
        items.len() == closed.len(),
        scanned(closed, n) == closed.len(),
    ensures
        kept_places(items, closed, at),
        are_places(closed, at),
        at.len() == live_count(closed),
        at.len() <= n,
        closed.len() > 0 && at.len() == n ==> at.last() == closed.len() - 1,
        n == 0 ==> closed.len() == 0,
{
    let at = law_kept_in_order(items, closed);
    lemma_kept_len(items, closed);
    lemma_scanned_live(closed, n);
    if closed.len() > 0 {
        let m = closed.len() - 1;
        lemma_scan_was_short(closed, n, m);
        assert(closed.take(m) =~= closed.drop_last());
        if at.len() == n {
            assert(!closed[m]);
            let j = at.index_of(m);
            if j < at.len() - 1 {
                assert(at[j] < at[at.len() - 1]);
            }
        }
    }
    at
}

/// A take serves waiting callers in arrival order and leaves nobody behind without need.
///
/// It asks the callers of the first entries, each once and in order, and takes these entries out.
/// What it delivers is exactly those of them whose callers were found waiting, each once, in
/// order. It delivers at most `n`, and fewer only if nothing stays behind; it asks nobody after
/// the `n`-th that waits.
pub proof fn law_a_take_serves_the_waiting_in_order<I, O>(
    queue: &mut Queue<I, O>,
    n: usize,
    live: Vec<Pending<I, O>>,
)
    requires
        call_ensures(Queue::<I, O>::take, (queue, n), live),
    ensures
        ({
            let before = old(queue)@;
            let after = final(queue)@;
            let looks = final(queue).looks();
            let start = old(queue).looks().len() as int;
            let asked = looks.len() - start;
            &&& 0 <= asked <= before.len()
            &&& looks.take(start) == old(queue).looks()
            &&& forall|k: int|
                0 <= k < asked ==> (#[trigger] looks[start + k]).respond == before[k].1
            &&& after == before.skip(asked)
            &&& exists|at: Seq<int>| #[trigger]
                are_places(flags_from(looks, start), at) && at.len() == live@.len() && forall|i: int|
                    0 <= i < at.len() ==> #[trigger] live@[i] == before[at[i]]
            &&& live@.len() <= n
            &&& live@.len() == n || after.len() == 0
            &&& asked > 0 && live@.len() == n ==> !looks.last().closed
            &&& n == 0 ==> asked == 0
        }),
{
    let before = old(queue)@;
    let looks = final(queue).looks();
    let start = old(queue).looks().len() as int;
    let since = looks_since(old(queue).looks(), looks);
    let closed = answers(since);
    let asked = closed.len() as int;
    let scan = before.take(asked);
    assert forall|k: int| 0 <= k < asked implies (#[trigger] looks[start + k]).respond
        == before[k].1 by {
        assert(since[k].respond == channels(scan)[k]);
    }
    assert(flags_from(looks, start) =~= closed);
    let at = lemma_taken_places(scan, closed, n as nat);
    if asked > 0 && live@.len() == n {
        assert(!closed[at.last()]);
    }
}

/// A take from given readings delivers exactly the entries read as waiting, in order, up to the
/// `n`-th, and takes out what it went past; what was not read stays.
pub proof fn law_a_take_goes_by_the_readings<I, O>(
    queue: &mut Queue<I, O>,
    n: usize,
    closed: Vec<bool>,
    live: Vec<Pending<I, O>>,
)
    requires
        call_ensures(Queue::<I, O>::take_observed, (queue, n, &closed), live),
        closed@.len() <= old(queue)@.len(),
    ensures
        ({
            let before = old(queue)@;
            let after = final(queue)@;
            let m = before.len() - after.len();
            &&& 0 <= m <= closed@.len()
            &&& after == before.skip(m)
            &&& exists|at: Seq<int>| #[trigger]
                are_places(closed@.take(m), at) && at.len() == live@.len() && forall|i: int|
                    0 <= i < at.len() ==> #[trigger] live@[i] == before[at[i]]
            &&& live@.len() <= n
            &&& live@.len() == n || m == closed@.len()
            &&& m > 0 && live@.len() == n ==> !closed@[m - 1]
            &&& n == 0 ==> m == 0
        }),
        final(queue).looks() == old(queue).looks(),
{
    let before = old(queue)@;
    let end = scanned(closed@, n as nat) as int;
    lemma_scanned_prefix(closed@, n as nat);
    let scan = before.take(end);
    let read = closed@.take(end);
    let at = lemma_taken_places(scan, read, n as nat);
    if end > 0 && live@.len() == n {
        assert(!read[at.last()]);
    }
}

/// A scan is the same on the flags it read alone, and ends early only with `n` unset ones.
proof fn lemma_scanned_prefix(closed: Seq<bool>, n: nat)
    ensures
        scanned(closed, n) <= closed.len(),
        scanned(closed.take(scanned(closed, n) as int), n) == scanned(closed, n),
        live_count(closed.take(scanned(closed, n) as int)) == n || scanned(closed, n)
            == closed.len(),
    decreases closed.len(),
{
    let end = scanned(closed, n) as int;
    if closed.len() == 0 || n == 0 {
        assert(closed.take(end) =~= Seq::empty());
    } else {
        let rest: nat = if closed.first() {
            n
        } else {
            (n - 1) as nat
        };
        lemma_scanned_prefix(closed.drop_first(), rest);
        assert(closed.take(end).drop_first() =~= closed.drop_first().take(end - 1));
        assert(closed.take(end).first() == closed.first());
        lemma_live_count_front(closed.take(end));
    }
}

/// A threshold take is exact and loses nobody that waits.
///
/// Below `n` entries it asks nobody and changes nothing. Otherwise it asks every caller once, in
/// order, and buries the entries of those found gone. If at least `n` wait, the first `n` of them
/// leave, in order; if not, none does. All others that wait stay, in order.
pub proof fn law_a_threshold_take_is_exact<I, O>(
    queue: &mut Queue<I, O>,
    n: usize,
    batch: Option<Vec<Pending<I, O>>>,
)
    requires
        call_ensures(Queue::<I, O>::take_if, (queue, n), batch),
    ensures
        ({
            let before = old(queue)@;
            let after = final(queue)@;
            let looks = final(queue).looks();
            let start = old(queue).looks().len() as int;
            if before.len() < n {
                batch is None && after == before && looks == old(queue).looks()
            } else {
                &&& looks.len() == start + before.len()
                &&& looks.take(start) == old(queue).looks()
                &&& forall|k: int|
                    0 <= k < before.len() ==> (#[trigger] looks[start + k]).respond == before[k].1
                &&& exists|at: Seq<int>| #[trigger]
                    are_places(flags_from(looks, start), at) && splits_off(
                        before,
                        at,
                        n,
                        batch,
                        after,
                    )
            }
        }),
{
    let before = old(queue)@;
    let after = final(queue)@;
    let looks = final(queue).looks();
    let start = old(queue).looks().len() as int;
    let since = looks_since(old(queue).looks(), looks);
    let closed = answers(since);
    if before.len() < n {
        assert(looks =~= looks.take(start));
    } else {
        assert forall|k: int| 0 <= k < before.len() implies (#[trigger] looks[start + k]).respond
            == before[k].1 by {
            assert(since[k].respond == channels(before)[k]);
        }
        assert(flags_from(looks, start) =~= closed);
        let at = law_kept_in_order(before, closed);
        assert(are_places(closed, at));
        assert(splits_off(before, at, n, batch, after));
    }
}

/// Of the entries at the places `at`, the first `n` are the batch if there are so many, and the
/// others stay, in order.
pub open spec fn splits_off<I, O>(
    before: Seq<Pending<I, O>>,
    at: Seq<int>,
    n: usize,
    batch: Option<Vec<Pending<I, O>>>,
    after: Seq<Pending<I, O>>,
) -> bool {
    let taken = if at.len() >= n {
        n as int
    } else {
        0
    };
    &&& batch is Some <==> at.len() >= n
    &&& batch is Some ==> batch->0@.len() == n && forall|i: int|
        0 <= i < n ==> #[trigger] batch->0@[i] == before[at[i]]
    &&& after.len() == at.len() - taken
    &&& forall|i: int| 0 <= i < after.len() ==> #[trigger] after[i] == before[at[taken + i]]
}

/// A threshold take from given readings is exact in the same way.
pub proof fn law_a_threshold_take_goes_by_the_readings<I, O>(
    queue: &mut Queue<I, O>,
    n: usize,
    closed: Vec<bool>,
    batch: Option<Vec<Pending<I, O>>>,
)
    requires
        call_ensures(Queue::<I, O>::take_if_observed, (queue, n, &closed), batch),
        closed@.len() == old(queue)@.len(),
    ensures
        final(queue).looks() == old(queue).looks(),
        old(queue)@.len() < n ==> batch is None && final(queue)@ == old(queue)@,
        old(queue)@.len() >= n ==> exists|at: Seq<int>| #[trigger]
            are_places(closed@, at) && splits_off(old(queue)@, at, n, batch, final(queue)@),
{
    let at = law_kept_in_order(old(queue)@, closed@);
    assert(are_places(closed@, at));
    if old(queue)@.len() >= n {
        assert(splits_off(old(queue)@, at, n, batch, final(queue)@));
    }
}

/// A pushed request is the newest: it stands behind all others, which stay as they were, and
/// nobody is asked anything.
pub proof fn law_a_push_stands_last<I, O>(
    queue: &mut Queue<I, O>,
    input: I,
    tx: oneshot::Sender<O>,
)
    requires
        call_ensures(Queue::<I, O>::push, (queue, input, tx), ()),
    ensures
        final(queue)@.len() == old(queue)@.len() + 1,
        forall|i: int| 0 <= i < old(queue)@.len() ==> #[trigger] final(queue)@[i] == old(queue)@[i],
        final(queue)@.last().0 == input,
        final(queue)@.last().1 == tx,
        final(queue).looks() == old(queue).looks(),
{
}

/// The count, the emptiness and the threshold of a queue agree, and count every entry there is,
/// whether its caller waits or not.
pub proof fn law_counts_agree<I, O>(
    queue: Queue<I, O>,
    n: usize,
    len: usize,
    empty: bool,
    reached: bool,
)
    requires
        call_ensures(Queue::<I, O>::len, (&queue,), len),
        call_ensures(Queue::<I, O>::is_empty, (&queue,), empty),
        call_ensures(Queue::<I, O>::reached, (&queue, n), reached),
    ensures
        len == queue@.len(),
        empty <==> len == 0,
        reached <==> n <= len,
{
}

} // verus!
