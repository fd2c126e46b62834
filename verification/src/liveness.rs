//! Which callers still wait: reading reply channels and dropping the entries nobody awaits.
use crate::ledger::{Ledger, Look};
use tokio::sync::oneshot;
use vstd::prelude::*;

verus! {

/// Things in a row, each with the reply channel of its caller.
pub trait Line<O> {
    /// The channels, in order.
    spec fn channels(&self) -> Seq<oneshot::Sender<O>>;

    /// How long the line is.
    fn length(&self) -> (length: usize)
        ensures
            length == self.channels().len(),
    ;

    /// The channel at `i`.
    fn channel(&self, i: usize) -> (channel: &oneshot::Sender<O>)
        requires
            i < self.channels().len(),
        ensures
            *channel == self.channels()[i as int],
    ;
}

impl<O> Ledger<O> {
    /// Looks at the channels of a line from the front on, until `n` callers were found waiting or
    /// the line ends: whether each caller that was looked at is gone.
    pub fn survey<L: Line<O>>(&mut self, line: &L, n: usize) -> (closed: Vec<bool>)
        ensures
            closed@ == answers(looks_since(old(self)@, final(self)@)),
            closed@.len() <= line.channels().len(),
            looked_at(old(self)@, final(self)@, line.channels().take(closed@.len() as int)),
            scanned(closed@, n as nat) == closed@.len(),
            live_count(closed@) == n || closed@.len() == line.channels().len(),
            n == usize::MAX ==> closed@.len() == line.channels().len(),
    {
        let length: usize = line.length();
        let mut closed: Vec<bool> = Vec::new();
        let mut found: usize = 0;
        proof {
            assert(answers(looks_since(self@, self@)) =~= closed@);
            assert(self@.take(self@.len() as int) =~= self@);
        }
        while found < n && closed.len() < length
            invariant
                length == line.channels().len(),
                closed@.len() <= line.channels().len(),
                found == live_count(closed@),
                found <= n,
                found <= closed@.len(),
                scanned(closed@, n as nat) == closed@.len(),
                closed@ == answers(looks_since(old(self)@, self@)),
                looked_at(old(self)@, self@, line.channels().take(closed@.len() as int)),
            decreases line.channels().len() - closed@.len(),
        {
            let ghost k = closed@.len() as int;
            let ghost seen = self@;
            let ghost before = closed@;
            let gone = self.is_closed(line.channel(closed.len()));
            closed.push(gone);
            proof {
                assert(closed@.drop_last() =~= before);
                lemma_scanned_all(closed@, n as nat);
                let asked = line.channels().take(k);
                lemma_looked_at_one_more(old(self)@, seen, asked, self@.last());
                assert(asked.push(line.channels()[k]) =~= line.channels().take(k + 1));
            }
            if !gone {
                found = found + 1;
            }
        }
        closed
    }
}

/// What was read between two states of a record.
pub open spec fn looks_since<O>(before: Seq<Look<O>>, after: Seq<Look<O>>) -> Seq<Look<O>> {
    after.skip(before.len() as int)
}

/// The record went from `before` to `after` by one look at each of these channels, in order.
pub open spec fn looked_at<O>(
    before: Seq<Look<O>>,
    after: Seq<Look<O>>,
    channels: Seq<oneshot::Sender<O>>,
) -> bool {
    &&& after.len() == before.len() + channels.len()
    &&& after.take(before.len() as int) == before
    &&& forall|i: int|
        0 <= i < channels.len() ==> (#[trigger] looks_since(before, after)[i]).respond
            == channels[i]
}

/// The answers of some looks.
pub open spec fn answers<O>(looks: Seq<Look<O>>) -> Seq<bool> {
    looks.map_values(|look: Look<O>| look.closed)
}

/// One more look at one more channel.
proof fn lemma_looked_at_one_more<O>(
    before: Seq<Look<O>>,
    middle: Seq<Look<O>>,
    channels: Seq<oneshot::Sender<O>>,
    look: Look<O>,
)
    requires
        looked_at(before, middle, channels),
    ensures
        looked_at(before, middle.push(look), channels.push(look.respond)),
        answers(looks_since(before, middle.push(look))) == answers(
            looks_since(before, middle),
        ).push(look.closed),
{
    let after = middle.push(look);
    assert(after.take(before.len() as int) =~= middle.take(before.len() as int));
    assert(looks_since(before, after) =~= looks_since(before, middle).push(look));
    assert(answers(looks_since(before, after)) =~= answers(looks_since(before, middle)).push(
        look.closed,
    ));
}

/// The items of `items` whose flag in `closed` is not set, in their order.
pub open spec fn kept<T>(items: Seq<T>, closed: Seq<bool>) -> Seq<T>
    recommends
        items.len() == closed.len(),
    decreases items.len(),
{
    if items.len() == 0 {
        Seq::empty()
    } else {
        let before = kept(items.drop_last(), closed.drop_last());
        if closed.last() {
            before
        } else {
            before.push(items.last())
        }
    }
}

/// How many of the flags are not set.
pub open spec fn live_count(closed: Seq<bool>) -> nat
    decreases closed.len(),
{
    if closed.len() == 0 {
        0
    } else {
        live_count(closed.drop_last()) + if closed.last() {
            0nat
        } else {
            1nat
        }
    }
}

/// How many flags a scan reads that stops right after the `n`-th flag that is not set.
pub open spec fn scanned(closed: Seq<bool>, n: nat) -> nat
    decreases closed.len(),
{
    if closed.len() == 0 || n == 0 {
        0
    } else if closed.first() {
        1 + scanned(closed.drop_first(), n)
    } else {
        1 + scanned(closed.drop_first(), (n - 1) as nat)
    }
}

/// As many items are kept as there are flags that are not set.
pub proof fn lemma_kept_len<T>(items: Seq<T>, closed: Seq<bool>)
    requires
        items.len() == closed.len(),
    ensures
        kept(items, closed).len() == live_count(closed),
        live_count(closed) <= closed.len(),
    decreases items.len(),
{
    if items.len() > 0 {
        lemma_kept_len(items.drop_last(), closed.drop_last());
    }
}

/// Counting from the front: the first flag, then the others.
pub proof fn lemma_live_count_front(closed: Seq<bool>)
    requires
        closed.len() > 0,
    ensures
        live_count(closed) == live_count(closed.drop_first()) + if closed.first() {
            0nat
        } else {
            1nat
        },
    decreases closed.len(),
{
    if closed.len() == 1 {
        assert(closed.drop_first() =~= Seq::empty());
        assert(closed.drop_last() =~= Seq::empty());
    } else {
        lemma_live_count_front(closed.drop_last());
        assert(closed.drop_first().drop_last() =~= closed.drop_last().drop_first());
    }
}

/// A scan that has met fewer than `n` unset flags reads everything there is.
proof fn lemma_scanned_all(closed: Seq<bool>, n: nat)
    requires
        closed.len() > 0 ==> live_count(closed.drop_last()) < n,
    ensures
        scanned(closed, n) == closed.len(),
    decreases closed.len(),
{
    if closed.len() > 0 {
        let rest: nat = if closed.first() {
            n
        } else {
            (n - 1) as nat
        };
        if closed.len() > 1 {
            assert(closed.drop_first().drop_last() =~= closed.drop_last().drop_first());
            lemma_live_count_front(closed.drop_last());
        }
        lemma_scanned_all(closed.drop_first(), rest);
    }
}

/// Where the kept items stood: `at` lists, in increasing order, exactly the places whose flag
/// is not set.
pub open spec fn kept_places<T>(items: Seq<T>, closed: Seq<bool>, at: Seq<int>) -> bool {
    &&& at.len() == kept(items, closed).len()
    &&& forall|i: int|
        #![trigger at[i]]
        0 <= i < at.len() ==> 0 <= at[i] < items.len() && !closed[at[i]] && kept(items, closed)[i]
            == items[at[i]]
    &&& forall|i: int, j: int| 0 <= i < j < at.len() ==> at[i] < at[j]
    &&& forall|k: int| 0 <= k < items.len() && !#[trigger] closed[k] ==> at.contains(k)
}

/// Keeping reorders nothing, duplicates nothing and loses nothing but flagged items:
/// the kept items stand one to one for the places whose flag is not set.
pub proof fn law_kept_in_order<T>(items: Seq<T>, closed: Seq<bool>) -> (at: Seq<int>)
    requires
        items.len() == closed.len(),
    ensures
        kept_places(items, closed, at),
        at.len() == kept(items, closed).len(),
        forall|i: int|
            #![trigger at[i]]
            0 <= i < at.len() ==> 0 <= at[i] < items.len() && !closed[at[i]] && kept(
                items,
                closed,
            )[i] == items[at[i]],
        forall|i: int, j: int| 0 <= i < j < at.len() ==> at[i] < at[j],
        forall|k: int| 0 <= k < items.len() && !#[trigger] closed[k] ==> at.contains(k),
    decreases items.len(),
{
    if items.len() == 0 {
        Seq::empty()
    } else {
        let last = items.len() - 1;
        let before = law_kept_in_order(items.drop_last(), closed.drop_last());
        if closed.last() {
            assert forall|k: int| 0 <= k < items.len() && !#[trigger] closed[k] implies before.contains(
                k,
            ) by {
                assert(!closed.drop_last()[k]);
            }
            before
        } else {
            let at = before.push(last);
            assert forall|k: int| 0 <= k < items.len() && !#[trigger] closed[k] implies at.contains(
                k,
            ) by {
                if k == last {
                    assert(at[at.len() - 1] == k);
                } else {
                    assert(!closed.drop_last()[k]);
                    let i = before.index_of(k);
                    assert(at[i] == k);
                }
            }
            at
        }
    }
}

/// `at` lists, in increasing order, exactly the places whose flag is not set.
pub open spec fn are_places(closed: Seq<bool>, at: Seq<int>) -> bool {
    &&& forall|i: int| 0 <= i < at.len() ==> 0 <= #[trigger] at[i] < closed.len() && !closed[at[i]]
    &&& forall|i: int, j: int| 0 <= i < j < at.len() ==> at[i] < at[j]
    &&& forall|k: int| 0 <= k < closed.len() && !#[trigger] closed[k] ==> at.contains(k)
}

/// The count is the number of places whose flag is not set.
pub proof fn law_live_count_is_how_many_wait(closed: Seq<bool>) -> (at: Seq<int>)
    ensures
        at.len() == live_count(closed),
        are_places(closed, at),
{
    lemma_kept_len(closed, closed);
    law_kept_in_order(closed, closed)
}

/// A scan that read everything had met fewer than `n` unset flags before each flag it read.
pub proof fn lemma_scan_was_short(closed: Seq<bool>, n: nat, m: int)
    requires
        scanned(closed, n) == closed.len(),
        0 <= m < closed.len(),
    ensures
        live_count(closed.take(m)) < n,
    decreases closed.len(),
{
    if m == 0 {
        assert(closed.take(m) =~= Seq::empty());
    } else {
        let rest: nat = if closed.first() {
            n
        } else {
            (n - 1) as nat
        };
        lemma_scan_was_short(closed.drop_first(), rest, m - 1);
        assert(closed.take(m).drop_first() =~= closed.drop_first().take(m - 1));
        lemma_live_count_front(closed.take(m));
    }
}

/// The closed flags of the looks from `start` on.
pub open spec fn flags_from<O>(looks: Seq<Look<O>>, start: int) -> Seq<bool> {
    Seq::new((looks.len() - start) as nat, |k: int| looks[start + k].closed)
}

/// A survey asks the callers of a line one after the other, from the front, each once. It ends
/// when enough were found waiting and not before, or at the end of the line, and what it says of
/// each caller is what that caller's channel answered.
pub proof fn law_a_survey_asks_from_the_front_until_enough_wait<O, L: Line<O>>(
    ledger: &mut Ledger<O>,
    line: L,
    n: usize,
    closed: Vec<bool>,
)
    requires
        call_ensures(Ledger::<O>::survey::<L>, (ledger, &line, n), closed),
    ensures
        closed@.len() <= line.channels().len(),
        final(ledger)@.len() == old(ledger)@.len() + closed@.len(),
        final(ledger)@.take(old(ledger)@.len() as int) == old(ledger)@,
        forall|i: int|
            0 <= i < closed@.len() ==> #[trigger] closed@[i] == final(ledger)@[old(ledger)@.len()
                + i].closed && final(ledger)@[old(ledger)@.len() + i].respond
                == line.channels()[i],
        live_count(closed@) <= n,
        live_count(closed@) == n || closed@.len() == line.channels().len(),
        forall|m: int| 0 <= m < closed@.len() ==> live_count(#[trigger] closed@.take(m)) < n,
{
    let before = old(ledger)@;
    let after = final(ledger)@;
    let looks = looks_since(before, after);
    let asked = line.channels().take(closed@.len() as int);
    assert forall|i: int| 0 <= i < closed@.len() implies #[trigger] closed@[i] == after[before.len()
        + i].closed && after[before.len() + i].respond == line.channels()[i] by {
        assert(looks[i].respond == asked[i]);
    }
    assert forall|m: int| 0 <= m < closed@.len() implies live_count(#[trigger] closed@.take(m))
        < n by {
        lemma_scan_was_short(closed@, n as nat, m);
    }
    if closed@.len() > 0 {
        let m = closed@.len() - 1;
        lemma_scan_was_short(closed@, n as nat, m);
        assert(closed@.take(m) =~= closed@.drop_last());
    }
}

/// Nothing is dropped while everyone waits.
pub proof fn law_all_live_all_kept<T>(items: Seq<T>, closed: Seq<bool>)
    requires
        items.len() == closed.len(),
        forall|k: int| 0 <= k < closed.len() ==> !#[trigger] closed[k],
    ensures
        kept(items, closed) == items,
        live_count(closed) == closed.len(),
    decreases items.len(),
{
    if items.len() > 0 {
        assert forall|k: int| 0 <= k < closed.drop_last().len() implies !#[trigger] closed.drop_last()[k] by {
            assert(!closed[k]);
        }
        law_all_live_all_kept(items.drop_last(), closed.drop_last());
        assert(!closed[closed.len() - 1]);
        assert(items.drop_last().push(items.last()) =~= items);
    }
}

/// Everything is dropped once nobody waits.
pub proof fn law_all_gone_none_kept<T>(items: Seq<T>, closed: Seq<bool>)
    requires
        items.len() == closed.len(),
        forall|k: int| 0 <= k < closed.len() ==> #[trigger] closed[k],
    ensures
        kept(items, closed) == Seq::<T>::empty(),
        live_count(closed) == 0,
    decreases items.len(),
{
    if items.len() > 0 {
        assert forall|k: int| 0 <= k < closed.drop_last().len() implies #[trigger] closed.drop_last()[k] by {
            assert(closed[k]);
        }
        law_all_gone_none_kept(items.drop_last(), closed.drop_last());
        assert(closed[closed.len() - 1]);
    }
}

} // verus!
