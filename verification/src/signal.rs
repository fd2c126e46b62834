//! The watch channels underneath a flight, and the records of what was read of them.
//!
//! Nothing but the types and the calls into the channels stands here, so that nothing else can
//! make a value that claims to come from a channel.
use crate::flight::Channel;
use std::collections::HashMap;
use std::sync::Arc;
use tokio::sync::watch;
use vstd::prelude::*;

verus! {

/// The sending end of a watch channel, opaque to the proofs.
#[verifier::external_type_specification]
#[verifier::external_body]
#[verifier::reject_recursive_types(T)]
pub struct ExWatchSender<T>(watch::Sender<T>);

/// The listening end of a watch channel, opaque to the proofs.
#[verifier::external_type_specification]
#[verifier::external_body]
#[verifier::reject_recursive_types(T)]
pub struct ExWatchReceiver<T>(watch::Receiver<T>);

/// A listening end, with the sender it listens to and what was read through it. Only
/// [`outcome_channel`], [`presence_channel`] and [`subscribe`] make one.
#[verifier::reject_recursive_types(V)]
pub struct Ear<V> {
    receiver: watch::Receiver<V>,
    sender: Ghost<watch::Sender<V>>,
    heard: Ghost<Seq<V>>,
}

/// The right to announce once on an outcome channel. Only [`outcome_channel`] makes one, one for
/// each channel.
#[verifier::reject_recursive_types(T)]
pub struct Voice<T> {
    sender: Arc<watch::Sender<Option<T>>>,
}

/// Evidence that an outcome was announced. Only [`Voice::announce`] makes one.
#[verifier::reject_recursive_types(T)]
pub struct Spoken<T> {
    sender: Ghost<watch::Sender<Option<T>>>,
    outcome: Ghost<T>,
}

/// The sending end of a presence channel, with the counts of its listeners that were taken.
pub struct Muster {
    presence: Arc<watch::Sender<()>>,
    counts: Ghost<Seq<usize>>,
}

/// Calls `tokio::sync::watch::channel` with nothing in it: a new channel for an outcome, the right
/// to announce on it, and its first listener. It is a channel of its own: none of the `existing`
/// ones has its sender.
#[verifier::external_body]
pub(crate) fn outcome_channel<K, T>(existing: &HashMap<K, Channel<T>>) -> (opened: (
    Arc<watch::Sender<Option<T>>>,
    Voice<T>,
    Ear<Option<T>>,
))
    ensures
        opened.1.sender() == *opened.0,
        opened.2.sender() == *opened.0,
        opened.2.heard() == Seq::<Option<T>>::empty(),
        forall|k: K| #[trigger]
            existing@.contains_key(k) ==> existing@[k].outcome_sender() != *opened.0,
{
    let _others = existing;
    let (tx, receiver) = watch::channel(None);
    let sender = Ghost(tx);
    let entry = Arc::new(tx);
    let voice = Voice { sender: entry.clone() };
    (entry, voice, Ear { receiver, sender, heard: Ghost(Seq::empty()) })
}

/// Calls `tokio::sync::watch::channel` with the unit value: a new channel for presence and its
/// first listener.
#[verifier::external_body]
pub(crate) fn presence_channel() -> (opened: (Arc<watch::Sender<()>>, Ear<()>))
    ensures
        opened.1.sender() == *opened.0,
        opened.1.heard() == Seq::<()>::empty(),
{
    let (tx, receiver) = watch::channel(());
    let sender = Ghost(tx);
    (Arc::new(tx), Ear { receiver, sender, heard: Ghost(Seq::empty()) })
}

/// Calls `tokio::sync::watch::Sender::subscribe`: one more listener of this channel.
#[verifier::external_body]
pub(crate) fn subscribe<V>(channel: &Arc<watch::Sender<V>>) -> (ear: Ear<V>)
    ensures
        ear.sender() == **channel,
        ear.heard() == Seq::<V>::empty(),
{
    Ear { receiver: channel.subscribe(), sender: Ghost(**channel), heard: Ghost(Seq::empty()) }
}

impl<V> Ear<V> {
    /// The sender it listens to.
    pub closed spec fn sender(&self) -> watch::Sender<V> {
        self.sender@
    }

    /// What was read through it, in order.
    pub closed spec fn heard(&self) -> Seq<V> {
        self.heard@
    }

    /// The receiver underneath.
    pub closed spec fn receiver_value(&self) -> watch::Receiver<V> {
        self.receiver
    }

    /// The receiver underneath.
    pub fn receiver(&self) -> (receiver: &watch::Receiver<V>)
        ensures
            *receiver == self.receiver_value(),
    {
        &self.receiver
    }
}

impl<T: Clone> Ear<Option<T>> {
    /// Calls `tokio::sync::watch::Receiver::borrow_and_update`, which gives what was sent last,
    /// and clones it: nothing until the outcome is announced, a clone of the outcome ever after,
    /// since [`Voice::announce`] is the only write and comes once. When that is is up to another
    /// task, so nothing is promised to a reader without evidence of the announcement but that what
    /// it sees goes on record.
    #[verifier::external_body]
    pub(crate) fn read(&mut self, announced: Option<&Spoken<T>>) -> (seen: Option<T>)
        ensures
            final(self).sender() == old(self).sender(),
            final(self).heard() == old(self).heard().push(seen),
            announced matches Some(spoken) && spoken.sender() == old(self).sender() ==> seen is Some
                && cloned(announced->0.outcome(), seen->0),
    {
        let _evidence = announced;
        self.receiver.borrow_and_update().clone()
    }
}

impl<T> Voice<T> {
    /// The sender it announces on.
    pub closed spec fn sender(&self) -> watch::Sender<Option<T>> {
        *self.sender
    }

    /// Calls `tokio::sync::watch::Sender::send_replace`: puts the outcome where every listener of
    /// the channel reads it. What comes back says which outcome went to which channel. This is the
    /// only write to an outcome channel, and it uses up the one right to make it.
    #[verifier::external_body]
    pub(crate) fn announce(self, outcome: T) -> (spoken: Spoken<T>)
        ensures
            spoken.sender() == self.sender(),
            spoken.outcome() == outcome,
    {
        let (to, what) = (Ghost(*self.sender), Ghost(outcome));
        self.sender.send_replace(Some(outcome));
        Spoken { sender: to, outcome: what }
    }
}

impl<T> Spoken<T> {
    /// The sender it was announced on.
    pub closed spec fn sender(&self) -> watch::Sender<Option<T>> {
        self.sender@
    }

    /// What was announced.
    pub closed spec fn outcome(&self) -> T {
        self.outcome@
    }
}

impl Muster {
    /// The sender whose receivers are counted.
    pub closed spec fn sender(&self) -> watch::Sender<()> {
        *self.presence
    }

    /// The counts that were taken, in order.
    pub closed spec fn counts(&self) -> Seq<usize> {
        self.counts@
    }

    /// The listeners of this presence channel, not counted yet.
    pub(crate) fn new(presence: Arc<watch::Sender<()>>) -> (muster: Self)
        ensures
            muster.sender() == *presence,
            muster.counts() == Seq::<usize>::empty(),
    {
        Muster { presence, counts: Ghost(Seq::empty()) }
    }

    /// The sender whose receivers are counted.
    pub fn presence(&self) -> (presence: &Arc<watch::Sender<()>>)
        ensures
            **presence == self.sender(),
    {
        &self.presence
    }

    /// Calls `tokio::sync::watch::Sender::receiver_count`: how many listen at this moment.
    /// Listeners come and go with other tasks, so nothing is promised of the number but that it
    /// goes on record.
    #[verifier::external_body]
    pub(crate) fn count(&mut self) -> (count: usize)
        ensures
            final(self).sender() == old(self).sender(),
            final(self).counts() == old(self).counts().push(count),
    {
        self.presence.receiver_count()
    }
}

} // verus!
