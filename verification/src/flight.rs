//! The channel one flight announces its outcome on, and the waiters listening to it.
//!
//! A flight has two channels underneath. One carries the outcome; its writable end is never handed
//! out, and the flight's one handle writes to it at most once. The other carries nothing and tells
//! who is present: every waiter holds a receiver of it, and its sender may be lent to whoever
//! awaits that the last waiter leaves.
use crate::signal::{outcome_channel, presence_channel, subscribe, Ear, Muster, Spoken, Voice};
use std::collections::HashMap;
use std::sync::Arc;
use tokio::sync::watch;
use vstd::prelude::*;

verus! {

/// A flight's channel: it holds nothing until the flight announces its outcome.
#[verifier::reject_recursive_types(T)]
pub struct Channel<T> {
    outcome: Arc<watch::Sender<Option<T>>>,
    presence: Arc<watch::Sender<()>>,
}

impl<T> Channel<T> {
    /// The sender of the outcome.
    pub closed spec fn outcome_sender(&self) -> watch::Sender<Option<T>> {
        *self.outcome
    }

    /// One more listener of the flight.
    pub(crate) fn join(&self) -> (waiter: Waiter<T>)
        ensures
            waiter.channel() == *self,
            waiter.heard() == Seq::<Option<T>>::empty(),
    {
        Waiter { outcome: subscribe(&self.outcome), presence: subscribe(&self.presence) }
    }
}

/// One listener of a flight.
#[verifier::reject_recursive_types(T)]
#[allow(dead_code)]
pub struct Waiter<T> {
    outcome: Ear<Option<T>>,
    presence: Ear<()>,
}

impl<T> Waiter<T> {
    /// The channel it listens to.
    pub closed spec fn channel(&self) -> Channel<T> {
        Channel {
            outcome: Arc::new(self.outcome.sender()),
            presence: Arc::new(self.presence.sender()),
        }
    }

    /// What was read through it, in order.
    pub closed spec fn heard(&self) -> Seq<Option<T>> {
        self.outcome.heard()
    }

    /// The receiver of the outcome.
    pub closed spec fn receiver(&self) -> watch::Receiver<Option<T>> {
        self.outcome.receiver_value()
    }

    /// The receiver of the outcome. Whoever awaits the next change does so on a clone of it, made
    /// before the first read.
    pub fn listener(&self) -> (receiver: &watch::Receiver<Option<T>>)
        ensures
            *receiver == self.receiver(),
    {
        self.outcome.receiver()
    }
}

impl<T: Clone> Waiter<T> {
    /// What is on the channel: nothing until the flight announces, a clone of its outcome ever
    /// after. A reader with evidence of the announcement knows that it finds the outcome.
    pub(crate) fn read(&mut self, announced: Option<&Announcement<T>>) -> (seen: Option<T>)
        ensures
            final(self).channel() == old(self).channel(),
            final(self).heard() == old(self).heard().push(seen),
            announced matches Some(announcement) && announcement.channel() == old(self).channel()
                ==> seen is Some && cloned(announced->0.outcome(), seen->0),
    {
        match announced {
            Some(announcement) => self.outcome.read(Some(&announcement.spoken)),
            None => self.outcome.read(None),
        }
    }
}

/// The one handle a flight is flown with.
#[verifier::reject_recursive_types(T)]
pub struct Flight<T> {
    voice: Voice<T>,
    muster: Muster,
}

impl<T> Flight<T> {
    /// The channel its outcome is announced on.
    pub closed spec fn channel(&self) -> Channel<T> {
        Channel {
            outcome: Arc::new(self.voice.sender()),
            presence: Arc::new(self.muster.sender()),
        }
    }

    /// How many listened, each time that was looked up.
    pub closed spec fn counts(&self) -> Seq<usize> {
        self.muster.counts()
    }

    /// The sender whose receivers the waiters hold.
    pub closed spec fn presence_value(&self) -> watch::Sender<()> {
        self.muster.sender()
    }

    /// The sender whose receivers the waiters hold, for whoever awaits that the last one leaves.
    pub fn presence(&self) -> (presence: &Arc<watch::Sender<()>>)
        ensures
            **presence == self.presence_value(),
    {
        self.muster.presence()
    }

    /// How many listen to the flight at this moment, put on record.
    pub(crate) fn listening(&mut self) -> (count: usize)
        ensures
            final(self).channel() == old(self).channel(),
            final(self).counts() == old(self).counts().push(count),
    {
        self.muster.count()
    }

    /// Announces the outcome to everyone who listens to the flight.
    pub(crate) fn announce(self, outcome: T) -> (announcement: Announcement<T>)
        ensures
            announcement.channel() == self.channel(),
            announcement.outcome() == outcome,
    {
        let Flight { voice, muster } = self;
        Announcement { spoken: voice.announce(outcome), presence: Ghost(muster.sender()) }
    }
}

/// Evidence that a flight announced its outcome.
#[verifier::reject_recursive_types(T)]
pub struct Announcement<T> {
    spoken: Spoken<T>,
    presence: Ghost<watch::Sender<()>>,
}

impl<T> Announcement<T> {
    /// The channel it was announced on.
    pub closed spec fn channel(&self) -> Channel<T> {
        Channel {
            outcome: Arc::new(self.spoken.sender()),
            presence: Arc::new(self.presence@),
        }
    }

    /// What was announced.
    pub closed spec fn outcome(&self) -> T {
        self.spoken.outcome()
    }
}

/// A new flight: its channel for the registry, its handle, and its first listener. Its channel is
/// none of the `existing` ones.
pub(crate) fn open<K, T>(existing: &HashMap<K, Channel<T>>) -> (opened: (
    Channel<T>,
    Flight<T>,
    Waiter<T>,
))
    ensures
        opened.1.channel() == opened.0,
        opened.1.counts() == Seq::<usize>::empty(),
        opened.2.channel() == opened.0,
        opened.2.heard() == Seq::<Option<T>>::empty(),
        forall|k: K| #[trigger] existing@.contains_key(k) ==> existing@[k] != opened.0,
{
    let (outcome, voice, heard_by) = outcome_channel(existing);
    let (presence, held_by) = presence_channel();
    let muster = Muster::new(Arc::clone(&presence));
    (
        Channel { outcome, presence },
        Flight { voice, muster },
        Waiter { outcome: heard_by, presence: held_by },
    )
}

} // verus!
