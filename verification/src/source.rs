//! Where flights fetch from, and the record of what they asked for.
//!
//! A fetcher is reached only through here, so that no fetch goes unrecorded.
use crate::fetcher::Fetcher;
use std::sync::Arc;
use vstd::prelude::*;

verus! {

/// A fetcher that flights are given their sources from.
#[verifier::reject_recursive_types(F)]
pub struct Supply<F: Fetcher> {
    fetcher: Arc<F>,
    issued: Ghost<nat>,
}

/// One flight's access to the fetcher.
#[verifier::reject_recursive_types(F)]
pub struct Source<F: Fetcher> {
    fetcher: Arc<F>,
    loads: Ghost<Seq<F::Input>>,
}

impl<F: Fetcher> Supply<F> {
    /// The fetcher.
    pub closed spec fn fetcher(&self) -> F {
        *self.fetcher
    }

    /// How many sources were given out.
    pub closed spec fn issued(&self) -> nat {
        self.issued@
    }

    /// A supply that gave out nothing yet.
    pub(crate) fn new(fetcher: F) -> (supply: Self)
        ensures
            supply.fetcher() == fetcher,
            supply.issued() == 0,
    {
        Supply { fetcher: Arc::new(fetcher), issued: Ghost(0) }
    }

    /// Gives out one more source, which nothing was asked of.
    pub(crate) fn source(&mut self) -> (source: Source<F>)
        ensures
            source.fetcher() == old(self).fetcher(),
            source.loads() == Seq::<F::Input>::empty(),
            final(self).fetcher() == old(self).fetcher(),
            final(self).issued() == old(self).issued() + 1,
    {
        self.issued = Ghost(self.issued@ + 1);
        Source { fetcher: Arc::clone(&self.fetcher), loads: Ghost(Seq::empty()) }
    }
}

impl<F: Fetcher> Source<F> {
    /// The fetcher.
    pub closed spec fn fetcher(&self) -> F {
        *self.fetcher
    }

    /// The inputs that were asked for, in order.
    pub closed spec fn loads(&self) -> Seq<F::Input> {
        self.loads@
    }

    /// Asks the fetcher for `input`.
    pub(crate) fn load(&mut self, input: F::Input) -> (loading: F::Loading)
        ensures
            call_ensures(F::load, (&old(self).fetcher(), input), loading),
            final(self).fetcher() == old(self).fetcher(),
            final(self).loads() == old(self).loads().push(input),
    {
        self.loads = Ghost(self.loads@.push(input));
        self.fetcher.load(input)
    }
}

} // verus!
