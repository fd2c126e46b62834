//! What a caller is told when it gets no value.
use vstd::prelude::*;

verus! {

/// Why a deduplicated call failed.
#[non_exhaustive]
#[derive(Debug)]
pub enum DedupError<E> {
    /// The fetch failed; the cause is shared by every call that joined it.
    Load(E),
    /// The fetch ended without a result.
    Lost,
}

impl<E> DedupError<E> {
    /// The text a reader of a log sees.
    pub fn message(&self) -> (text: &'static str)
        ensures
            text@ == match self {
                DedupError::Load(_) => "fetch failed"@,
                DedupError::Lost => "fetch ended without a result"@,
            },
    {
        match self {
            DedupError::Load(_) => "fetch failed",
            DedupError::Lost => "fetch ended without a result",
        }
    }

    /// The cause underneath, where there is one.
    pub fn source(&self) -> (cause: Option<&E>)
        ensures
            match self {
                DedupError::Load(e) => cause == Some(e),
                DedupError::Lost => cause is None,
            },
    {
        match self {
            DedupError::Load(e) => Some(e),
            DedupError::Lost => None,
        }
    }

    /// `copy` is what cloning `from` may give: the same variant, its cause cloned.
    pub open spec fn is_clone(from: DedupError<E>, copy: DedupError<E>) -> bool where E: Clone {
        match from {
            DedupError::Load(e) => copy matches DedupError::Load(c) && cloned(e, c),
            DedupError::Lost => copy is Lost,
        }
    }
}

impl<E: Clone> Clone for DedupError<E> {
    fn clone(&self) -> (copy: Self)
        ensures
            DedupError::is_clone(*self, copy),
    {
        match self {
            DedupError::Load(e) => DedupError::Load(e.clone()),
            DedupError::Lost => DedupError::Lost,
        }
    }
}

/// Why a batched load failed.
#[non_exhaustive]
#[derive(Debug)]
pub enum Error<E> {
    /// The downstream call failed; the whole batch shares its error.
    Collector(E),
    /// The downstream call panicked.
    CollectorPanic,
    /// The response held inputs nobody asked for; the whole batch fails.
    ContractViolation { unknown_inputs: usize },
    /// The response held no value for this input.
    MissingOutput,
    /// The downstream call outran its deadline.
    Timeout,
    /// No slot came free in time; downstream was never called.
    WaitingTimeout,
    /// Nobody is left to serve the load.
    Closed,
}

impl<E> Error<E> {
    /// `copy` is what cloning `from` may give: the same variant, its payload cloned.
    pub open spec fn is_clone(from: Error<E>, copy: Error<E>) -> bool where E: Clone {
        match from {
            Error::Collector(e) => copy matches Error::Collector(c) && cloned(e, c),
            other => copy == other,
        }
    }
}

impl<E: Clone> Clone for Error<E> {
    fn clone(&self) -> (copy: Self)
        ensures
            Error::is_clone(*self, copy),
    {
        match self {
            Error::Collector(e) => Error::Collector(e.clone()),
            Error::CollectorPanic => Error::CollectorPanic,
            Error::ContractViolation { unknown_inputs } => Error::ContractViolation {
                unknown_inputs: *unknown_inputs,
            },
            Error::MissingOutput => Error::MissingOutput,
            Error::Timeout => Error::Timeout,
            Error::WaitingTimeout => Error::WaitingTimeout,
            Error::Closed => Error::Closed,
        }
    }
}

/// A clone of a deduplicated call's error is of the same kind, with its cause cloned, and only a
/// failed fetch has a cause.
pub proof fn law_a_cloned_call_error_is_of_its_kind<E: Clone>(
    error: DedupError<E>,
    copy: DedupError<E>,
    cause: Option<&E>,
)
    requires
        call_ensures(DedupError::<E>::clone, (&error,), copy),
        call_ensures(DedupError::<E>::source, (&error,), cause),
    ensures
        error is Lost <==> copy is Lost,
        error is Load ==> copy is Load && cloned(error->Load_0, copy->Load_0),
        cause is Some <==> error is Load,
        cause is Some ==> *cause->0 == error->Load_0,
{
}

/// A clone of a load's error is of the same kind, with its cause cloned and its number kept.
pub proof fn law_a_cloned_load_error_is_of_its_kind<E: Clone>(error: Error<E>, copy: Error<E>)
    requires
        call_ensures(Error::<E>::clone, (&error,), copy),
    ensures
        error is Collector ==> copy is Collector && cloned(error->Collector_0, copy->Collector_0),
        error is CollectorPanic <==> copy is CollectorPanic,
        error is ContractViolation ==> copy is ContractViolation && copy->unknown_inputs
            == error->unknown_inputs,
        error is MissingOutput <==> copy is MissingOutput,
        error is Timeout <==> copy is Timeout,
        error is WaitingTimeout <==> copy is WaitingTimeout,
        error is Closed <==> copy is Closed,
{
}

} // verus!
