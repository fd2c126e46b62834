//! Recovering shared state whose lock was poisoned.
use vstd::prelude::*;

verus! {

/// The guard inside the outcome of a lock attempt, whether the lock was sound (`Ok`) or
/// poisoned (`Err`): a panic under the lock must not brick what it protects.
pub fn locked<G>(attempt: Result<G, G>) -> (guard: G)
    ensures
        attempt == Ok::<G, G>(guard) || attempt == Err::<G, G>(guard),
{
    match attempt {
        Ok(sound) => sound,
        Err(poisoned) => poisoned,
    }
}

} // verus!
