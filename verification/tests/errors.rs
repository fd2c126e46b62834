use carpool::{locked, DedupError, Error};
use std::sync::Mutex;

#[test]
fn messages_say_what_happened() {
    assert_eq!(DedupError::Load(3).message(), "fetch failed");
    assert_eq!(
        DedupError::<u8>::Lost.message(),
        "fetch ended without a result"
    );
}

#[test]
fn only_a_failed_fetch_has_a_cause() {
    assert_eq!(DedupError::Load(3).source(), Some(&3));
    assert_eq!(DedupError::<u8>::Lost.source(), None);
}

#[test]
fn clones_keep_the_variant() {
    assert!(matches!(DedupError::Load(3).clone(), DedupError::Load(3)));
    assert!(matches!(DedupError::<u8>::Lost.clone(), DedupError::Lost));
    assert!(matches!(Error::Collector(3).clone(), Error::Collector(3)));
    assert!(matches!(Error::<u8>::CollectorPanic.clone(), Error::CollectorPanic));
    assert!(matches!(
        Error::<u8>::ContractViolation { unknown_inputs: 2 }.clone(),
        Error::ContractViolation { unknown_inputs: 2 }
    ));
    assert!(matches!(Error::<u8>::MissingOutput.clone(), Error::MissingOutput));
    assert!(matches!(Error::<u8>::Timeout.clone(), Error::Timeout));
    assert!(matches!(Error::<u8>::WaitingTimeout.clone(), Error::WaitingTimeout));
    assert!(matches!(Error::<u8>::Closed.clone(), Error::Closed));
}

#[test]
fn a_lock_attempt_gives_its_guard_either_way() {
    assert_eq!(locked(Ok(1)), 1);
    assert_eq!(locked(Err(2)), 2);
    let shared = Mutex::new(5);
    let guard = locked(shared.lock().map_err(|poisoned| poisoned.into_inner()));
    assert_eq!(*guard, 5);
}
