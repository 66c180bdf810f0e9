use cpr::progress::{percent, ClonePhase, CloneEvent, CloneProgress, ProgressAction};

#[test]
fn percent_is_safe_on_an_empty_scale() {
    // a zero-length repository must not divide by zero or error
    assert_eq!(percent(0, 0), 100);
    assert_eq!(percent(5, 0), 100);
}

#[test]
fn percent_computes_the_capped_fraction() {
    assert_eq!(percent(50, 200), 25);
    assert_eq!(percent(0, 10), 0);
    assert_eq!(percent(10, 10), 100);
    assert_eq!(percent(15, 10), 100);
    assert_eq!(percent(1, 3), 33);
    assert_eq!(percent(u64::MAX - 1, u64::MAX), 99);
}

#[test]
fn object_transfer_reports_without_resetting() {
    let mut progress = CloneProgress::new();
    let action = progress.observe(CloneEvent::Objects {
        received: 10,
        total: 40,
    });
    assert_eq!(
        action,
        ProgressAction::Show {
            current: 10,
            total: 40
        }
    );
    assert_eq!(progress.phase, ClonePhase::Receiving);
    assert_eq!(progress.received_objects, 10);
    assert_eq!(progress.total_objects, 40);
}

#[test]
fn first_delta_observation_resets_the_range_exactly_once() {
    let mut progress = CloneProgress::new();
    progress.observe(CloneEvent::Objects {
        received: 40,
        total: 40,
    });
    // deltas are an independent scale: entering them must reset the range
    let first = progress.observe(CloneEvent::Deltas {
        indexed: 0,
        total: 7,
    });
    assert_eq!(
        first,
        ProgressAction::ResetRange {
            current: 0,
            total: 7
        }
    );
    assert_eq!(progress.phase, ClonePhase::ResolvingDeltas);
    // later delta observations only advance
    let second = progress.observe(CloneEvent::Deltas {
        indexed: 3,
        total: 7,
    });
    assert_eq!(
        second,
        ProgressAction::Show {
            current: 3,
            total: 7
        }
    );
    let third = progress.observe(CloneEvent::Deltas {
        indexed: 7,
        total: 7,
    });
    assert_eq!(
        third,
        ProgressAction::Show {
            current: 7,
            total: 7
        }
    );
}

#[test]
fn checkout_reports_on_its_own_scale() {
    let mut progress = CloneProgress::new();
    progress.observe(CloneEvent::Objects {
        received: 2,
        total: 2,
    });
    progress.observe(CloneEvent::Deltas {
        indexed: 1,
        total: 1,
    });
    let action = progress.observe(CloneEvent::Checkout { done: 4, total: 9 });
    assert_eq!(
        action,
        ProgressAction::Show {
            current: 4,
            total: 9
        }
    );
    assert_eq!(progress.phase, ClonePhase::CheckingOut);
    assert_eq!(progress.checkout_done, 4);
    assert_eq!(progress.checkout_total, 9);
}

#[test]
fn zero_object_repository_is_tolerated() {
    let mut progress = CloneProgress::new();
    let action = progress.observe(CloneEvent::Objects {
        received: 0,
        total: 0,
    });
    assert_eq!(
        action,
        ProgressAction::Show {
            current: 0,
            total: 0
        }
    );
    assert_eq!(percent(progress.received_objects, progress.total_objects), 100);
}
