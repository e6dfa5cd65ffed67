use sgp30_exporter::warmup::{run_warmup, WarmupState};
use sgp30_exporter::{MeasureOutcome, Measurement};

fn reading(co2eq_ppm: u16, tvoc_ppb: u16) -> MeasureOutcome {
    MeasureOutcome::Reading(Measurement { co2eq_ppm, tvoc_ppb })
}

#[test]
fn ready_exactly_at_first_live_reading() {
    // A scripted warm-up: placeholder readings, an error in between, a
    // reading in which only one field moved, then a live reading.  The
    // session must become ready exactly at the live reading, not earlier.
    let script = [
        reading(400, 0),
        reading(400, 0),
        MeasureOutcome::Failed,
        reading(450, 0),
        reading(410, 5),
    ];
    let mut state = WarmupState::Cold;
    for (i, e) in script.iter().enumerate() {
        state = state.step(e);
        if i < 4 {
            assert!(!state.is_ready(), "ready too early at step {}", i);
        } else {
            assert!(state.is_ready(), "not ready at the live reading");
        }
    }
    assert_eq!(run_warmup(&script.to_vec()), WarmupState::Ready);
}

#[test]
fn both_fields_must_differ() {
    // Either field alone moving off the placeholder does not end warm-up.
    assert_eq!(
        run_warmup(&vec![reading(450, 0), reading(400, 7)]),
        WarmupState::Stabilizing
    );
}

#[test]
fn errors_do_not_reset_progress() {
    let state = WarmupState::Cold
        .step(&reading(400, 0))
        .step(&MeasureOutcome::Failed)
        .step(&MeasureOutcome::Failed);
    assert_eq!(state, WarmupState::Stabilizing);
}

#[test]
fn errors_alone_leave_it_cold() {
    assert_eq!(
        run_warmup(&vec![MeasureOutcome::Failed, MeasureOutcome::Failed]),
        WarmupState::Cold
    );
}

#[test]
fn ready_is_terminal() {
    let state = WarmupState::Ready.step(&reading(400, 0)).step(&MeasureOutcome::Failed);
    assert_eq!(state, WarmupState::Ready);
}

#[test]
fn placeholder_test_helper() {
    let m = Measurement { co2eq_ppm: 400, tvoc_ppb: 0 };
    assert!(m.is_default());
    let n = Measurement { co2eq_ppm: 401, tvoc_ppb: 0 };
    assert!(!n.is_default());
}
