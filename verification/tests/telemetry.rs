use sgp30_exporter::telemetry::{LoopState, PublishedMetrics, PERIOD_NANOS};
use sgp30_exporter::{MeasureOutcome, Measurement};

#[test]
fn startup_gauges() {
    let s = LoopState::start(5_000);
    assert_eq!(s.counter, 0);
    assert_eq!(s.target_nanos, 5_000);
    assert_eq!(
        s.published,
        PublishedMetrics { co2eq_ppm: 400, tvoc_ppb: 0, last_updated: 0 }
    );
}

#[test]
fn plan_cadences() {
    let mut s = LoopState::start(0);
    let mut fetch_ticks = Vec::new();
    let mut snapshot_ticks = Vec::new();
    for i in 0..600u32 {
        let p = s.plan();
        if p.fetch_humidity {
            fetch_ticks.push(i);
        }
        if p.snapshot_baseline {
            snapshot_ticks.push(i);
        }
        s = s.tick(&MeasureOutcome::Failed, 0);
    }
    let expected: Vec<u32> = (0..10).map(|k| k * 60).collect();
    assert_eq!(fetch_ticks, expected);
    assert_eq!(snapshot_ticks, vec![599]);
}

#[test]
fn six_hundred_ticks_take_six_hundred_periods() {
    // Fixed-rate scheduling: each tick advances the wake-up target by
    // exactly one period from the previous target, so 600 ticks end
    // exactly 600 seconds after the start, with no compounding drift.
    let start: u64 = 123_456_789;
    let mut s = LoopState::start(start);
    for _ in 0..600 {
        s = s.tick(&MeasureOutcome::Failed, 0);
    }
    assert_eq!(s.target_nanos, start + 600 * PERIOD_NANOS);
    assert_eq!(s.counter, 0);
}

#[test]
fn a_reading_republishes_the_gauges() {
    let s = LoopState::start(0);
    let s = s.tick(
        &MeasureOutcome::Reading(Measurement { co2eq_ppm: 612, tvoc_ppb: 37 }),
        1_700_000_000,
    );
    assert_eq!(
        s.published,
        PublishedMetrics { co2eq_ppm: 612, tvoc_ppb: 37, last_updated: 1_700_000_000 }
    );
}

#[test]
fn persistent_failure_keeps_last_good_values() {
    // A long run of failed ticks never touches the published values and
    // never stops the loop.
    let mut s = LoopState::start(0);
    s = s.tick(
        &MeasureOutcome::Reading(Measurement { co2eq_ppm: 555, tvoc_ppb: 44 }),
        1_000,
    );
    let good = s.published;
    for t in 0..2_000u64 {
        s = s.tick(&MeasureOutcome::Failed, 1_000 + t);
        assert_eq!(s.published, good);
    }
    assert!(s.counter < 600);
}
