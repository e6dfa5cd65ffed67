//! The telemetry loop's state and per-tick decisions.
//!
//! The loop ticks nominally once per second.  Each tick it decides, from a
//! counter alone, whether to refresh the humidity compensation (every
//! sixtieth tick) and whether to snapshot the calibration baseline (once
//! per six-hundred-tick cycle); it always takes a measurement and, when the
//! measurement succeeds, republishes the gauge values.  The wake-up instant
//! advances by a fixed period from the previous target — a drift-free
//! fixed-rate schedule, not "now plus one second".  The loop has no
//! terminal state: every outcome, including persistent failure, leads to
//! the next tick.  The program around the library performs the sleeps, the
//! bus transactions and the scrape, and feeds their outcomes in.

use vstd::prelude::*;

use crate::MeasureOutcome;

verus! {

/// Fixed tick period: one second, in nanoseconds.
pub const PERIOD_NANOS: u64 = 1_000_000_000;

/// Ticks in one full cycle; the counter runs modulo this.
pub const TICKS_PER_CYCLE: u16 = 600;

/// The humidity compensation is refreshed on ticks divisible by this.
pub const HUMIDITY_FETCH_INTERVAL: u16 = 60;

/// The baseline is snapshotted when the counter lands here.
pub const SNAPSHOT_TICK: u16 = 599;

/// The gauge values the loop has published so far.  A failed measurement
/// leaves them exactly as they were: the exposition keeps serving the last
/// good reading.
#[derive(Clone, Copy, Debug, PartialEq, Eq, Structural)]
pub struct PublishedMetrics {
    pub co2eq_ppm: u16,
    pub tvoc_ppb: u16,
    pub last_updated: u64,
}

/// The gauge values as they stand before the first measurement: the
/// carbon-dioxide gauge is preset to the sensor's baseline reading of
/// 400 ppm, the others to zero.
pub open spec fn startup_published() -> PublishedMetrics {
    PublishedMetrics { co2eq_ppm: 400u16, tvoc_ppb: 0u16, last_updated: 0u64 }
}

impl PublishedMetrics {
    /// The preset gauge values, as `startup_published` gives them.
    pub fn startup() -> (r: PublishedMetrics)
        ensures
            r == startup_published(),
    {
        PublishedMetrics { co2eq_ppm: 400, tvoc_ppb: 0, last_updated: 0 }
    }
}

/// What publishing one measure outcome does: a reading replaces the gauge
/// values and stamps the time; a failure changes nothing.
pub open spec fn spec_publish(p: PublishedMetrics, m: MeasureOutcome, now_secs: u64) -> PublishedMetrics {
    match m {
        MeasureOutcome::Reading(meas) => PublishedMetrics {
            co2eq_ppm: meas.co2eq_ppm,
            tvoc_ppb: meas.tvoc_ppb,
            last_updated: now_secs,
        },
        MeasureOutcome::Failed => p,
    }
}

/// The side work one tick calls for.
#[derive(Clone, Copy, Debug, PartialEq, Eq, Structural)]
pub struct TickPlan {
    pub fetch_humidity: bool,
    pub snapshot_baseline: bool,
}

/// The whole state the loop carries from tick to tick: the cycle counter,
/// the absolute wake-up target, and the published gauge values.
#[derive(Clone, Copy, Debug, PartialEq, Eq, Structural)]
pub struct LoopState {
    pub counter: u16,
    pub target_nanos: u64,
    pub published: PublishedMetrics,
}

impl LoopState {
    /// The counter stays inside one cycle.
    pub open spec fn wf(self) -> bool {
        self.counter < TICKS_PER_CYCLE
    }

    /// Enter the loop: counter at zero, first wake-up target at the
    /// current instant, gauges at their startup values.
    pub fn start(now_nanos: u64) -> (r: LoopState)
        ensures
            r.counter == 0,
            r.target_nanos == now_nanos,
            r.published == startup_published(),
            r.wf(),
    {
        LoopState { counter: 0, target_nanos: now_nanos, published: PublishedMetrics::startup() }
    }

    /// The side work of the coming tick, decided by the counter alone: the
    /// humidity refresh on every sixtieth tick (the zeroth among them), the
    /// baseline snapshot at the cycle's last tick.
    pub fn plan(&self) -> (p: TickPlan)
        ensures
            p.fetch_humidity == (self.counter % HUMIDITY_FETCH_INTERVAL == 0),
            p.snapshot_baseline == (self.counter % TICKS_PER_CYCLE == SNAPSHOT_TICK),
    {
        TickPlan {
            fetch_humidity: self.counter % HUMIDITY_FETCH_INTERVAL == 0,
            snapshot_baseline: self.counter % TICKS_PER_CYCLE == SNAPSHOT_TICK,
        }
    }

    /// One tick's transition: the wake-up target advances by exactly one
    /// period from the previous target, the measure outcome is published,
    /// the counter steps around the cycle.
    pub open spec fn spec_tick(self, m: MeasureOutcome, now_secs: u64) -> LoopState {
        LoopState {
            counter: ((self.counter + 1) % (TICKS_PER_CYCLE as int)) as u16,
            target_nanos: (self.target_nanos + PERIOD_NANOS) as u64,
            published: spec_publish(self.published, m, now_secs),
        }
    }

    /// Apply one tick.  The precondition is the machine limit on the
    /// nanosecond clock, nothing more; every outcome is taken, and the
    /// resulting state is again a loop state — the loop cannot end from
    /// inside.
    pub fn tick(self, outcome: &MeasureOutcome, now_secs: u64) -> (r: LoopState)
        requires
            self.wf(),
            self.target_nanos + PERIOD_NANOS <= u64::MAX,
        ensures
            r == self.spec_tick(*outcome, now_secs),
            r.wf(),
    {
        let published = match outcome {
            MeasureOutcome::Reading(meas) => PublishedMetrics {
                co2eq_ppm: meas.co2eq_ppm,
                tvoc_ppb: meas.tvoc_ppb,
                last_updated: now_secs,
            },
            MeasureOutcome::Failed => self.published,
        };
        LoopState {
            counter: (self.counter + 1) % TICKS_PER_CYCLE,
            target_nanos: self.target_nanos + PERIOD_NANOS,
            published,
        }
    }
}

/// The loop run over a scripted sequence of ticks, each an outcome and a
/// timestamp, first tick first.
pub open spec fn spec_run(s: LoopState, events: Seq<(MeasureOutcome, u64)>) -> LoopState
    decreases events.len(),
{
    if events.len() == 0 {
        s
    } else {
        spec_run(s.spec_tick(events[0].0, events[0].1), events.drop_first())
    }
}

/// The fixed-rate schedule does not drift: after any number of ticks the
/// wake-up target stands exactly that many periods after the starting
/// target — six hundred ticks take six hundred seconds of target time,
/// never more, however long each tick body ran.
pub proof fn lemma_fixed_rate_no_drift(s: LoopState, events: Seq<(MeasureOutcome, u64)>)
    requires
        s.target_nanos + events.len() * PERIOD_NANOS <= u64::MAX,
    ensures
        spec_run(s, events).target_nanos == s.target_nanos + events.len() * PERIOD_NANOS,
    decreases events.len(),
{
    if events.len() > 0 {
        let s1 = s.spec_tick(events[0].0, events[0].1);
        let n = events.len() as int;
        let p = PERIOD_NANOS as int;
        assert(n * p == (n - 1) * p + p && (n - 1) * p >= 0) by (nonlinear_arith)
            requires
                n >= 1,
                p >= 0,
        ;
        assert(s1.target_nanos == s.target_nanos + PERIOD_NANOS);
        lemma_fixed_rate_no_drift(s1, events.drop_first());
    }
}

/// The counter walks around the cycle: after any number of ticks it stands
/// at the starting counter plus the tick count, modulo the cycle length.
pub proof fn lemma_counter_cycles(s: LoopState, events: Seq<(MeasureOutcome, u64)>)
    requires
        s.wf(),
    ensures
        spec_run(s, events).counter == (s.counter + events.len()) % (TICKS_PER_CYCLE as int),
    decreases events.len(),
{
    if events.len() == 0 {
        vstd::arithmetic::div_mod::lemma_small_mod(s.counter as nat, TICKS_PER_CYCLE as nat);
    } else {
        let s1 = s.spec_tick(events[0].0, events[0].1);
        lemma_counter_cycles(s1, events.drop_first());
        vstd::arithmetic::div_mod::lemma_add_mod_noop(
            s.counter + 1,
            events.len() - 1,
            TICKS_PER_CYCLE as int,
        );
        vstd::arithmetic::div_mod::lemma_mod_twice(s.counter + 1, TICKS_PER_CYCLE as int);
        vstd::arithmetic::div_mod::lemma_add_mod_noop(
            (s.counter + 1) % (TICKS_PER_CYCLE as int),
            events.len() - 1,
            TICKS_PER_CYCLE as int,
        );
        vstd::arithmetic::div_mod::lemma_mod_bound(events.len() - 1, TICKS_PER_CYCLE as int);
    }
}

/// Persistent failure degrades to stale metrics, never to corruption: a run
/// in which every measurement fails leaves the published gauge values
/// exactly as they were — and still ends in a well-formed state, so the
/// loop carries on.
pub proof fn lemma_failure_keeps_published(s: LoopState, events: Seq<(MeasureOutcome, u64)>)
    requires
        forall|i: int| 0 <= i < events.len() ==> (#[trigger] events[i]).0 == MeasureOutcome::Failed,
    ensures
        spec_run(s, events).published == s.published,
    decreases events.len(),
{
    if events.len() > 0 {
        let s1 = s.spec_tick(events[0].0, events[0].1);
        assert(events[0].0 == MeasureOutcome::Failed);
        assert(s1.published == s.published);
        assert(forall|i: int|
            0 <= i < events.drop_first().len() ==> (#[trigger] events.drop_first()[i]).0
                == MeasureOutcome::Failed);
        lemma_failure_keeps_published(s1, events.drop_first());
    }
}

} // verus!
