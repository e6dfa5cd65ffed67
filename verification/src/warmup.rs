//! The sensor warm-up state machine.
//!
//! After power-up the sensor's internal calibration algorithm needs time to
//! stabilize; until then every reading is the fixed placeholder `(400, 0)`.
//! The session polls the sensor once per second and watches the outcomes:
//! it becomes `Ready` at the first reading in which *both* fields differ
//! from the placeholder (the conforming reading of the design's ambiguity
//! between "both differ" and "either differs"), and not earlier.  Failed
//! transactions are logged by the caller and leave the progress unchanged;
//! `Ready` is terminal.

use vstd::prelude::*;

use crate::MeasureOutcome;

verus! {

/// Warm-up progress: `Cold` before any reading arrived, `Stabilizing` while
/// readings still show the placeholder, `Ready` once a live reading was
/// seen.
#[derive(Clone, Copy, Debug, PartialEq, Eq, Structural)]
pub enum WarmupState {
    Cold,
    Stabilizing,
    Ready,
}

/// An outcome that completes warm-up: a reading in which both fields differ
/// from the placeholder `(400, 0)`.
pub open spec fn reaches_ready(e: MeasureOutcome) -> bool {
    match e {
        MeasureOutcome::Reading(m) => m.co2eq_ppm != 400 && m.tvoc_ppb != 0,
        MeasureOutcome::Failed => false,
    }
}

/// One transition of the warm-up machine.
pub open spec fn spec_warmup_step(s: WarmupState, e: MeasureOutcome) -> WarmupState {
    if s == WarmupState::Ready {
        WarmupState::Ready
    } else {
        match e {
            MeasureOutcome::Reading(m) => if m.co2eq_ppm != 400 && m.tvoc_ppb != 0 {
                WarmupState::Ready
            } else {
                WarmupState::Stabilizing
            },
            MeasureOutcome::Failed => s,
        }
    }
}

/// The machine run over a whole sequence of outcomes, first outcome first.
pub open spec fn spec_warmup_run(s: WarmupState, es: Seq<MeasureOutcome>) -> WarmupState
    decreases es.len(),
{
    if es.len() == 0 {
        s
    } else {
        spec_warmup_run(spec_warmup_step(s, es[0]), es.drop_first())
    }
}

impl WarmupState {
    /// Feed one measure outcome to the machine.
    pub fn step(self, outcome: &MeasureOutcome) -> (r: WarmupState)
        ensures
            r == spec_warmup_step(self, *outcome),
    {
        match self {
            WarmupState::Ready => WarmupState::Ready,
            _ => match outcome {
                MeasureOutcome::Reading(m) => if m.co2eq_ppm != 400 && m.tvoc_ppb != 0 {
                    WarmupState::Ready
                } else {
                    WarmupState::Stabilizing
                },
                MeasureOutcome::Failed => self,
            },
        }
    }

    /// Has warm-up completed?
    pub fn is_ready(&self) -> (r: bool)
        ensures
            r == (*self == WarmupState::Ready),
    {
        match self {
            WarmupState::Ready => true,
            _ => false,
        }
    }
}

/// Run the machine from `Cold` over a recorded script of outcomes.
pub fn run_warmup(events: &Vec<MeasureOutcome>) -> (r: WarmupState)
    ensures
        r == spec_warmup_run(WarmupState::Cold, events@),
{
    let mut state = WarmupState::Cold;
    let mut i: usize = 0;
    while i < events.len()
        invariant
            i <= events@.len(),
            state == spec_warmup_run(WarmupState::Cold, events@.take(i as int)),
        decreases events@.len() - i,
    {
        state = state.step(&events[i]);
        proof {
            assert(events@.take(i + 1) =~= events@.take(i as int).push(events@[i as int]));
            lemma_warmup_run_snoc(WarmupState::Cold, events@.take(i as int), events@[i as int]);
        }
        i = i + 1;
    }
    proof {
        assert(events@.take(i as int) =~= events@);
    }
    state
}

/// Appending one outcome to a run is one more step.
pub proof fn lemma_warmup_run_snoc(s: WarmupState, es: Seq<MeasureOutcome>, e: MeasureOutcome)
    ensures
        spec_warmup_run(s, es.push(e)) == spec_warmup_step(spec_warmup_run(s, es), e),
    decreases es.len(),
{
    assert(spec_warmup_run(s, es.push(e)) == spec_warmup_run(
        spec_warmup_step(s, es.push(e)[0]),
        es.push(e).drop_first(),
    ));
    if es.len() == 0 {
        assert(es.push(e)[0] == e);
        assert(es.push(e).drop_first() =~= Seq::<MeasureOutcome>::empty());
        assert(spec_warmup_run(spec_warmup_step(s, e), Seq::<MeasureOutcome>::empty())
            == spec_warmup_step(s, e));
        assert(spec_warmup_run(s, es) == s);
    } else {
        assert(es.push(e)[0] == es[0]);
        assert(es.push(e).drop_first() =~= es.drop_first().push(e));
        lemma_warmup_run_snoc(spec_warmup_step(s, es[0]), es.drop_first(), e);
        assert(spec_warmup_run(s, es) == spec_warmup_run(
            spec_warmup_step(s, es[0]),
            es.drop_first(),
        ));
    }
}

/// `Ready` is terminal: no later outcome leaves it.
pub proof fn lemma_warmup_ready_stays(es: Seq<MeasureOutcome>)
    ensures
        spec_warmup_run(WarmupState::Ready, es) == WarmupState::Ready,
    decreases es.len(),
{
    if es.len() > 0 {
        lemma_warmup_ready_stays(es.drop_first());
    }
}

/// From any state short of `Ready`, a run reaches `Ready` exactly when some
/// outcome in it is a reading with both fields away from the placeholder.
proof fn lemma_warmup_ready_iff_from(s: WarmupState, es: Seq<MeasureOutcome>)
    requires
        s != WarmupState::Ready,
    ensures
        spec_warmup_run(s, es) == WarmupState::Ready <==> exists|i: int|
            0 <= i < es.len() && reaches_ready(#[trigger] es[i]),
    decreases es.len(),
{
    if es.len() > 0 {
        let rest = es.drop_first();
        if reaches_ready(es[0]) {
            lemma_warmup_ready_stays(rest);
        } else {
            let s1 = spec_warmup_step(s, es[0]);
            lemma_warmup_ready_iff_from(s1, rest);
            if spec_warmup_run(s, es) == WarmupState::Ready {
                let i = choose|i: int| 0 <= i < rest.len() && reaches_ready(#[trigger] rest[i]);
                assert(es[i + 1] == rest[i]);
            }
            if exists|i: int| 0 <= i < es.len() && reaches_ready(#[trigger] es[i]) {
                let i = choose|i: int| 0 <= i < es.len() && reaches_ready(#[trigger] es[i]);
                assert(i != 0);
                assert(rest[i - 1] == es[i]);
            }
        }
    }
}

/// The warm-up law: over any script of outcomes, the machine started cold is
/// `Ready` after a prefix exactly when that prefix already holds a reading
/// with both fields away from the placeholder — so it turns `Ready` at the
/// first such reading and not earlier, whatever errors or placeholder
/// readings come in between.
pub proof fn lemma_warmup_ready_exactly(events: Seq<MeasureOutcome>)
    ensures
        forall|k: int|
            0 <= k <= events.len() ==> ((spec_warmup_run(WarmupState::Cold, events.take(k))
                == WarmupState::Ready) <==> exists|i: int|
                0 <= i < k && reaches_ready(#[trigger] events[i])),
{
    assert forall|k: int| 0 <= k <= events.len() implies ((spec_warmup_run(
        WarmupState::Cold,
        events.take(k),
    ) == WarmupState::Ready) <==> exists|i: int|
        0 <= i < k && reaches_ready(#[trigger] events[i])) by {
        let pre = events.take(k);
        lemma_warmup_ready_iff_from(WarmupState::Cold, pre);
        if exists|i: int| 0 <= i < pre.len() && reaches_ready(#[trigger] pre[i]) {
            let i = choose|i: int| 0 <= i < pre.len() && reaches_ready(#[trigger] pre[i]);
            assert(events[i] == pre[i]);
        }
        if exists|i: int| 0 <= i < k && reaches_ready(#[trigger] events[i]) {
            let i = choose|i: int| 0 <= i < k && reaches_ready(#[trigger] events[i]);
            assert(pre[i] == events[i]);
        }
    }
}

} // verus!
