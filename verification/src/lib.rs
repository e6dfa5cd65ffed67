//! Verified core of an air-quality telemetry daemon.
//!
//! The library holds the pure logic of the daemon: the calibration-baseline
//! record and its on-disk text encoding, the sensor warm-up state machine,
//! the parser for the text metrics exposition format scraped from a peer
//! endpoint, and the per-tick decision logic of the telemetry loop.
//! All bus, network and file I/O lives outside the library, in the thin
//! program around it, which feeds plain values in and carries actions out.

use vstd::prelude::*;

pub mod baseline;
pub mod scrape;
pub mod telemetry;
pub mod text;
pub mod warmup;

verus! {

/// One gas measurement as the sensor reports it.
#[derive(Clone, Copy, Debug, PartialEq, Eq, Structural)]
pub struct Measurement {
    pub co2eq_ppm: u16,
    pub tvoc_ppb: u16,
}

impl Measurement {
    /// The fixed placeholder reading the sensor emits while its internal
    /// algorithm is still warming up.
    pub open spec fn is_warmup_default(self) -> bool {
        self.co2eq_ppm == 400 && self.tvoc_ppb == 0
    }

    /// True when the reading is still the warm-up placeholder `(400, 0)`.
    pub fn is_default(&self) -> (r: bool)
        ensures
            r == self.is_warmup_default(),
    {
        self.co2eq_ppm == 400 && self.tvoc_ppb == 0
    }
}

/// The result of one raw measure transaction on the sensor bus, as the
/// program around the library reports it: a reading, or a failed
/// transaction.
#[derive(Clone, Copy, Debug, PartialEq, Eq, Structural)]
pub enum MeasureOutcome {
    Reading(Measurement),
    Failed,
}

} // verus!
