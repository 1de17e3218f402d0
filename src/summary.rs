//! The one-shot report of a run: how many probes resolved, how many failed,
//! and the wall-clock time the run took.
use vstd::prelude::*;

use crate::scheduler::Scheduler;

verus! {

/// Integer division rounding toward zero, as Rust's `/` on `i64` does.
pub open spec fn div_toward_zero(a: int, b: int) -> int {
    if a >= 0 {
        a / b
    } else {
        -((-a) / b)
    }
}

/// The remainder that goes with [`div_toward_zero`]: it has the sign of `a`.
pub open spec fn rem_toward_zero(a: int, b: int) -> int {
    a - b * div_toward_zero(a, b)
}

/// A span of wall-clock time in whole seconds, possibly negative where the
/// clock was set back during the run.
#[derive(Clone, Copy, Debug, PartialEq, Eq, Structural)]
pub struct Elapsed {
    pub seconds: i64,
}

/// A span split for display as `H:M:S`: whole hours, then the minutes and
/// seconds left over.
#[derive(Clone, Copy, Debug, PartialEq, Eq, Structural)]
pub struct Clock {
    pub hours: i64,
    pub minutes: i64,
    pub seconds: i64,
}

impl Elapsed {
    /// Splits the span the way whole hours, whole minutes modulo 60 and
    /// whole seconds modulo 60 are read off it.
    pub fn clock(&self) -> (r: Clock)
        ensures
            r.hours == div_toward_zero(self.seconds as int, 3600),
            r.minutes == rem_toward_zero(div_toward_zero(self.seconds as int, 60), 60),
            r.seconds == rem_toward_zero(self.seconds as int, 60),
    {
        let s = self.seconds;
        let negative = s < 0;
        let magnitude: u64 = if negative {
            ((-(s + 1)) as u64) + 1
        } else {
            s as u64
        };
        assert(magnitude as int == if negative { -(s as int) } else { s as int });
        let h = magnitude / 3600;
        let m = (magnitude / 60) % 60;
        let sec = magnitude % 60;
        assert(h <= magnitude && magnitude / 60 <= magnitude);
        if negative {
            Clock { hours: -(h as i64), minutes: -(m as i64), seconds: -(sec as i64) }
        } else {
            Clock { hours: h as i64, minutes: m as i64, seconds: sec as i64 }
        }
    }
}

/// The final counts of a run and the time it took.
#[derive(Clone, Copy, Debug, PartialEq, Eq, Structural)]
pub struct RunSummary {
    pub done: usize,
    pub failed: usize,
    pub elapsed: Elapsed,
}

impl RunSummary {
    /// The summary of `run` after `elapsed`.
    pub fn of(run: &Scheduler, elapsed: Elapsed) -> (r: RunSummary)
        ensures
            r.done == run@.done,
            r.failed == run@.failed,
            r.elapsed == elapsed,
    {
        RunSummary { done: run.done(), failed: run.failed(), elapsed }
    }
}

} // verus!
