//! Periodic frame-rate reports.
use vstd::prelude::*;

verus! {

/// A report is due once strictly more than this many whole seconds have
/// passed since the previous one.
pub const REPORT_INTERVAL_SECS: u64 = 3;

/// Counts the frames handled since the last report.
pub struct FrameCounter {
    pub count: u64,
}

/// The count after one more frame, and the count to report, if any, when
/// `secs_since_report` whole seconds have passed since the last report.
pub open spec fn tick_outcome(count: u64, secs_since_report: u64) -> (u64, Option<u64>) {
    if secs_since_report > REPORT_INTERVAL_SECS {
        (0, Some((count + 1) as u64))
    } else {
        ((count + 1) as u64, None)
    }
}

impl FrameCounter {
    /// A counter that has seen no frame.
    pub fn new() -> (c: Self)
        ensures
            c.count == 0,
    {
        FrameCounter { count: 0 }
    }

    /// Counts one more frame; when the report interval has passed, returns
    /// the number of frames to report and starts counting from zero again.
    pub fn tick(&mut self, secs_since_report: u64) -> (report: Option<u64>)
        requires
            old(self).count < u64::MAX,
        ensures
            (final(self).count, report) == tick_outcome(old(self).count, secs_since_report),
    {
        self.count = self.count + 1;
        if secs_since_report > REPORT_INTERVAL_SECS {
            let n = self.count;
            self.count = 0;
            Some(n)
        } else {
            None
        }
    }
}

} // verus!
