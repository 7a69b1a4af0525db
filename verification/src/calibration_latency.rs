//! Latency statistics of the calibration viewer, summarised once a second.
//!
//! Durations are microseconds; instants are microseconds on the host's
//! monotonic clock.

use vstd::prelude::*;

verus! {

/// The largest `std::time::Duration`, in microseconds.
pub const DURATION_MAX_US: u128 = 18_446_744_073_709_551_615_999_999u128;

/// Count, sum and maximum of a series of durations.
#[derive(Clone, Copy, Debug, PartialEq, Eq, Structural)]
pub struct DurationStats {
    pub count: u32,
    pub total_us: u128,
    pub max_us: u128,
}

impl DurationStats {
    pub open spec fn empty() -> DurationStats {
        DurationStats { count: 0, total_us: 0, max_us: 0 }
    }

    pub fn new() -> (s: DurationStats)
        ensures s == DurationStats::empty(),
    {
        DurationStats { count: 0, total_us: 0, max_us: 0 }
    }

    /// The statistics with `value_us` added.
    pub open spec fn recorded(self, value_us: u128) -> DurationStats {
        DurationStats {
            count: (self.count + 1) as u32,
            total_us: (self.total_us + value_us) as u128,
            max_us: if self.max_us >= value_us { self.max_us } else { value_us },
        }
    }

    /// Counts `value_us`, adds it to the total and keeps the maximum.
    pub fn record(&mut self, value_us: u128)
        requires
            old(self).count < u32::MAX,
            old(self).total_us + value_us <= DURATION_MAX_US,
        ensures
            *final(self) == old(self).recorded(value_us),
    {
        self.count = self.count + 1;
        self.total_us = self.total_us + value_us;
        if value_us > self.max_us {
            self.max_us = value_us;
        }
    }

    /// The mean duration, rounded down; zero when nothing was recorded.
    pub fn average(&self) -> (a: u128)
        ensures
            a == if self.count == 0 { 0 } else { self.total_us / self.count as u128 },
    {
        if self.count == 0 {
            0
        } else {
            self.total_us / self.count as u128
        }
    }
}

/// Count, sum and maximum of the absolute values of signed microsecond
/// offsets.
#[derive(Clone, Copy, Debug, PartialEq, Eq, Structural)]
pub struct MicrosecondStats {
    pub count: u32,
    pub total_abs_us: u128,
    pub max_abs_us: u64,
}

/// `|v|` as an unsigned value.
pub open spec fn abs_i64(v: i64) -> u64 {
    if v >= 0 { v as u64 } else { (-(v as int)) as u64 }
}

fn unsigned_abs(v: i64) -> (a: u64)
    ensures a == abs_i64(v),
{
    if v >= 0 {
        v as u64
    } else if v == i64::MIN {
        9_223_372_036_854_775_808u64
    } else {
        (-v) as u64
    }
}

impl MicrosecondStats {
    pub open spec fn empty() -> MicrosecondStats {
        MicrosecondStats { count: 0, total_abs_us: 0, max_abs_us: 0 }
    }

    /// The sum cannot outgrow what `count` values could add up to.
    pub open spec fn wf(self) -> bool {
        self.total_abs_us <= self.count * (u64::MAX as int)
    }

    pub fn new() -> (s: MicrosecondStats)
        ensures s == MicrosecondStats::empty(), s.wf(),
    {
        MicrosecondStats { count: 0, total_abs_us: 0, max_abs_us: 0 }
    }

    pub open spec fn recorded(self, value_us: i64) -> MicrosecondStats {
        MicrosecondStats {
            count: (self.count + 1) as u32,
            total_abs_us: (self.total_abs_us + abs_i64(value_us)) as u128,
            max_abs_us: if self.max_abs_us >= abs_i64(value_us) { self.max_abs_us } else { abs_i64(value_us) },
        }
    }

    /// Counts `|value_us|`, adds it to the total and keeps the maximum.
    pub fn record(&mut self, value_us: i64)
        requires
            old(self).wf(),
            old(self).count < u32::MAX,
        ensures
            final(self).wf(),
            *final(self) == old(self).recorded(value_us),
    {
        let abs_us = unsigned_abs(value_us);
        proof {
            assert(self.count * (u64::MAX as int) <= (u32::MAX as int) * (u64::MAX as int)) by (nonlinear_arith)
                requires self.count <= u32::MAX;
            assert((self.count + 1) * (u64::MAX as int) == self.count * (u64::MAX as int) + u64::MAX) by (nonlinear_arith);
        }
        self.count = self.count + 1;
        self.total_abs_us = self.total_abs_us + abs_us as u128;
        if abs_us > self.max_abs_us {
            self.max_abs_us = abs_us;
        }
    }
}

/// What one presented calibration frame took.
#[derive(Clone, Copy, Debug, PartialEq, Eq, Structural)]
pub struct CalibrationLatencySample {
    pub latest_us: u128,
    pub rgb_detect_us: u128,
    pub ir_detect_us: u128,
    pub present_us: u128,
    pub total_us: u128,
    pub finished_at_us: u64,
    /// When the RGB frame shown was received, if one was.
    pub rgb_received_at_us: Option<u64>,
    /// When the IR frame shown was received, if one was.
    pub ir_received_at_us: Option<u64>,
    pub sync_delta_us: Option<i64>,
    pub rgb_detected: bool,
    pub ir_detected: bool,
}

/// Latency statistics over a window of about a second.
#[derive(Clone, Copy, Debug, PartialEq, Eq, Structural)]
pub struct CalibrationLatencyLog {
    pub window_start_us: Option<u64>,
    pub frames: u32,
    pub latest: DurationStats,
    pub rgb_detect: DurationStats,
    pub ir_detect: DurationStats,
    pub present: DurationStats,
    pub total: DurationStats,
    pub rgb_age: DurationStats,
    pub ir_age: DurationStats,
    pub sync_delta: MicrosecondStats,
    pub rgb_detected: u32,
    pub ir_detected: u32,
}

/// `a - b`, or zero when `b` is later.
pub open spec fn since(a: u64, b: u64) -> u64 {
    if a >= b { (a - b) as u64 } else { 0 }
}

/// One second, in microseconds.
pub const WINDOW_US: u64 = 1_000_000u64;

/// The log with every statistic empty and the window starting at `start`.
pub open spec fn fresh_log(start: Option<u64>) -> CalibrationLatencyLog {
    CalibrationLatencyLog {
        window_start_us: start,
        frames: 0,
        latest: DurationStats::empty(),
        rgb_detect: DurationStats::empty(),
        ir_detect: DurationStats::empty(),
        present: DurationStats::empty(),
        total: DurationStats::empty(),
        rgb_age: DurationStats::empty(),
        ir_age: DurationStats::empty(),
        sync_delta: MicrosecondStats::empty(),
        rgb_detected: 0,
        ir_detected: 0,
    }
}

/// Age of a frame received at `received`, at `now`.
pub open spec fn age_at(received: Option<u64>, now: u64) -> u128 {
    match received {
        Some(r) => since(now, r) as u128,
        None => 0,
    }
}

impl CalibrationLatencyLog {
    pub open spec fn wf(self) -> bool {
        self.sync_delta.wf()
    }

    /// A log with no window started yet.
    pub fn new() -> (log: CalibrationLatencyLog)
        ensures log == fresh_log(None), log.wf(),
    {
        CalibrationLatencyLog {
            window_start_us: None,
            frames: 0,
            latest: DurationStats::new(),
            rgb_detect: DurationStats::new(),
            ir_detect: DurationStats::new(),
            present: DurationStats::new(),
            total: DurationStats::new(),
            rgb_age: DurationStats::new(),
            ir_age: DurationStats::new(),
            sync_delta: MicrosecondStats::new(),
            rgb_detected: 0,
            ir_detected: 0,
        }
    }

    /// The log with `sample` counted in.
    pub open spec fn with_sample(self, s: CalibrationLatencySample) -> CalibrationLatencyLog {
        CalibrationLatencyLog {
            window_start_us: Some(match self.window_start_us { Some(w) => w, None => s.finished_at_us }),
            frames: (self.frames + 1) as u32,
            latest: self.latest.recorded(s.latest_us),
            rgb_detect: self.rgb_detect.recorded(s.rgb_detect_us),
            ir_detect: self.ir_detect.recorded(s.ir_detect_us),
            present: self.present.recorded(s.present_us),
            total: self.total.recorded(s.total_us),
            rgb_age: if s.rgb_received_at_us is Some { self.rgb_age.recorded(age_at(s.rgb_received_at_us, s.finished_at_us)) } else { self.rgb_age },
            ir_age: if s.ir_received_at_us is Some { self.ir_age.recorded(age_at(s.ir_received_at_us, s.finished_at_us)) } else { self.ir_age },
            sync_delta: match s.sync_delta_us { Some(d) => self.sync_delta.recorded(d), None => self.sync_delta },
            rgb_detected: if s.rgb_detected { (self.rgb_detected + 1) as u32 } else { self.rgb_detected },
            ir_detected: if s.ir_detected { (self.ir_detected + 1) as u32 } else { self.ir_detected },
        }
    }

    /// No counter or total overflows when `s` is counted in.
    pub open spec fn can_record(self, s: CalibrationLatencySample) -> bool {
        &&& self.frames < u32::MAX
        &&& self.latest.count < u32::MAX && self.latest.total_us + s.latest_us <= DURATION_MAX_US
        &&& self.rgb_detect.count < u32::MAX && self.rgb_detect.total_us + s.rgb_detect_us <= DURATION_MAX_US
        &&& self.ir_detect.count < u32::MAX && self.ir_detect.total_us + s.ir_detect_us <= DURATION_MAX_US
        &&& self.present.count < u32::MAX && self.present.total_us + s.present_us <= DURATION_MAX_US
        &&& self.total.count < u32::MAX && self.total.total_us + s.total_us <= DURATION_MAX_US
        &&& (s.rgb_received_at_us is Some ==> self.rgb_age.count < u32::MAX
            && self.rgb_age.total_us + age_at(s.rgb_received_at_us, s.finished_at_us) <= DURATION_MAX_US)
        &&& (s.ir_received_at_us is Some ==> self.ir_age.count < u32::MAX
            && self.ir_age.total_us + age_at(s.ir_received_at_us, s.finished_at_us) <= DURATION_MAX_US)
        &&& (s.sync_delta_us is Some ==> self.sync_delta.count < u32::MAX)
        &&& (s.rgb_detected ==> self.rgb_detected < u32::MAX)
        &&& (s.ir_detected ==> self.ir_detected < u32::MAX)
    }

    /// Counts `sample` in. Once a second or more has passed since the window
    /// started, gives back the window's statistics, with the time it spanned,
    /// and starts a new window at the sample's end.
    pub fn record(&mut self, sample: CalibrationLatencySample) -> (report: Option<(CalibrationLatencyLog, u64)>)
        requires
            old(self).wf(),
            old(self).can_record(sample),
        ensures
            final(self).wf(),
            ({
                let counted = old(self).with_sample(sample);
                let elapsed = since(sample.finished_at_us, counted.window_start_us.unwrap());
                if elapsed < WINDOW_US {
                    report is None && *final(self) == counted
                } else {
                    report == Some((counted, elapsed)) && *final(self) == fresh_log(Some(sample.finished_at_us))
                }
            }),
    {
        let window_start = match self.window_start_us {
            Some(w) => w,
            None => sample.finished_at_us,
        };
        self.window_start_us = Some(window_start);
        self.frames = self.frames + 1;
        self.latest.record(sample.latest_us);
        self.rgb_detect.record(sample.rgb_detect_us);
        self.ir_detect.record(sample.ir_detect_us);
        self.present.record(sample.present_us);
        self.total.record(sample.total_us);
        if sample.rgb_detected {
            self.rgb_detected = self.rgb_detected + 1;
        }
        if sample.ir_detected {
            self.ir_detected = self.ir_detected + 1;
        }
        if let Some(received) = sample.rgb_received_at_us {
            self.rgb_age.record(sample.finished_at_us.saturating_sub(received) as u128);
        }
        if let Some(received) = sample.ir_received_at_us {
            self.ir_age.record(sample.finished_at_us.saturating_sub(received) as u128);
        }
        if let Some(delta_us) = sample.sync_delta_us {
            self.sync_delta.record(delta_us);
        }
        let elapsed = sample.finished_at_us.saturating_sub(window_start);
        if elapsed < WINDOW_US {
            return None;
        }
        let counted = *self;
        self.reset(sample.finished_at_us);
        Some((counted, elapsed))
    }

    /// Empties every statistic and starts a new window at `now_us`.
    pub fn reset(&mut self, now_us: u64)
        ensures *final(self) == fresh_log(Some(now_us)), final(self).wf(),
    {
        let mut fresh = CalibrationLatencyLog::new();
        fresh.window_start_us = Some(now_us);
        *self = fresh;
    }
}

} // verus!
