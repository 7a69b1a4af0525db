//! Latency statistics of the playground viewer, summarised at a fixed
//! interval.
//!
//! Durations are microseconds; instants are microseconds on the host's
//! monotonic clock.

use vstd::prelude::*;
use crate::frame::FrameMeta;
use crate::calibration_latency::{abs_i64, since, DURATION_MAX_US};

verus! {

/// Count, sum and maximum of a series of durations.
#[derive(Clone, Copy, Debug, PartialEq, Eq, Structural)]
pub struct DurationStats {
    pub count: u32,
    pub total_us: u128,
    pub max_us: u128,
}

impl DurationStats {
    pub open spec fn empty() -> DurationStats {
        DurationStats { count: 0, total_us: 0, max_us: 0 }
    }

    pub fn new() -> (s: DurationStats)
        ensures s == DurationStats::empty(),
    {
        DurationStats { count: 0, total_us: 0, max_us: 0 }
    }

    pub open spec fn added(self, value_us: u128) -> DurationStats {
        DurationStats {
            count: (self.count + 1) as u32,
            total_us: (self.total_us + value_us) as u128,
            max_us: if self.max_us >= value_us { self.max_us } else { value_us },
        }
    }

    /// Counts `value_us`, adds it to the total and keeps the maximum.
    pub fn add(&mut self, value_us: u128)
        requires
            old(self).count < u32::MAX,
            old(self).total_us + value_us <= DURATION_MAX_US,
        ensures
            *final(self) == old(self).added(value_us),
    {
        self.count = self.count + 1;
        self.total_us = self.total_us + value_us;
        if value_us > self.max_us {
            self.max_us = value_us;
        }
    }
}

/// Count, sum and maximum of a series of microsecond values.
#[derive(Clone, Copy, Debug, PartialEq, Eq, Structural)]
pub struct UsStats {
    pub count: u32,
    pub total: u128,
    pub max: u128,
}

impl UsStats {
    pub open spec fn empty() -> UsStats {
        UsStats { count: 0, total: 0, max: 0 }
    }

    pub fn new() -> (s: UsStats)
        ensures s == UsStats::empty(),
    {
        UsStats { count: 0, total: 0, max: 0 }
    }

    pub open spec fn added(self, value: u128) -> UsStats {
        UsStats {
            count: (self.count + 1) as u32,
            total: (self.total + value) as u128,
            max: if self.max >= value { self.max } else { value },
        }
    }

    /// Counts `value`, adds it to the total and keeps the maximum.
    pub fn add(&mut self, value: u128)
        requires
            old(self).count < u32::MAX,
            old(self).total + value <= u128::MAX,
        ensures
            *final(self) == old(self).added(value),
    {
        self.count = self.count + 1;
        self.total = self.total + value;
        if value > self.max {
            self.max = value;
        }
    }
}

/// The timings of one presented frame pair.
#[derive(Clone, Copy, Debug, PartialEq, Eq, Structural)]
pub struct LatencySample {
    pub rgb_wait_us: u128,
    pub ir_wait_us: u128,
    pub present_us: u128,
    pub rgb_age_after_acquire: u128,
    pub rgb_age_before_present: u128,
    pub ir_age_after_acquire: u128,
    pub camera_delta_us: Option<i64>,
}

/// Latency statistics since the last summary, which is due every `interval`.
#[derive(Clone, Copy, Debug, PartialEq, Eq, Structural)]
pub struct LatencyProbe {
    pub interval_us: u64,
    pub last_log_us: u64,
    pub frames: u32,
    pub rgb_wait: DurationStats,
    pub ir_wait: DurationStats,
    pub present: DurationStats,
    pub rgb_age_after_acquire: UsStats,
    pub rgb_age_before_present: UsStats,
    pub ir_age_after_acquire: UsStats,
    pub camera_delta_abs: UsStats,
}

/// A probe with empty statistics whose last summary was at `now`.
pub open spec fn fresh_probe(interval_us: u64, now_us: u64) -> LatencyProbe {
    LatencyProbe {
        interval_us,
        last_log_us: now_us,
        frames: 0,
        rgb_wait: DurationStats::empty(),
        ir_wait: DurationStats::empty(),
        present: DurationStats::empty(),
        rgb_age_after_acquire: UsStats::empty(),
        rgb_age_before_present: UsStats::empty(),
        ir_age_after_acquire: UsStats::empty(),
        camera_delta_abs: UsStats::empty(),
    }
}

impl LatencyProbe {
    /// A probe that summarises every `interval_us`, starting at `now_us`.
    pub fn new(interval_us: u64, now_us: u64) -> (p: LatencyProbe)
        ensures p == fresh_probe(interval_us, now_us),
    {
        LatencyProbe {
            interval_us,
            last_log_us: now_us,
            frames: 0,
            rgb_wait: DurationStats::new(),
            ir_wait: DurationStats::new(),
            present: DurationStats::new(),
            rgb_age_after_acquire: UsStats::new(),
            rgb_age_before_present: UsStats::new(),
            ir_age_after_acquire: UsStats::new(),
            camera_delta_abs: UsStats::new(),
        }
    }

    pub open spec fn with_sample(self, s: LatencySample) -> LatencyProbe {
        LatencyProbe {
            frames: (self.frames + 1) as u32,
            rgb_wait: self.rgb_wait.added(s.rgb_wait_us),
            ir_wait: self.ir_wait.added(s.ir_wait_us),
            present: self.present.added(s.present_us),
            rgb_age_after_acquire: self.rgb_age_after_acquire.added(s.rgb_age_after_acquire),
            rgb_age_before_present: self.rgb_age_before_present.added(s.rgb_age_before_present),
            ir_age_after_acquire: self.ir_age_after_acquire.added(s.ir_age_after_acquire),
            camera_delta_abs: match s.camera_delta_us {
                Some(d) => self.camera_delta_abs.added(abs_i64(d) as u128),
                None => self.camera_delta_abs,
            },
            ..self
        }
    }

    /// No counter or total overflows when `s` is counted in.
    pub open spec fn can_record(self, s: LatencySample) -> bool {
        &&& self.frames < u32::MAX
        &&& self.rgb_wait.count < u32::MAX && self.rgb_wait.total_us + s.rgb_wait_us <= DURATION_MAX_US
        &&& self.ir_wait.count < u32::MAX && self.ir_wait.total_us + s.ir_wait_us <= DURATION_MAX_US
        &&& self.present.count < u32::MAX && self.present.total_us + s.present_us <= DURATION_MAX_US
        &&& self.rgb_age_after_acquire.count < u32::MAX
            && self.rgb_age_after_acquire.total + s.rgb_age_after_acquire <= u128::MAX
        &&& self.rgb_age_before_present.count < u32::MAX
            && self.rgb_age_before_present.total + s.rgb_age_before_present <= u128::MAX
        &&& self.ir_age_after_acquire.count < u32::MAX
            && self.ir_age_after_acquire.total + s.ir_age_after_acquire <= u128::MAX
        &&& (s.camera_delta_us matches Some(d) ==> self.camera_delta_abs.count < u32::MAX
            && self.camera_delta_abs.total + abs_i64(d) <= u128::MAX)
    }

    /// Counts `sample` in. When an interval or more has passed at `now_us`
    /// since the last summary, gives back the statistics, with the time they
    /// span, and starts afresh at `now_us`.
    pub fn record(&mut self, sample: LatencySample, now_us: u64) -> (report: Option<(LatencyProbe, u64)>)
        requires
            old(self).can_record(sample),
        ensures
            ({
                let counted = old(self).with_sample(sample);
                let elapsed = since(now_us, old(self).last_log_us);
                if elapsed < old(self).interval_us {
                    report is None && *final(self) == counted
                } else {
                    report == Some((counted, elapsed))
                        && *final(self) == fresh_probe(old(self).interval_us, now_us)
                }
            }),
    {
        self.frames = self.frames + 1;
        self.rgb_wait.add(sample.rgb_wait_us);
        self.ir_wait.add(sample.ir_wait_us);
        self.present.add(sample.present_us);
        self.rgb_age_after_acquire.add(sample.rgb_age_after_acquire);
        self.rgb_age_before_present.add(sample.rgb_age_before_present);
        self.ir_age_after_acquire.add(sample.ir_age_after_acquire);
        if let Some(delta) = sample.camera_delta_us {
            let abs: u64 = if delta >= 0 {
                delta as u64
            } else if delta == i64::MIN {
                9_223_372_036_854_775_808u64
            } else {
                (-delta) as u64
            };
            self.camera_delta_abs.add(abs as u128);
        }
        let elapsed = now_us.saturating_sub(self.last_log_us);
        if elapsed < self.interval_us {
            return None;
        }
        let counted = *self;
        self.reset(now_us);
        Some((counted, elapsed))
    }

    /// Empties the statistics; the next summary is due an interval after
    /// `now_us`.
    pub fn reset(&mut self, now_us: u64)
        ensures *final(self) == fresh_probe(old(self).interval_us, now_us),
    {
        *self = LatencyProbe::new(self.interval_us, now_us);
    }
}

/// Microseconds from when a frame was received until `now_us`; zero if it
/// was received later.
pub fn age_us(meta: &FrameMeta, now_us: u64) -> (age: u128)
    ensures age == since(now_us, meta.received_at_us) as u128,
{
    now_us.saturating_sub(meta.received_at_us) as u128
}

/// Camera time of the RGB frame minus that of the IR frame, when both have
/// one.
pub fn camera_delta_us(rgb: &FrameMeta, ir: &FrameMeta) -> (d: Option<i64>)
    requires
        rgb.camera_monotonic_us matches Some(r) && ir.camera_monotonic_us matches Some(i)
            ==> i64::MIN <= r - i <= i64::MAX,
    ensures
        d == match (rgb.camera_monotonic_us, ir.camera_monotonic_us) {
            (Some(r), Some(i)) => Some((r - i) as i64),
            _ => None::<i64>,
        },
{
    let rgb_ts = match rgb.camera_monotonic_us {
        Some(t) => t,
        None => { return None; },
    };
    let ir_ts = match ir.camera_monotonic_us {
        Some(t) => t,
        None => { return None; },
    };
    Some(rgb_ts - ir_ts)
}

} // verus!
