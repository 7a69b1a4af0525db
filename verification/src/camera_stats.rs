//! Per-camera statistics of the playground: the time between frames and the
//! frame rate over windows of a second.
//!
//! Instants are microseconds on the host's monotonic clock.

use vstd::prelude::*;
use crate::calibration_latency::{since, WINDOW_US};
use crate::frame::{FrameMeta, SensorKind};

verus! {

/// A closed frame-rate window: frames counted and its length.
#[derive(Clone, Copy, Debug, PartialEq, Eq, Structural)]
pub struct FpsWindow {
    pub frames: u32,
    pub elapsed_us: u64,
}

/// What is shown of a camera for one frame. The frame rate is given as the
/// frames counted over the last complete window and the window's length.
#[derive(Clone, Copy, Debug, PartialEq, Eq, Structural)]
pub struct CameraMetadata {
    pub sensor: Option<SensorKind>,
    pub frame_id: Option<u64>,
    pub sequence: Option<u64>,
    pub fps_window: Option<FpsWindow>,
    pub frame_delta_us: Option<i64>,
    pub age_us: Option<u64>,
    pub camera_monotonic_us: Option<i64>,
}

/// Statistics of one camera's frames.
#[derive(Clone, Copy, Debug, PartialEq, Eq, Structural)]
pub struct CameraStatsProcessor {
    pub last_frame_id: Option<u64>,
    pub last_camera_monotonic_us: Option<i64>,
    pub last_received_at_us: Option<u64>,
    pub frame_delta_us: Option<i64>,
    pub fps_window: Option<FpsWindow>,
    pub fps_window_started_at_us: u64,
    pub fps_window_frames: u32,
}

/// `d` read as `i64`, as `as i64` converts.
pub open spec fn as_i64(d: u64) -> i64 {
    if d <= i64::MAX { d as i64 } else { (d - 18446744073709551616int) as i64 }
}

/// Time from the previous frame to `meta`: by the camera's clock when both
/// frames have it, else by when they were received (nothing if `meta` was
/// received first).
pub open spec fn spec_frame_delta(p: CameraStatsProcessor, meta: FrameMeta) -> Option<i64> {
    match (p.last_camera_monotonic_us, meta.camera_monotonic_us) {
        (Some(prev), Some(cur)) => Some((cur - prev) as i64),
        _ => match p.last_received_at_us {
            Some(prev) => if meta.received_at_us >= prev {
                Some(as_i64((meta.received_at_us - prev) as u64))
            } else {
                None
            },
            None => None,
        },
    }
}

/// The processor after counting `meta`, when it is a new frame.
pub open spec fn after_frame(p: CameraStatsProcessor, meta: FrameMeta) -> CameraStatsProcessor {
    if p.last_frame_id != Some(meta.id) {
        CameraStatsProcessor {
            frame_delta_us: spec_frame_delta(p, meta),
            last_frame_id: Some(meta.id),
            last_camera_monotonic_us: meta.camera_monotonic_us,
            last_received_at_us: Some(meta.received_at_us),
            fps_window_frames: (p.fps_window_frames + 1) as u32,
            ..p
        }
    } else {
        p
    }
}

/// The processor after closing the frame-rate window when a second has
/// passed at `now_us`.
pub open spec fn after_window(p: CameraStatsProcessor, now_us: u64) -> CameraStatsProcessor {
    let elapsed = since(now_us, p.fps_window_started_at_us);
    if elapsed >= WINDOW_US {
        CameraStatsProcessor {
            fps_window: Some(FpsWindow { frames: p.fps_window_frames, elapsed_us: elapsed }),
            fps_window_started_at_us: now_us,
            fps_window_frames: 0,
            ..p
        }
    } else {
        p
    }
}

/// The frame's camera time can be compared with the previous one, and the
/// frame count of the window can grow.
pub open spec fn can_process(p: CameraStatsProcessor, meta: FrameMeta) -> bool {
    p.last_frame_id != Some(meta.id) ==> {
        &&& p.fps_window_frames < u32::MAX
        &&& (p.last_camera_monotonic_us matches Some(prev) && meta.camera_monotonic_us matches Some(cur)
            ==> i64::MIN <= cur - prev <= i64::MAX)
    }
}

impl CameraStatsProcessor {
    /// Statistics with nothing seen yet, the frame-rate window starting at
    /// `now_us`.
    pub fn new(now_us: u64) -> (p: Self)
        ensures
            p == (CameraStatsProcessor {
                last_frame_id: None,
                last_camera_monotonic_us: None,
                last_received_at_us: None,
                frame_delta_us: None,
                fps_window: None,
                fps_window_started_at_us: now_us,
                fps_window_frames: 0,
            }),
    {
        CameraStatsProcessor {
            last_frame_id: None,
            last_camera_monotonic_us: None,
            last_received_at_us: None,
            frame_delta_us: None,
            fps_window: None,
            fps_window_started_at_us: now_us,
            fps_window_frames: 0,
        }
    }

    /// Counts the frame (if any, and if not seen before) and gives what is
    /// shown of the camera at `now_us`.
    pub fn process(&mut self, frame: Option<&FrameMeta>, now_us: u64) -> (m: CameraMetadata)
        requires
            frame matches Some(meta) ==> can_process(*old(self), *meta),
        ensures
            match frame {
                None => *final(self) == *old(self) && m == (CameraMetadata {
                    sensor: None,
                    frame_id: None,
                    sequence: None,
                    fps_window: old(self).fps_window,
                    frame_delta_us: old(self).frame_delta_us,
                    age_us: None,
                    camera_monotonic_us: None,
                }),
                Some(meta) => {
                    &&& *final(self) == after_window(after_frame(*old(self), *meta), now_us)
                    &&& m == (CameraMetadata {
                        sensor: Some(meta.sensor),
                        frame_id: Some(meta.id),
                        sequence: meta.sequence,
                        fps_window: final(self).fps_window,
                        frame_delta_us: final(self).frame_delta_us,
                        age_us: Some(since(now_us, meta.received_at_us)),
                        camera_monotonic_us: meta.camera_monotonic_us,
                    })
                },
            },
    {
        let meta = match frame {
            None => {
                return CameraMetadata {
                    sensor: None,
                    frame_id: None,
                    sequence: None,
                    fps_window: self.fps_window,
                    frame_delta_us: self.frame_delta_us,
                    age_us: None,
                    camera_monotonic_us: None,
                };
            },
            Some(meta) => meta,
        };
        if self.last_frame_id != Some(meta.id) {
            self.frame_delta_us = match (self.last_camera_monotonic_us, meta.camera_monotonic_us) {
                (Some(prev), Some(cur)) => Some(cur - prev),
                _ => match self.last_received_at_us {
                    Some(prev) => if meta.received_at_us >= prev {
                        let d = meta.received_at_us - prev;
                        let v: i64 = if d <= 9_223_372_036_854_775_807u64 {
                            d as i64
                        } else {
                            (d - 9_223_372_036_854_775_808u64) as i64 - 9_223_372_036_854_775_807i64 - 1
                        };
                        Some(v)
                    } else {
                        None
                    },
                    None => None,
                },
            };
            self.last_frame_id = Some(meta.id);
            self.last_camera_monotonic_us = meta.camera_monotonic_us;
            self.last_received_at_us = Some(meta.received_at_us);
            self.fps_window_frames = self.fps_window_frames + 1;
        }
        let elapsed = now_us.saturating_sub(self.fps_window_started_at_us);
        if elapsed >= WINDOW_US {
            self.fps_window = Some(FpsWindow { frames: self.fps_window_frames, elapsed_us: elapsed });
            self.fps_window_started_at_us = now_us;
            self.fps_window_frames = 0;
        }
        CameraMetadata {
            sensor: Some(meta.sensor),
            frame_id: Some(meta.id),
            sequence: meta.sequence,
            fps_window: self.fps_window,
            frame_delta_us: self.frame_delta_us,
            age_us: Some(now_us.saturating_sub(meta.received_at_us)),
            camera_monotonic_us: meta.camera_monotonic_us,
        }
    }
}

/// Paces frames to at most one every `min_interval_us`: a frame that comes
/// sooner is read and dropped.
#[derive(Clone, Copy, Debug, PartialEq, Eq, Structural)]
pub struct FrameThrottle {
    pub min_interval_us: Option<u64>,
    pub last_frame_at_us: Option<u64>,
}

impl FrameThrottle {
    /// A throttle that lets every frame through.
    pub fn unlimited() -> (t: Self)
        ensures t.min_interval_us is None && t.last_frame_at_us is None,
    {
        FrameThrottle { min_interval_us: None, last_frame_at_us: None }
    }

    /// A throttle with the given least interval between frames.
    pub fn new(min_interval_us: Option<u64>) -> (t: Self)
        ensures t.min_interval_us == min_interval_us && t.last_frame_at_us is None,
    {
        FrameThrottle { min_interval_us, last_frame_at_us: None }
    }

    /// Whether a frame read at `now_us` is passed on.
    pub fn admits(&self, now_us: u64) -> (b: bool)
        requires
            self.min_interval_us matches Some(i) && self.last_frame_at_us matches Some(l) ==> l + i <= u64::MAX,
        ensures
            b == !(self.min_interval_us matches Some(i) && self.last_frame_at_us matches Some(l) && now_us < l + i),
    {
        match (self.min_interval_us, self.last_frame_at_us) {
            (Some(interval), Some(last)) => now_us >= last + interval,
            _ => true,
        }
    }

    /// Notes that a frame was passed on at `now_us`.
    pub fn passed(&mut self, now_us: u64)
        ensures *final(self) == (FrameThrottle { last_frame_at_us: Some(now_us), ..*old(self) }),
    {
        self.last_frame_at_us = Some(now_us);
    }
}

/// Two frames passed on by a throttle are at least its interval apart.
pub proof fn lemma_throttle_spacing(t: FrameThrottle, first_us: u64, later_us: u64)
    requires
        t.min_interval_us matches Some(i) && first_us + i <= u64::MAX,
    ensures
        ({
            let after = FrameThrottle { last_frame_at_us: Some(first_us), ..t };
            let admitted = !(after.min_interval_us matches Some(i) && after.last_frame_at_us matches Some(l) && later_us < l + i);
            admitted ==> later_us - first_us >= t.min_interval_us->Some_0
        }),
{
}

} // verus!
