//! Small state machines that decide when outside work is done: switching a
//! sink on and off, following a region of interest with the camera's own ROI
//! control, logging pipeline statistics, and running the checkerboard
//! detector.
//!
//! Instants are microseconds on the host's monotonic clock.

use vstd::prelude::*;
use crate::geometry::{clamp_rect, expand_defined, expand_to_min_edge, rect, spec_clamp_rect,
    spec_expand_to_min_edge, Rect, Size};
use crate::calibration_latency::since;

verus! {

/// A sink that forwards to `inner` only while enabled.
pub struct ToggleSink<S> {
    inner: S,
    enabled: bool,
}

impl<S> ToggleSink<S> {
    pub closed spec fn spec_enabled(&self) -> bool {
        self.enabled
    }

    pub closed spec fn spec_inner(&self) -> S {
        self.inner
    }

    /// The sink forwarded to.
    pub fn inner(&self) -> (i: &S)
        ensures *i == self.spec_inner(),
    {
        &self.inner
    }

    /// The sink forwarded to, to consume with.
    pub fn inner_mut(&mut self) -> (i: &mut S)
        ensures
            *i == old(self).spec_inner(),
            final(self).spec_inner() == *final(i),
            final(self).spec_enabled() == old(self).spec_enabled(),
    {
        &mut self.inner
    }

    pub fn new(inner: S, enabled: bool) -> (t: Self)
        ensures t.spec_enabled() == enabled, t.spec_inner() == inner,
    {
        ToggleSink { inner, enabled }
    }

    /// Switches forwarding on or off; gives the new state.
    pub fn toggle_enabled(&mut self) -> (now: bool)
        ensures
            now == !old(self).spec_enabled(),
            final(self).spec_enabled() == now,
            final(self).spec_inner() == old(self).spec_inner(),
    {
        self.enabled = !self.enabled;
        self.enabled
    }

    /// Whether what is consumed goes on to the inner sink.
    pub fn enabled(&self) -> (b: bool)
        ensures b == self.spec_enabled(),
    {
        self.enabled
    }
}

/// Toggling a sink twice leaves it as it was.
pub proof fn lemma_toggle_twice<S>(a: ToggleSink<S>, b: ToggleSink<S>, c: ToggleSink<S>)
    requires
        b.spec_enabled() == !a.spec_enabled(),
        c.spec_enabled() == !b.spec_enabled(),
    ensures
        c.spec_enabled() == a.spec_enabled(),
{
}

/// A group of sinks that a frame goes through in order.
pub struct ComboSink<S> {
    sinks: Vec<S>,
}

impl<S> ComboSink<S> {
    pub closed spec fn sinks(&self) -> Seq<S> {
        self.sinks@
    }

    /// An empty group.
    pub fn new() -> (c: Self)
        ensures c.sinks() == Seq::<S>::empty(),
    {
        ComboSink { sinks: Vec::new() }
    }

    /// Adds a sink after the others.
    pub fn push_box(&mut self, sink: S)
        ensures final(self).sinks() == old(self).sinks().push(sink),
    {
        self.sinks.push(sink);
    }

    /// Adds a sink before the others.
    pub fn push_front_box(&mut self, sink: S)
        ensures final(self).sinks() == seq![sink] + old(self).sinks(),
    {
        self.sinks.insert(0, sink);
        assert(self.sinks@ =~= seq![sink] + old(self).sinks());
    }

    pub fn len(&self) -> (n: usize)
        ensures n == self.sinks().len(),
    {
        self.sinks.len()
    }

    /// Sink `i` of the group, to consume with.
    pub fn get_mut(&mut self, i: usize) -> (s: &mut S)
        requires i < old(self).sinks().len(),
        ensures
            *s == old(self).sinks()[i as int],
            final(self).sinks() == old(self).sinks().update(i as int, *final(s)),
    {
        &mut self.sinks[i]
    }
}

/// The state the toggles of a sink group report: that of the last sink that
/// has one.
pub open spec fn last_toggle(results: Seq<Option<bool>>) -> Option<bool>
    decreases results.len(),
{
    if results.len() == 0 {
        None
    } else {
        match results.last() {
            Some(b) => Some(b),
            None => last_toggle(results.drop_last()),
        }
    }
}

/// Combines what the sinks of a group answered to a toggle, in order.
pub fn combine_toggles(results: &[Option<bool>]) -> (r: Option<bool>)
    ensures r == last_toggle(results@),
{
    let mut latest: Option<bool> = None;
    let mut i: usize = 0;
    while i < results.len()
        invariant
            i <= results@.len(),
            latest == last_toggle(results@.take(i as int)),
        decreases results@.len() - i,
    {
        proof {
            assert(results@.take(i + 1).drop_last() =~= results@.take(i as int));
        }
        latest = match results[i] {
            Some(b) => Some(b),
            None => latest,
        };
        i = i + 1;
    }
    assert(results@.take(results@.len() as int) =~= results@);
    latest
}

/// Settings of the camera-ROI follower.
#[derive(Clone, Copy, Debug, PartialEq, Eq, Structural)]
pub struct CameraRoiFollowConfig {
    /// Smallest edge of the rectangle handed to the camera.
    pub min_edge: u32,
}

/// Turns a region of interest (already mapped into the camera's frame) into
/// the rectangle asked of the camera's ROI control.
#[derive(Clone, Copy, Debug, PartialEq, Eq, Structural)]
pub struct CameraRoiFollowProcessor {
    pub config: CameraRoiFollowConfig,
}

/// The rectangle the camera ROI must stay in: the allowed bounds cut to the
/// frame, else the whole frame.
pub open spec fn follow_bounds(allowed_bounds: Option<Rect>, target_size: Size) -> Rect {
    match allowed_bounds {
        Some(b) => spec_clamp_rect(b, target_size),
        None => rect(0, 0, target_size.width, target_size.height),
    }
}

/// The rectangle the camera ROI must stay in.
pub fn follow_bounds_of(allowed_bounds: Option<Rect>, target_size: Size) -> (b: Rect)
    ensures b == follow_bounds(allowed_bounds, target_size),
{
    match allowed_bounds {
        Some(b) => clamp_rect(b, target_size),
        None => Rect { x: 0, y: 0, size: target_size },
    }
}

impl CameraRoiFollowProcessor {
    pub fn new(config: CameraRoiFollowConfig) -> (p: Self)
        ensures p.config == config,
    {
        CameraRoiFollowProcessor { config }
    }

    /// The rectangle for the camera: `roi` grown to the minimum edge and
    /// moved inside the bounds; nothing when there is no region.
    pub fn process(&mut self, roi: Option<Rect>, allowed_bounds: Option<Rect>, target_size: Size) -> (r: Option<Rect>)
        requires
            roi matches Some(m) ==> expand_defined(m, old(self).config.min_edge, follow_bounds(allowed_bounds, target_size)),
        ensures
            *final(self) == *old(self),
            r == match roi {
                Some(m) => Some(spec_expand_to_min_edge(m, old(self).config.min_edge, follow_bounds(allowed_bounds, target_size))),
                None => None::<Rect>,
            },
    {
        let mapped = match roi {
            Some(m) => m,
            None => { return None; },
        };
        let bounds = follow_bounds_of(allowed_bounds, target_size);
        Some(expand_to_min_edge(mapped, self.config.min_edge, bounds))
    }
}

/// Settings of the camera-ROI driver.
#[derive(Clone, Copy, Debug, PartialEq, Eq, Structural)]
pub struct CameraRoiConfig {
    pub min_edge: u32,
    /// Least time between two requests to the camera, if any.
    pub update_interval_us: Option<u64>,
}

/// Decides when a new rectangle is sent to the camera's ROI control: not when
/// it is the one last sent, nor before the update interval has passed since
/// the last request.
#[derive(Clone, Copy, Debug, PartialEq, Eq, Structural)]
pub struct RoiUpdateGate {
    pub update_interval_us: Option<u64>,
    pub last_requested_rect: Option<Rect>,
    /// The rectangle the camera reported after the last request.
    pub actual_rect: Option<Rect>,
    pub last_update_us: Option<u64>,
}

pub open spec fn spec_should_send(g: RoiUpdateGate, rect: Rect, now_us: u64) -> bool {
    &&& g.last_requested_rect != Some(rect)
    &&& !(g.update_interval_us matches Some(interval) && g.last_update_us matches Some(last)
        && since(now_us, last) < interval)
}

impl RoiUpdateGate {
    pub fn new(update_interval_us: Option<u64>) -> (g: Self)
        ensures
            g.update_interval_us == update_interval_us,
            g.last_requested_rect is None,
            g.actual_rect is None,
            g.last_update_us is None,
    {
        RoiUpdateGate { update_interval_us, last_requested_rect: None, actual_rect: None, last_update_us: None }
    }

    /// Whether `rect` is to be sent to the camera at `now_us`.
    pub fn should_send(&self, rect: Rect, now_us: u64) -> (b: bool)
        ensures b == spec_should_send(*self, rect, now_us),
    {
        if self.last_requested_rect == Some(rect) {
            return false;
        }
        match (self.update_interval_us, self.last_update_us) {
            (Some(interval), Some(last)) => now_us.saturating_sub(last) >= interval,
            _ => true,
        }
    }

    /// Notes that `rect` was sent at `now_us` and the camera answered with
    /// `actual`.
    pub fn sent(&mut self, rect: Rect, actual: Rect, now_us: u64)
        ensures
            *final(self) == (RoiUpdateGate {
                last_requested_rect: Some(rect),
                actual_rect: Some(actual),
                last_update_us: Some(now_us),
                ..*old(self)
            }),
    {
        self.last_requested_rect = Some(rect);
        self.actual_rect = Some(actual);
        self.last_update_us = Some(now_us);
    }

    /// The rectangle the camera last reported.
    pub fn current_rect(&self) -> (r: Option<Rect>)
        ensures r == self.actual_rect,
    {
        self.actual_rect
    }
}

/// Once the same rectangle has been sent, it is not sent again.
pub proof fn lemma_sent_rect_not_resent(g: RoiUpdateGate, rect: Rect, actual: Rect, now_us: u64, later_us: u64)
    ensures
        !spec_should_send(RoiUpdateGate {
            last_requested_rect: Some(rect),
            actual_rect: Some(actual),
            last_update_us: Some(now_us),
            ..g
        }, rect, later_us),
{
}

/// What the pipeline's text log reports once an interval has passed.
#[derive(Clone, Copy, Debug, PartialEq, Eq, Structural)]
pub struct TextStats {
    pub frames: u32,
    pub acquire_us: u64,
    pub elapsed_us: u64,
}

/// Counts frames and the time spent acquiring them, and reports the totals
/// every `interval`.
#[derive(Clone, Copy, Debug, PartialEq, Eq, Structural)]
pub struct TextStatsRenderer {
    pub interval_us: u64,
    pub last_log_us: u64,
    pub frames: u32,
    pub acquire_us: u64,
}

impl TextStatsRenderer {
    pub fn new(interval_us: u64, now_us: u64) -> (r: Self)
        ensures r == (TextStatsRenderer { interval_us, last_log_us: now_us, frames: 0, acquire_us: 0 }),
    {
        TextStatsRenderer { interval_us, last_log_us: now_us, frames: 0, acquire_us: 0 }
    }

    /// Counts a frame that took `acquire_us` to acquire. When the interval
    /// has passed at `now_us`, gives back the totals and starts counting
    /// afresh.
    pub fn render(&mut self, acquire_us: u64, now_us: u64) -> (report: Option<TextStats>)
        requires
            old(self).frames < u32::MAX,
            old(self).acquire_us + acquire_us <= u64::MAX,
        ensures
            ({
                let frames = (old(self).frames + 1) as u32;
                let total = (old(self).acquire_us + acquire_us) as u64;
                let elapsed = since(now_us, old(self).last_log_us);
                if elapsed >= old(self).interval_us {
                    report == Some(TextStats { frames, acquire_us: total, elapsed_us: elapsed })
                        && *final(self) == (TextStatsRenderer { interval_us: old(self).interval_us, last_log_us: now_us, frames: 0, acquire_us: 0 })
                } else {
                    report is None
                        && *final(self) == (TextStatsRenderer { frames, acquire_us: total, ..*old(self) })
                }
            }),
    {
        self.frames = self.frames + 1;
        self.acquire_us = self.acquire_us + acquire_us;
        let elapsed = now_us.saturating_sub(self.last_log_us);
        if elapsed >= self.interval_us {
            let report = TextStats { frames: self.frames, acquire_us: self.acquire_us, elapsed_us: elapsed };
            self.last_log_us = now_us;
            self.frames = 0;
            self.acquire_us = 0;
            return Some(report);
        }
        None
    }
}

/// What the checkerboard state does for a new frame.
#[derive(Clone, Copy, Debug, PartialEq, Eq, Structural)]
pub enum CheckerboardStep {
    /// There is no frame: the detection is cleared.
    Clear,
    /// The frame was already seen, or the interval has not passed: the
    /// detection is kept.
    Keep,
    /// The detector runs on the frame.
    Run,
}

/// When the checkerboard detector runs: once a frame, at most once an
/// interval.
#[derive(Clone, Copy, Debug, PartialEq, Eq, Structural)]
pub struct CheckerboardDetectionGate {
    pub interval_us: u64,
    pub last_frame_id: Option<u64>,
    pub last_run_us: Option<u64>,
}

impl CheckerboardDetectionGate {
    pub fn new(interval_us: u64) -> (g: Self)
        ensures g == (CheckerboardDetectionGate { interval_us, last_frame_id: None, last_run_us: None }),
    {
        CheckerboardDetectionGate { interval_us, last_frame_id: None, last_run_us: None }
    }

    /// Decides what to do with the frame `frame_id` (if any) at `now_us`;
    /// when the detector is to run, notes the frame and the time.
    pub fn update(&mut self, frame_id: Option<u64>, now_us: u64) -> (step: CheckerboardStep)
        ensures
            match frame_id {
                None => step == CheckerboardStep::Clear && *final(self) == *old(self),
                Some(id) => if old(self).last_frame_id == Some(id)
                    || (old(self).last_run_us matches Some(last) && since(now_us, last) < old(self).interval_us) {
                    step == CheckerboardStep::Keep && *final(self) == *old(self)
                } else {
                    step == CheckerboardStep::Run && *final(self) == (CheckerboardDetectionGate {
                        last_frame_id: Some(id),
                        last_run_us: Some(now_us),
                        ..*old(self)
                    })
                },
            },
    {
        let id = match frame_id {
            Some(id) => id,
            None => { return CheckerboardStep::Clear; },
        };
        if self.last_frame_id == Some(id) {
            return CheckerboardStep::Keep;
        }
        let too_soon = match self.last_run_us {
            Some(last) => now_us.saturating_sub(last) < self.interval_us,
            None => false,
        };
        if too_soon {
            return CheckerboardStep::Keep;
        }
        self.last_frame_id = Some(id);
        self.last_run_us = Some(now_us);
        CheckerboardStep::Run
    }
}

/// The left button of the virtual pointer: a press or release is sent only
/// when it changes the button's state.
#[derive(Clone, Copy, Debug, PartialEq, Eq, Structural)]
pub struct LeftButton {
    pub down: bool,
}

impl LeftButton {
    pub fn new() -> (b: Self)
        ensures !b.down,
    {
        LeftButton { down: false }
    }

    /// The key value to send to put the button in state `down` (1 pressed,
    /// 0 released), or nothing when it is already in that state.
    pub fn change(&self, down: bool) -> (v: Option<i32>)
        ensures
            self.down == down ==> v is None,
            self.down != down ==> v == Some(if down { 1i32 } else { 0i32 }),
    {
        if self.down == down {
            return None;
        }
        Some(if down { 1 } else { 0 })
    }

    /// Notes that the button is now in state `down`.
    pub fn set(&mut self, down: bool)
        ensures final(self).down == down,
    {
        self.down = down;
    }
}

/// Watches the pinch gesture from frame to frame to ask for a dump of the
/// landmark model's debug images when it changes.
#[derive(Clone, Copy, Debug, PartialEq, Eq, Structural)]
pub struct PinchDumpGate {
    /// Whether the hand pinched on the last frame with landmarks, or nothing
    /// when the last frame had none.
    pub last_pinch: Option<bool>,
}

impl PinchDumpGate {
    pub fn new() -> (g: Self)
        ensures g.last_pinch is None,
    {
        PinchDumpGate { last_pinch: None }
    }

    /// Takes whether this frame's hand pinches (nothing when the frame has no
    /// landmarks) and says whether to dump: only when the previous frame had
    /// landmarks too and its pinch state differs.
    pub fn update(&mut self, pinch: Option<bool>) -> (dump: bool)
        ensures
            final(self).last_pinch == pinch,
            dump == (pinch matches Some(p) && old(self).last_pinch matches Some(q) && p != q),
    {
        let dump = match (pinch, self.last_pinch) {
            (Some(p), Some(q)) => p != q,
            _ => false,
        };
        self.last_pinch = pinch;
        dump
    }
}

} // verus!
