//! Tracking the hand's region of interest from frame to frame among
//! bright-blob candidates. The candidates' scores are real numbers worked out
//! by the caller from the integer measures here; the tracker's state changes
//! are decided here.

use vstd::prelude::*;
use crate::blobs::RoiCandidate;
use crate::exposure::{area_clipped, clipped_at, clipped_count, row_clipped};
use crate::frame::{Frame, FrameError, PixelFormat};
use crate::geometry::{clamp_rect, max_u32, min_u32, sat_add, sat_sub, spec_clamp_rect, Rect, Size};

verus! {

/// Settings of the hand tracker.
#[derive(Clone, Copy, Debug, PartialEq, Eq, Structural)]
pub struct HandRoiTrackerConfig {
    /// Least score a candidate needs to start tracking.
    pub min_motion_pixels: u32,
    /// Frames without candidates after which the last region is dropped.
    pub max_lost_frames: u32,
}

impl Default for HandRoiTrackerConfig {
    fn default() -> (c: Self)
        ensures c.min_motion_pixels == 8, c.max_lost_frames == 10,
    {
        HandRoiTrackerConfig { min_motion_pixels: 8, max_lost_frames: 10 }
    }
}

/// The candidate the caller scored highest, and whether its score is below
/// the configured minimum.
#[derive(Clone, Copy, Debug, PartialEq, Eq, Structural)]
pub struct ScoredCandidate {
    pub candidate: RoiCandidate,
    pub below_min_score: bool,
}

/// Follows the hand's region: keeps the last region for a while when the
/// candidates disappear, and starts only on a candidate that scores enough.
#[derive(Clone, Copy, Debug, PartialEq, Eq, Structural)]
pub struct HandRoiTracker {
    pub config: HandRoiTrackerConfig,
    pub previous: Option<Rect>,
    pub lost_frames: u32,
}

/// The tracker after a frame without candidates.
pub open spec fn spec_mark_lost(t: HandRoiTracker) -> HandRoiTracker {
    let lost = sat_add(t.lost_frames, 1);
    HandRoiTracker {
        lost_frames: lost,
        previous: if lost > t.config.max_lost_frames { None } else { t.previous },
        ..t
    }
}

impl HandRoiTracker {
    pub fn new(config: HandRoiTrackerConfig) -> (t: Self)
        ensures t == (HandRoiTracker { config, previous: None, lost_frames: 0 }),
    {
        HandRoiTracker { config, previous: None, lost_frames: 0 }
    }

    /// Counts a frame without candidates; the last region is dropped once
    /// more frames than allowed have passed.
    pub fn mark_lost(&mut self)
        ensures *final(self) == spec_mark_lost(*old(self)),
    {
        self.lost_frames = self.lost_frames.saturating_add(1);
        if self.lost_frames > self.config.max_lost_frames {
            self.previous = None;
        }
    }

    /// Takes the frame's best candidate (none when there were no
    /// candidates) and gives the region tracked.
    pub fn process(&mut self, best: Option<ScoredCandidate>) -> (r: Option<Rect>)
        ensures
            match best {
                None => *final(self) == spec_mark_lost(*old(self)) && r == final(self).previous,
                Some(s) => if old(self).previous is None && s.below_min_score {
                    r is None && *final(self) == *old(self)
                } else {
                    r == Some(s.candidate.rect) && *final(self) == (HandRoiTracker {
                        previous: Some(s.candidate.rect),
                        lost_frames: 0,
                        ..*old(self)
                    })
                },
            },
    {
        let s = match best {
            None => {
                self.mark_lost();
                return self.previous;
            },
            Some(s) => s,
        };
        if self.previous.is_none() && s.below_min_score {
            return None;
        }
        self.previous = Some(s.candidate.rect);
        self.lost_frames = 0;
        Some(s.candidate.rect)
    }
}

/// The tracker after `n` frames in a row without candidates.
pub open spec fn lost_for(t: HandRoiTracker, n: nat) -> HandRoiTracker
    decreases n,
{
    if n == 0 { t } else { spec_mark_lost(lost_for(t, (n - 1) as nat)) }
}

/// A tracker that has just taken a region (no frame lost yet) keeps it
/// through as many frames without candidates as allowed, and drops it on
/// every frame after those; the count of lost frames stops at `u32::MAX`, so
/// with that many frames allowed the region is never dropped. The `n`-th call
/// of `process` without a candidate gives `lost_for(t, n).previous`.
pub proof fn lemma_region_dropped_after_max_lost(t: HandRoiTracker, n: nat)
    requires
        t.lost_frames == 0,
    ensures
        lost_for(t, n).lost_frames == if n > u32::MAX { u32::MAX as nat } else { n },
        lost_for(t, n).config == t.config,
        lost_for(t, n).previous == if n > t.config.max_lost_frames && t.config.max_lost_frames < u32::MAX {
            None
        } else {
            t.previous
        },
    decreases n,
{
    if n > 0 {
        lemma_region_dropped_after_max_lost(t, (n - 1) as nat);
    }
}

/// Pixels of `r`, cut to a motion mask of size `size` with rows every
/// `stride` bytes, that show motion (are not zero).
pub open spec fn spec_motion_overlap(data: Seq<u8>, stride: int, size: Size, r: Rect) -> nat {
    clipped_count(data, stride, 1, spec_clamp_rect(r, size))
}

/// The rows of `r` in the mask can be read.
pub open spec fn overlap_rows_readable(data: Seq<u8>, stride: int, size: Size, r: Rect) -> bool {
    let c = spec_clamp_rect(r, size);
    c.size.height == 0 || (c.y + c.size.height - 1) * stride + size.width <= data.len()
}

/// Pixels of `rect` that show motion in the Gray8 mask `motion`; zero without
/// a mask or with a mask of another format.
pub fn motion_overlap(rect: Rect, motion: Option<&Frame>) -> (r: Result<u64, FrameError>)
    ensures
        match motion {
            None => r == Ok::<u64, FrameError>(0),
            Some(m) => if m.format != PixelFormat::Gray8 {
                r == Ok::<u64, FrameError>(0)
            } else if !overlap_rows_readable(m.data@, m.stride as int, m.meta.size, rect) {
                r == Err::<u64, FrameError>(FrameError::DataTooShort)
            } else {
                r == Ok::<u64, FrameError>(spec_motion_overlap(m.data@, m.stride as int, m.meta.size, rect) as u64)
            },
        },
{
    let m = match motion {
        None => { return Ok(0); },
        Some(m) => m,
    };
    if m.format != PixelFormat::Gray8 {
        return Ok(0);
    }
    let size = m.meta.size;
    let c = clamp_rect(rect, size);
    let data_len = m.data.len();
    if c.size.height > 0 {
        let last = (c.y + c.size.height - 1) as usize;
        let end = match last.checked_mul(m.stride) {
            None => { return Err(FrameError::DataTooShort); },
            Some(a) => match a.checked_add(size.width as usize) {
                None => { return Err(FrameError::DataTooShort); },
                Some(e) => e,
            },
        };
        if end > data_len {
            return Err(FrameError::DataTooShort);
        }
    }
    let ghost data = m.data@;
    let ghost stride = m.stride as int;
    let mut count: u64 = 0;
    let mut k: u32 = 0;
    proof {
        assert(c.size.width * c.size.height <= u32::MAX * u32::MAX) by (nonlinear_arith)
            requires c.size.width <= u32::MAX, c.size.height <= u32::MAX;
    }
    while k < c.size.height
        invariant
            data == m.data@,
            stride == m.stride as int,
            data_len == data.len(),
            c == spec_clamp_rect(rect, size),
            c.x + c.size.width <= size.width,
            c.size.height > 0 ==> (c.y + c.size.height - 1) * stride + size.width <= data.len(),
            k <= c.size.height,
            count == area_clipped(data, stride, 1, c, k as nat),
            count <= k * c.size.width,
            c.size.width * c.size.height <= u32::MAX * u32::MAX,
        decreases c.size.height - k,
    {
        let y = c.y + k;
        proof {
            assert(y * stride <= (c.y + c.size.height - 1) * stride) by (nonlinear_arith)
                requires 0 <= y <= c.y + c.size.height - 1, 0 <= stride;
            assert(k * c.size.width + c.size.width <= c.size.width * c.size.height) by (nonlinear_arith)
                requires k < c.size.height, 0 <= c.size.width;
        }
        let row_start = y as usize * m.stride;
        let mut x: u32 = 0;
        let ghost before = count;
        while x < c.size.width
            invariant
                data == m.data@,
                stride == m.stride as int,
                data_len == data.len(),
                c.x + c.size.width <= size.width,
                row_start == y * stride,
                row_start + size.width <= data.len(),
                y == c.y + k,
                x <= c.size.width,
                count == before + row_clipped(data, stride, 1, y as int, c.x as int, x as nat),
                before <= k * c.size.width,
                k * c.size.width + c.size.width <= c.size.width * c.size.height,
                c.size.width * c.size.height <= u32::MAX * u32::MAX,
                count <= before + x,
            decreases c.size.width - x,
        {
            let idx = row_start + (c.x + x) as usize;
            if m.data[idx] > 0 {
                count = count + 1;
            }
            x = x + 1;
        }
        proof {
            assert((k + 1) * c.size.width == k * c.size.width + c.size.width) by (nonlinear_arith);
        }
        k = k + 1;
    }
    Ok(count)
}

/// Overlap and union of two rectangles' areas, each product and sum
/// saturated at `u32::MAX`, as the intersection-over-union score uses them.
pub open spec fn spec_rect_overlap(a: Rect, b: Rect) -> (u32, u32) {
    let ix0 = max_u32(a.x, b.x);
    let iy0 = max_u32(a.y, b.y);
    let ix1 = min_u32(sat_add(a.x, a.size.width), sat_add(b.x, b.size.width));
    let iy1 = min_u32(sat_add(a.y, a.size.height), sat_add(b.y, b.size.height));
    let intersection = sat_mul(sat_sub(ix1, ix0), sat_sub(iy1, iy0));
    let a_area = sat_mul(a.size.width, a.size.height);
    let b_area = sat_mul(b.size.width, b.size.height);
    (intersection, sat_sub(sat_add(a_area, b_area), intersection))
}

/// `a * b`, saturated at `u32::MAX`.
pub open spec fn sat_mul(a: u32, b: u32) -> u32 {
    if a * b > u32::MAX { u32::MAX } else { (a * b) as u32 }
}

fn saturating_mul(a: u32, b: u32) -> (r: u32)
    ensures r == sat_mul(a, b),
{
    match a.checked_mul(b) {
        Some(v) => v,
        None => u32::MAX,
    }
}

/// The intersection and union areas of two rectangles.
pub fn rect_overlap(a: Rect, b: Rect) -> (r: (u32, u32))
    ensures r == spec_rect_overlap(a, b),
{
    let ax1 = a.x.saturating_add(a.size.width);
    let ay1 = a.y.saturating_add(a.size.height);
    let bx1 = b.x.saturating_add(b.size.width);
    let by1 = b.y.saturating_add(b.size.height);
    let ix0 = if a.x >= b.x { a.x } else { b.x };
    let iy0 = if a.y >= b.y { a.y } else { b.y };
    let ix1 = if ax1 <= bx1 { ax1 } else { bx1 };
    let iy1 = if ay1 <= by1 { ay1 } else { by1 };
    let intersection = saturating_mul(ix1.saturating_sub(ix0), iy1.saturating_sub(iy0));
    let a_area = saturating_mul(a.size.width, a.size.height);
    let b_area = saturating_mul(b.size.width, b.size.height);
    (intersection, a_area.saturating_add(b_area).saturating_sub(intersection))
}

/// Turns hand landmarks into a region bounding them. The landmarks are real
/// numbers; the region is worked out by the caller.
#[derive(Clone, Copy, Debug, PartialEq, Eq, Structural)]
pub struct LandmarkRoiProcessor {}

impl LandmarkRoiProcessor {
    pub fn new() -> (p: Self)
        ensures p == (LandmarkRoiProcessor {}),
    {
        LandmarkRoiProcessor {}
    }
}

/// Turns hand landmarks into a region to track them in the next frame. The
/// landmarks are real numbers; the region is worked out by the caller.
#[derive(Clone, Copy, Debug, PartialEq, Eq, Structural)]
pub struct LandmarkTrackingRoiProcessor {}

impl LandmarkTrackingRoiProcessor {
    pub fn new() -> (p: Self)
        ensures p == (LandmarkTrackingRoiProcessor {}),
    {
        LandmarkTrackingRoiProcessor {}
    }
}

} // verus!
