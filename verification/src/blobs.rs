//! The logic of the bright-blob ROI detector: the frame is packed into a
//! tight Gray8 image for thresholding and connected-component labelling,
//! and the components' statistics become padded, filtered candidate regions.

use vstd::prelude::*;
use crate::bitmap::{bitmap_rows, push_rows};
use crate::frame::{rows_fit, rows_in_data, Frame, FrameError, PixelFormat};
use crate::geometry::{padded_rect, rect, spec_padded_rect, Rect, Size};

verus! {

/// Settings of the blob detector.
#[derive(Clone, Copy, Debug, PartialEq, Eq, Structural)]
pub struct OpenCvRoiConfig {
    /// Pixels above this value are foreground.
    pub threshold: u8,
    /// Components with fewer pixels are dropped.
    pub min_area: i32,
    /// Components with more pixels are dropped, when set.
    pub max_area: Option<i32>,
    /// Pixels added on every side of a component's bounding box.
    pub padding: u32,
}

impl Default for OpenCvRoiConfig {
    fn default() -> (c: Self)
        ensures
            c.threshold == 24,
            c.min_area == 128,
            c.max_area is None,
            c.padding == 16,
    {
        OpenCvRoiConfig { threshold: 24, min_area: 128, max_area: None, padding: 16 }
    }
}

/// Statistics of one connected component: bounding box and pixel count.
#[derive(Clone, Copy, Debug, PartialEq, Eq, Structural)]
pub struct ComponentStats {
    pub left: i32,
    pub top: i32,
    pub width: i32,
    pub height: i32,
    pub area: i32,
}

/// A candidate region: a component's padded box and its pixel count.
#[derive(Clone, Copy, Debug, PartialEq, Eq, Structural)]
pub struct RoiCandidate {
    pub rect: Rect,
    pub area: u32,
}

/// A component's padded box with its signed pixel count.
#[derive(Clone, Copy, Debug, PartialEq, Eq, Structural)]
pub struct BlobCandidate {
    pub rect: Rect,
    pub area: i32,
}

/// `v`, or zero when negative.
pub open spec fn non_negative(v: i32) -> u32 {
    if v >= 0 { v as u32 } else { 0 }
}

/// The bit pattern of an `i32` read as `u32`, as `as u32` converts.
pub open spec fn as_u32(v: i32) -> u32 {
    if v >= 0 { v as u32 } else { (v + 4294967296) as u32 }
}

/// The candidate of a component: its box, negative values taken as zero,
/// padded and cut to `bounds`.
pub open spec fn spec_candidate(s: ComponentStats, padding: u32, bounds: Size) -> BlobCandidate {
    BlobCandidate {
        rect: spec_padded_rect(rect(non_negative(s.left), non_negative(s.top), non_negative(s.width), non_negative(s.height)), padding, bounds),
        area: s.area,
    }
}

/// The candidate's pixel count lies within the configured range and its
/// region is not empty.
pub open spec fn spec_is_plausible(c: BlobCandidate, config: OpenCvRoiConfig) -> bool {
    &&& c.area >= config.min_area
    &&& (config.max_area matches Some(m) ==> c.area <= m)
    &&& c.rect.size.width > 0
    &&& c.rect.size.height > 0
}

fn non_negative_u32(v: i32) -> (r: u32)
    ensures r == non_negative(v),
{
    if v >= 0 { v as u32 } else { 0 }
}

impl BlobCandidate {
    pub fn is_plausible(self, config: OpenCvRoiConfig) -> (b: bool)
        ensures b == spec_is_plausible(self, config),
    {
        let below_max = match config.max_area {
            Some(m) => self.area <= m,
            None => true,
        };
        self.area >= config.min_area && below_max && self.rect.size.width > 0 && self.rect.size.height > 0
    }
}

/// The candidates of the components after the background (the first entry):
/// the plausible ones, in order, with their pixel counts as `u32`.
pub open spec fn spec_candidates(stats: Seq<ComponentStats>, config: OpenCvRoiConfig, bounds: Size) -> Seq<RoiCandidate>
    decreases stats.len(),
{
    if stats.len() <= 1 {
        Seq::empty()
    } else {
        let c = spec_candidate(stats.last(), config.padding, bounds);
        let rest = spec_candidates(stats.drop_last(), config, bounds);
        if spec_is_plausible(c, config) {
            rest.push(RoiCandidate { rect: c.rect, area: as_u32(c.area) })
        } else {
            rest
        }
    }
}

/// Of candidates, one with the largest pixel count; of several, the last.
pub open spec fn is_best_candidate(cands: Seq<RoiCandidate>, r: Option<RoiCandidate>) -> bool {
    match r {
        None => cands.len() == 0,
        Some(c) => exists|i: int| #![trigger cands[i]] 0 <= i < cands.len() && cands[i] == c
            && (forall|j: int| 0 <= j < cands.len() ==> #[trigger] cands[j].area <= c.area)
            && (forall|j: int| i < j < cands.len() ==> #[trigger] cands[j].area < c.area),
    }
}

/// Why a frame cannot be searched for blobs.
#[derive(Clone, Copy, Debug, PartialEq, Eq, Structural)]
pub enum BlobError {
    /// The input is not Gray8.
    NotGray8,
    /// The input has no pixels.
    Empty,
    /// The frame cannot be read.
    Frame(FrameError),
}

/// Finds bright blobs in Gray8 frames. The thresholding and labelling are
/// done outside; this keeps the packed image they read.
pub struct OpenCvRoiDetector {
    config: OpenCvRoiConfig,
    packed: Vec<u8>,
}

/// What `OpenCvRoiDetector::pack` gives for `frame`: the error, or the
/// frame's rows packed with no gap.
pub open spec fn spec_pack(frame: Frame) -> Result<Seq<u8>, BlobError> {
    let w = frame.meta.size.width as int;
    let h = frame.meta.size.height as int;
    if frame.format != PixelFormat::Gray8 {
        Err(BlobError::NotGray8)
    } else if w == 0 || h == 0 {
        Err(BlobError::Empty)
    } else if w * h > usize::MAX {
        Err(BlobError::Frame(FrameError::SizeOverflow))
    } else if !rows_in_data(frame.data@, frame.meta.size, frame.stride as int, w) {
        Err(BlobError::Frame(FrameError::DataTooShort))
    } else {
        Ok(bitmap_rows(frame.data@, frame.stride as int, w, h, w))
    }
}

impl OpenCvRoiDetector {
    pub closed spec fn config(&self) -> OpenCvRoiConfig {
        self.config
    }

    pub closed spec fn packed(&self) -> Seq<u8> {
        self.packed@
    }

    pub fn new(config: OpenCvRoiConfig) -> (d: Self)
        ensures d.config() == config, d.packed() == Seq::<u8>::empty(),
    {
        OpenCvRoiDetector { config, packed: Vec::new() }
    }

    pub fn get_config(&self) -> (c: OpenCvRoiConfig)
        ensures c == self.config(),
    {
        self.config
    }

    /// Checks the input and packs its rows with no gap, ready for
    /// thresholding; gives the packed pixels.
    pub fn pack(&mut self, frame: &Frame) -> (r: Result<&[u8], BlobError>)
        ensures
            final(self).config() == old(self).config(),
            match spec_pack(*frame) {
                Ok(p) => r matches Ok(out) && out@ == p && final(self).packed() == p,
                Err(e) => r == Err::<&[u8], BlobError>(e),
            },
    {
        if frame.format != PixelFormat::Gray8 {
            return Err(BlobError::NotGray8);
        }
        let width = frame.meta.size.width as usize;
        let height = frame.meta.size.height as usize;
        if width == 0 || height == 0 {
            return Err(BlobError::Empty);
        }
        match width.checked_mul(height) {
            None => { return Err(BlobError::Frame(FrameError::SizeOverflow)); },
            Some(_) => {},
        }
        if !rows_fit(frame.data.as_slice(), frame.meta.size, frame.stride, width) {
            return Err(BlobError::Frame(FrameError::DataTooShort));
        }
        self.packed.clear();
        let ghost empty = self.packed@;
        proof {
            assert(width * height == height * width) by (nonlinear_arith);
        }
        push_rows(&mut self.packed, frame.data.as_slice(), frame.stride, width, height, width);
        assert(empty + bitmap_rows(frame.data@, frame.stride as int, width as int, height as int, width as int)
            =~= bitmap_rows(frame.data@, frame.stride as int, width as int, height as int, width as int));
        Ok(self.packed.as_slice())
    }

    /// The candidate of one component.
    pub fn candidate(&self, stats: ComponentStats, bounds: Size) -> (c: BlobCandidate)
        ensures c == spec_candidate(stats, self.config().padding, bounds),
    {
        let r = Rect {
            x: non_negative_u32(stats.left),
            y: non_negative_u32(stats.top),
            size: Size { width: non_negative_u32(stats.width), height: non_negative_u32(stats.height) },
        };
        BlobCandidate { rect: padded_rect(r, self.config.padding, bounds), area: stats.area }
    }

    /// The plausible candidates of the labelled components; `stats` holds one
    /// entry a label, the background first.
    pub fn candidates(&self, stats: &[ComponentStats], bounds: Size) -> (out: Vec<RoiCandidate>)
        ensures out@ == spec_candidates(stats@, self.config(), bounds),
    {
        let mut out: Vec<RoiCandidate> = Vec::new();
        let mut label: usize = 1;
        if stats.len() == 0 {
            assert(stats@ =~= Seq::<ComponentStats>::empty());
            return out;
        }
        assert(stats@.take(1).len() == 1);
        while label < stats.len()
            invariant
                1 <= label <= stats@.len(),
                out@ == spec_candidates(stats@.take(label as int), self.config(), bounds),
            decreases stats@.len() - label,
        {
            let c = self.candidate(stats[label], bounds);
            proof {
                assert(stats@.take(label + 1).drop_last() =~= stats@.take(label as int));
                assert(stats@.take(label + 1).last() == stats@[label as int]);
            }
            if c.is_plausible(self.config) {
                let area: u32 = if c.area >= 0 { c.area as u32 } else { (c.area as i64 + 4294967296i64) as u32 };
                out.push(RoiCandidate { rect: c.rect, area });
            }
            label = label + 1;
        }
        assert(stats@.take(stats@.len() as int) =~= stats@);
        out
    }
}

/// The candidate with the largest pixel count; of several, the last, as
/// `Iterator::max_by_key` picks.
pub fn best_candidate(candidates: &[RoiCandidate]) -> (r: Option<RoiCandidate>)
    ensures is_best_candidate(candidates@, r),
{
    if candidates.len() == 0 {
        return None;
    }
    let mut best: usize = 0;
    let mut k: usize = 1;
    while k < candidates.len()
        invariant
            1 <= k <= candidates@.len(),
            best < k,
            forall|j: int| 0 <= j < k ==> #[trigger] candidates@[j].area <= candidates@[best as int].area,
            forall|j: int| best < j < k ==> #[trigger] candidates@[j].area < candidates@[best as int].area,
        decreases candidates@.len() - k,
    {
        if candidates[k].area >= candidates[best].area {
            best = k;
        }
        k = k + 1;
    }
    let c = candidates[best];
    assert(candidates@[best as int] == c);
    Some(c)
}

} // verus!
