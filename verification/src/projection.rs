//! Projecting a frame through a lookup map into a Gray8 frame of another
//! size, and reading single pixels as gray or BGRA values.

use vstd::prelude::*;
use crate::frame::{spec_row_bytes, Frame, FrameError, FrameMeta, PixelFormat};
use crate::geometry::Size;

verus! {

/// For each output pixel, row by row, the input pixel `(x, y)` it shows, if
/// any.
pub struct FrameProjectionMap {
    pub input_size: Size,
    pub output_size: Size,
    pub sources: Vec<Option<(u32, u32)>>,
}

impl FrameProjectionMap {
    /// One entry an output pixel.
    pub open spec fn wf(&self) -> bool {
        self.sources@.len() == self.output_size.width * self.output_size.height
    }

    /// The input pixel that output pixel `(x, y)` shows.
    pub fn get(&self, x: u32, y: u32) -> (r: Option<(u32, u32)>)
        requires
            self.wf(),
            x < self.output_size.width,
            y < self.output_size.height,
        ensures
            r == self.sources@[y * self.output_size.width + x],
    {
        let n = self.sources.len();
        proof {
            assert(y * self.output_size.width + x < self.output_size.width * self.output_size.height) by (nonlinear_arith)
                requires x < self.output_size.width, y < self.output_size.height;
            assert(y * self.output_size.width <= y * self.output_size.width + x);
        }
        self.sources[y as usize * self.output_size.width as usize + x as usize]
    }
}

/// Gray value of pixel `x` of a row: the byte for Gray8, the mean of blue,
/// green and red (rounded down) for BGRA8.
pub open spec fn spec_gray_at(row: Seq<u8>, format: PixelFormat, x: int) -> Result<u8, FrameError> {
    match format {
        PixelFormat::Gray8 => if x < row.len() { Ok(row[x]) } else { Err(FrameError::PixelOutsideRow) },
        PixelFormat::Bgra8 => if x * 4 + 2 < row.len() {
            Ok(((row[x * 4] + row[x * 4 + 1] + row[x * 4 + 2]) / 3) as u8)
        } else {
            Err(FrameError::PixelOutsideRow)
        },
        PixelFormat::Yuyv422 => Err(FrameError::UnsupportedFormat),
    }
}

/// The gray value of pixel `x` of `row`.
pub fn gray_at(row: &[u8], format: PixelFormat, x: usize) -> (r: Result<u8, FrameError>)
    requires x * 4 + 3 <= usize::MAX,
    ensures r == spec_gray_at(row@, format, x as int),
{
    match format {
        PixelFormat::Gray8 => {
            if x < row.len() { Ok(row[x]) } else { Err(FrameError::PixelOutsideRow) }
        },
        PixelFormat::Bgra8 => {
            let offset = x * 4;
            if offset + 2 < row.len() {
                Ok(((row[offset] as u16 + row[offset + 1] as u16 + row[offset + 2] as u16) / 3) as u8)
            } else {
                Err(FrameError::PixelOutsideRow)
            }
        },
        PixelFormat::Yuyv422 => Err(FrameError::UnsupportedFormat),
    }
}

/// BGRA value of pixel `x` of a row: the four bytes for BGRA8, the gray byte
/// three times and an opaque alpha for Gray8.
pub open spec fn spec_bgra_at(row: Seq<u8>, format: PixelFormat, x: int) -> Result<Seq<u8>, FrameError> {
    match format {
        PixelFormat::Bgra8 => if x * 4 + 3 < row.len() {
            Ok(row.subrange(x * 4, x * 4 + 4))
        } else {
            Err(FrameError::PixelOutsideRow)
        },
        PixelFormat::Gray8 => if x < row.len() {
            Ok(seq![row[x], row[x], row[x], 255u8])
        } else {
            Err(FrameError::PixelOutsideRow)
        },
        PixelFormat::Yuyv422 => Err(FrameError::UnsupportedFormat),
    }
}

/// The BGRA value of pixel `x` of `row`.
pub fn bgra_at(row: &[u8], format: PixelFormat, x: usize) -> (r: Result<[u8; 4], FrameError>)
    requires x * 4 + 3 <= usize::MAX,
    ensures
        match spec_bgra_at(row@, format, x as int) {
            Ok(p) => r matches Ok(v) && v@ == p,
            Err(e) => r == Err::<[u8; 4], FrameError>(e),
        },
{
    match format {
        PixelFormat::Bgra8 => {
            let offset = x * 4;
            if offset + 3 < row.len() {
                let v = [row[offset], row[offset + 1], row[offset + 2], row[offset + 3]];
                assert(v@ =~= row@.subrange(x * 4, x * 4 + 4));
                Ok(v)
            } else {
                Err(FrameError::PixelOutsideRow)
            }
        },
        PixelFormat::Gray8 => {
            if x < row.len() {
                let g = row[x];
                let v = [g, g, g, 255u8];
                assert(v@ =~= seq![row@[x as int], row@[x as int], row@[x as int], 255u8]);
                Ok(v)
            } else {
                Err(FrameError::PixelOutsideRow)
            }
        },
        PixelFormat::Yuyv422 => Err(FrameError::UnsupportedFormat),
    }
}

/// What an output pixel shows: zero when it has no source, else the source
/// pixel's gray value, or why it cannot be read.
pub open spec fn pixel_result(frame: Frame, src: Option<(u32, u32)>) -> Result<u8, FrameError> {
    match src {
        None => Ok(0u8),
        Some((sx, sy)) => {
            let rb = spec_row_bytes(frame.format, frame.meta.size.width);
            let start = sy * frame.stride;
            if sy >= frame.meta.size.height {
                Err(FrameError::RowOutsideView)
            } else if start + rb > frame.data@.len() {
                Err(FrameError::DataTooShort)
            } else {
                spec_gray_at(frame.data@.subrange(start, start + rb), frame.format, sx as int)
            }
        },
    }
}

/// What projecting `frame` through `map` gives: the first error in row
/// order, or the gray value of every output pixel.
pub open spec fn spec_project(frame: Frame, map: FrameProjectionMap) -> Result<Seq<u8>, FrameError> {
    let srcs = map.sources@;
    if exists|i: int| 0 <= i < srcs.len() && #[trigger] pixel_result(frame, srcs[i]) is Err {
        let i = choose|i: int| 0 <= i < srcs.len() && #[trigger] pixel_result(frame, srcs[i]) is Err
            && forall|j: int| 0 <= j < i ==> #[trigger] pixel_result(frame, srcs[j]) is Ok;
        Err(pixel_result(frame, srcs[i])->Err_0)
    } else {
        Ok(Seq::new(srcs.len(), |i: int| pixel_result(frame, srcs[i])->Ok_0))
    }
}

fn pixel(frame: &Frame, src: Option<(u32, u32)>) -> (r: Result<u8, FrameError>)
    requires
        frame.meta.size.width * 4 + 3 <= usize::MAX,
    ensures r == pixel_result(*frame, src),
{
    let (sx, sy) = match src {
        None => { return Ok(0); },
        Some(p) => p,
    };
    if sy >= frame.meta.size.height {
        return Err(FrameError::RowOutsideView);
    }
    let w = frame.meta.size.width as usize;
    let rb: usize = match frame.format {
        PixelFormat::Gray8 => w,
        PixelFormat::Bgra8 => w * 4,
        PixelFormat::Yuyv422 => w * 2,
    };
    let data_len = frame.data.len();
    let start = match (sy as usize).checked_mul(frame.stride) {
        None => { return Err(FrameError::DataTooShort); },
        Some(s) => s,
    };
    if start > data_len || rb > data_len - start {
        return Err(FrameError::DataTooShort);
    }
    let row = vstd::slice::slice_subrange(frame.data.as_slice(), start, start + rb);
    if sx as usize > w {
        return match frame.format {
            PixelFormat::Yuyv422 => Err(FrameError::UnsupportedFormat),
            _ => Err(FrameError::PixelOutsideRow),
        };
    }
    gray_at(row, frame.format, sx as usize)
}

/// Projects `frame` through `map` into a Gray8 frame of the map's output
/// size: output pixels without a source are zero.
pub fn project_frame(frame: &Frame, map: &FrameProjectionMap) -> (r: Result<Frame, FrameError>)
    requires
        map.wf(),
        map.output_size.width * map.output_size.height <= usize::MAX,
        frame.meta.size.width * 4 + 3 <= usize::MAX,
    ensures
        match spec_project(*frame, *map) {
            Ok(d) => r matches Ok(out) && out.data@ == d && out.format == PixelFormat::Gray8
                && out.stride == map.output_size.width
                && out.meta == (FrameMeta { size: map.output_size, ..frame.meta }),
            Err(e) => r matches Err(e2) && e2 == e,
        },
{
    let n = map.sources.len();
    let ghost srcs = map.sources@;
    let mut data: Vec<u8> = Vec::new();
    let mut i: usize = 0;
    while i < n
        invariant
            n == srcs.len(),
            srcs == map.sources@,
            frame.meta.size.width * 4 + 3 <= usize::MAX,
            i <= n,
            data@.len() == i,
            forall|j: int| 0 <= j < i ==> #[trigger] pixel_result(*frame, srcs[j]) is Ok
                && data@[j] == pixel_result(*frame, srcs[j])->Ok_0,
        decreases n - i,
    {
        match pixel(frame, map.sources[i]) {
            Ok(v) => { data.push(v); },
            Err(e) => {
                proof {
                    assert(pixel_result(*frame, srcs[i as int]) is Err);
                }
                return Err(e);
            },
        }
        i = i + 1;
    }
    proof {
        assert(data@ =~= Seq::new(srcs.len(), |j: int| pixel_result(*frame, srcs[j])->Ok_0));
    }
    Ok(Frame {
        meta: FrameMeta { size: map.output_size, ..frame.meta },
        format: PixelFormat::Gray8,
        stride: map.output_size.width as usize,
        data,
    })
}

/// Why a projected frame cannot be made.
#[derive(Clone, Copy, Debug, PartialEq, Eq, Structural)]
pub enum ProjectionSizeError {
    /// The frame is not of the size the map reads.
    InputSizeMismatch,
    /// The map's output is not of the source's announced size.
    OutputSizeMismatch,
}

/// Checks that a frame fits the map and the map gives the announced size.
pub fn check_projection_sizes(frame_size: Size, map: &FrameProjectionMap, announced: Size) -> (r: Result<(), ProjectionSizeError>)
    ensures
        frame_size != map.input_size ==> r == Err::<(), ProjectionSizeError>(ProjectionSizeError::InputSizeMismatch),
        frame_size == map.input_size && map.output_size != announced
            ==> r == Err::<(), ProjectionSizeError>(ProjectionSizeError::OutputSizeMismatch),
        frame_size == map.input_size && map.output_size == announced ==> r is Ok,
{
    if frame_size != map.input_size {
        return Err(ProjectionSizeError::InputSizeMismatch);
    }
    if map.output_size != announced {
        return Err(ProjectionSizeError::OutputSizeMismatch);
    }
    Ok(())
}

} // verus!
