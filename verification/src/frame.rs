//! Frames, their pixel layouts, and borrowed views of rectangular parts.

use vstd::prelude::*;
use crate::geometry::{Rect, Size};

verus! {

/// Pixel layout of frame data.
#[derive(Clone, Copy, Debug, PartialEq, Eq, Structural)]
pub enum PixelFormat {
    Gray8,
    Bgra8,
    Yuyv422,
}

/// Which camera sensor a frame came from.
#[derive(Clone, Copy, Debug, PartialEq, Eq, Structural)]
pub enum SensorKind {
    Rgb,
    Ir,
}

/// What is known of a frame besides its pixels. Times are microseconds on the
/// host's monotonic clock.
#[derive(Clone, Copy, Debug, PartialEq, Eq, Structural)]
pub struct FrameMeta {
    pub id: u64,
    pub sensor: SensorKind,
    pub size: Size,
    pub sequence: Option<u64>,
    pub camera_monotonic_us: Option<i64>,
    pub received_at_us: u64,
}

/// A frame that owns its pixel data; rows start every `stride` bytes.
#[derive(Debug)]
pub struct Frame {
    pub meta: FrameMeta,
    pub format: PixelFormat,
    pub stride: usize,
    pub data: Vec<u8>,
}

/// A borrowed rectangular part of a frame: `size` pixels, rows every `stride`
/// bytes of `data`, the first row at the start of `data`.
#[derive(Clone, Copy, Debug)]
pub struct FrameView<'a> {
    pub meta: FrameMeta,
    pub format: PixelFormat,
    pub size: Size,
    pub stride: usize,
    pub data: &'a [u8],
}

/// Why frame data could not be read as asked.
#[derive(Clone, Copy, Debug, PartialEq, Eq, Structural)]
pub enum FrameError {
    /// The rectangle asked for does not lie inside the view.
    RoiOutsideView,
    /// The row asked for is not below the view's height.
    RowOutsideView,
    /// The format has no whole number of bytes per pixel (YUYV422).
    NoBytesPerPixel,
    /// The format is not supported by the operation.
    UnsupportedFormat,
    /// A byte offset or length does not fit in `usize`.
    SizeOverflow,
    /// The data holds fewer bytes than the layout needs.
    DataTooShort,
    /// YUYV422 data needs an even width.
    OddYuyvWidth,
    /// Two frames that must have the same size do not.
    SizeMismatch,
    /// The pixel asked for lies past the end of its row.
    PixelOutsideRow,
}

/// The text that describes `e`.
pub open spec fn frame_error_message(e: FrameError) -> Seq<char> {
    match e {
        FrameError::RoiOutsideView => "ROI is outside view size"@,
        FrameError::RowOutsideView => "row is outside view height"@,
        FrameError::NoBytesPerPixel => "YUYV422 does not have an integer per-pixel byte width"@,
        FrameError::UnsupportedFormat => "pixel format is not supported here"@,
        FrameError::SizeOverflow => "frame byte size overflow"@,
        FrameError::DataTooShort => "frame data is shorter than its layout"@,
        FrameError::OddYuyvWidth => "YUYV422 requires an even frame width"@,
        FrameError::SizeMismatch => "frame sizes do not match"@,
        FrameError::PixelOutsideRow => "pixel is outside the row"@,
    }
}

impl FrameError {
    /// A description of the error.
    pub fn to_string(&self) -> (s: String)
        ensures s@ == frame_error_message(*self),
    {
        match self {
            FrameError::RoiOutsideView => String::from_str("ROI is outside view size"),
            FrameError::RowOutsideView => String::from_str("row is outside view height"),
            FrameError::NoBytesPerPixel => String::from_str("YUYV422 does not have an integer per-pixel byte width"),
            FrameError::UnsupportedFormat => String::from_str("pixel format is not supported here"),
            FrameError::SizeOverflow => String::from_str("frame byte size overflow"),
            FrameError::DataTooShort => String::from_str("frame data is shorter than its layout"),
            FrameError::OddYuyvWidth => String::from_str("YUYV422 requires an even frame width"),
            FrameError::SizeMismatch => String::from_str("frame sizes do not match"),
            FrameError::PixelOutsideRow => String::from_str("pixel is outside the row"),
        }
    }
}

/// Bytes per pixel of a format, where it is a whole number.
pub open spec fn spec_bytes_per_pixel(format: PixelFormat) -> Option<nat> {
    match format {
        PixelFormat::Gray8 => Some(1),
        PixelFormat::Bgra8 => Some(4),
        PixelFormat::Yuyv422 => None,
    }
}

/// Bytes per pixel of `format`: 1 for Gray8, 4 for BGRA8; YUYV422 has none.
pub fn bytes_per_pixel(format: PixelFormat) -> (r: Result<usize, FrameError>)
    ensures
        match spec_bytes_per_pixel(format) {
            Some(n) => r == Ok::<usize, FrameError>(n as usize),
            None => r == Err::<usize, FrameError>(FrameError::NoBytesPerPixel),
        },
{
    match format {
        PixelFormat::Gray8 => Ok(1),
        PixelFormat::Bgra8 => Ok(4),
        PixelFormat::Yuyv422 => Err(FrameError::NoBytesPerPixel),
    }
}

/// Bytes of one row of `width` pixels: YUYV422 takes two bytes a pixel.
pub open spec fn spec_row_bytes(format: PixelFormat, width: u32) -> int {
    match format {
        PixelFormat::Gray8 => width as int,
        PixelFormat::Bgra8 => width * 4,
        PixelFormat::Yuyv422 => width * 2,
    }
}

/// Bytes of one row of `width` pixels in `format`.
pub fn row_bytes(format: PixelFormat, width: u32) -> (r: Result<usize, FrameError>)
    ensures
        spec_row_bytes(format, width) <= usize::MAX ==> r == Ok::<usize, FrameError>(spec_row_bytes(format, width) as usize),
        spec_row_bytes(format, width) > usize::MAX ==> r == Err::<usize, FrameError>(FrameError::SizeOverflow),
{
    let w = width as usize;
    match format {
        PixelFormat::Gray8 => Ok(w),
        PixelFormat::Bgra8 => w.checked_mul(4).ok_or(FrameError::SizeOverflow),
        PixelFormat::Yuyv422 => w.checked_mul(2).ok_or(FrameError::SizeOverflow),
    }
}

/// Every row of a frame of size `size`, `row_len` bytes from the start of
/// each `stride`, lies inside the data.
pub open spec fn rows_in_data(data: Seq<u8>, size: Size, stride: int, row_len: int) -> bool {
    size.height == 0 || (size.height - 1) * stride + row_len <= data.len()
}

/// Whether every row of the layout lies inside `data`.
pub fn rows_fit(data: &[u8], size: Size, stride: usize, row_len: usize) -> (b: bool)
    ensures b == rows_in_data(data@, size, stride as int, row_len as int),
{
    if size.height == 0 {
        return true;
    }
    let hm1 = (size.height - 1) as usize;
    let data_len = data.len();
    match hm1.checked_mul(stride) {
        None => {
            assert((size.height - 1) * stride + row_len > data_len);
            false
        },
        Some(a) => match a.checked_add(row_len) {
            None => false,
            Some(end) => end <= data_len,
        },
    }
}

/// The rectangle lies inside a view of size `size`.
pub open spec fn rect_inside(r: Rect, size: Size) -> bool {
    &&& r.x <= size.width
    &&& r.y <= size.height
    &&& r.size.width <= size.width - r.x
    &&& r.size.height <= size.height - r.y
}

/// Byte offset of the rectangle's first pixel in a view with rows every
/// `stride` bytes and `bpp` bytes a pixel.
pub open spec fn roi_offset(r: Rect, stride: int, bpp: int) -> int {
    r.y * stride + r.x * bpp
}

/// Bytes a view needs to hold the rectangle: the offset of its first pixel,
/// plus all rows but the last, plus the last row.
pub open spec fn roi_required_len(r: Rect, stride: int, bpp: int) -> int {
    let last_row: int = if r.size.height == 0 { 0 } else { (r.size.height - 1) * stride };
    roi_offset(r, stride, bpp) + last_row + r.size.width * bpp
}

/// What `FrameView::roi` gives: the error, or the offset at which the new view's
/// data starts.
pub open spec fn spec_roi(v: FrameView, r: Rect) -> Result<int, FrameError> {
    let stride = v.stride as int;
    if !rect_inside(r, v.size) {
        Err(FrameError::RoiOutsideView)
    } else if spec_bytes_per_pixel(v.format) is None {
        Err(FrameError::NoBytesPerPixel)
    } else {
        let bpp = spec_bytes_per_pixel(v.format).unwrap() as int;
        let last_row: int = if r.size.height == 0 { 0 } else { (r.size.height - 1) * stride };
        if r.y * stride > usize::MAX || r.x * bpp > usize::MAX || roi_offset(r, stride, bpp) > usize::MAX {
            Err(FrameError::SizeOverflow)
        } else if last_row > usize::MAX || r.size.width * bpp > usize::MAX {
            Err(FrameError::SizeOverflow)
        } else if roi_offset(r, stride, bpp) + last_row > usize::MAX || roi_required_len(r, stride, bpp) > usize::MAX {
            Err(FrameError::SizeOverflow)
        } else if roi_required_len(r, stride, bpp) > v.data@.len() {
            Err(FrameError::DataTooShort)
        } else {
            Ok(roi_offset(r, stride, bpp))
        }
    }
}

/// Bytes of row `y` of a view.
pub open spec fn spec_row(v: FrameView, y: int) -> Seq<u8> {
    let bpp = spec_bytes_per_pixel(v.format).unwrap() as int;
    v.data@.subrange(y * v.stride, y * v.stride + v.size.width * bpp)
}

/// Row `y` can be read without an offset overflowing.
pub open spec fn row_fits(v: FrameView, y: int) -> bool {
    spec_bytes_per_pixel(v.format) matches Some(bpp) ==> y * v.stride + v.size.width * bpp <= usize::MAX
}

/// Row `y` lies in the view and its bytes in the data.
pub open spec fn row_readable(v: FrameView, y: int) -> bool {
    &&& 0 <= y < v.size.height
    &&& spec_bytes_per_pixel(v.format) is Some
    &&& y * v.stride + v.size.width * spec_bytes_per_pixel(v.format).unwrap() <= v.data@.len()
}

/// Number of rows, from the top, that can be read one after the other.
pub open spec fn readable_rows(v: FrameView) -> nat
    decreases v.size.height,
{
    readable_rows_from(v, 0)
}

pub open spec fn readable_rows_from(v: FrameView, y: nat) -> nat
    decreases v.size.height - y,
{
    if y < v.size.height && row_readable(v, y as int) {
        1 + readable_rows_from(v, y + 1)
    } else {
        0
    }
}

impl Frame {
    /// A view of the whole frame.
    pub fn view(&self) -> (v: FrameView<'_>)
        ensures
            v.meta == self.meta,
            v.format == self.format,
            v.size == self.meta.size,
            v.stride == self.stride,
            v.data@ == self.data@,
    {
        FrameView {
            meta: self.meta,
            format: self.format,
            size: self.meta.size,
            stride: self.stride,
            data: self.data.as_slice(),
        }
    }
}

impl<'a> FrameView<'a> {
    /// The part of the view inside `r`, sharing its data: the new view starts
    /// at the rectangle's first pixel and keeps the stride.
    pub fn roi(self, r: Rect) -> (out: Result<FrameView<'a>, FrameError>)
        ensures
            match spec_roi(self, r) {
                Ok(offset) => out matches Ok(v) && v.size == r.size && v.stride == self.stride
                    && v.format == self.format && v.meta == (FrameMeta { size: r.size, ..self.meta })
                    && v.data@ == self.data@.skip(offset),
                Err(e) => out == Err::<FrameView<'a>, FrameError>(e),
            },
    {
        if !(r.x <= self.size.width && r.y <= self.size.height
            && r.size.width <= self.size.width - r.x && r.size.height <= self.size.height - r.y) {
            return Err(FrameError::RoiOutsideView);
        }
        let bpp = bytes_per_pixel(self.format)?;
        let x = r.x as usize;
        let y = r.y as usize;
        let width = r.size.width as usize;
        let height = r.size.height as usize;
        let offset = match y.checked_mul(self.stride) {
            None => { return Err(FrameError::SizeOverflow); },
            Some(a) => match x.checked_mul(bpp) {
                None => { return Err(FrameError::SizeOverflow); },
                Some(b) => match a.checked_add(b) {
                    None => { return Err(FrameError::SizeOverflow); },
                    Some(o) => o,
                },
            },
        };
        let hm1: usize = if height == 0 { 0 } else { height - 1 };
        let last_row_offset = match hm1.checked_mul(self.stride) {
            None => { return Err(FrameError::SizeOverflow); },
            Some(v) => v,
        };
        let row_len = match width.checked_mul(bpp) {
            None => { return Err(FrameError::SizeOverflow); },
            Some(v) => v,
        };
        let required_len = match offset.checked_add(last_row_offset) {
            None => { return Err(FrameError::SizeOverflow); },
            Some(a) => match a.checked_add(row_len) {
                None => { return Err(FrameError::SizeOverflow); },
                Some(v) => v,
            },
        };
        if required_len > self.data.len() {
            return Err(FrameError::DataTooShort);
        }
        let data = vstd::slice::slice_subrange(self.data, offset, self.data.len());
        Ok(FrameView {
            meta: FrameMeta { size: r.size, ..self.meta },
            format: self.format,
            size: r.size,
            stride: self.stride,
            data,
        })
    }

    /// The bytes of row `y`: `width * bytes_per_pixel` bytes from `y * stride`.
    pub fn row(&self, y: u32) -> (out: Result<&'a [u8], FrameError>)
        requires
            y < self.size.height ==> row_fits(*self, y as int),
        ensures
            y >= self.size.height ==> out == Err::<&'a [u8], FrameError>(FrameError::RowOutsideView),
            y < self.size.height && spec_bytes_per_pixel(self.format) is None
                ==> out == Err::<&'a [u8], FrameError>(FrameError::NoBytesPerPixel),
            y < self.size.height && spec_bytes_per_pixel(self.format) is Some ==> {
                &&& row_readable(*self, y as int) ==> (out matches Ok(row) && row@ == spec_row(*self, y as int))
                &&& !row_readable(*self, y as int) ==> out == Err::<&'a [u8], FrameError>(FrameError::DataTooShort)
            },
    {
        if y >= self.size.height {
            return Err(FrameError::RowOutsideView);
        }
        let bpp = bytes_per_pixel(self.format)?;
        let row_start = y as usize * self.stride;
        let row_end = row_start + self.size.width as usize * bpp;
        if row_end > self.data.len() {
            return Err(FrameError::DataTooShort);
        }
        Ok(vstd::slice::slice_subrange(self.data, row_start, row_end))
    }

    /// The rows of the view from the top, as long as they can be read.
    pub fn rows(&self) -> (out: Vec<&'a [u8]>)
        requires
            forall|y: int| 0 <= y < self.size.height ==> row_fits(*self, y),
        ensures
            out@.len() == readable_rows(*self),
            forall|i: int| 0 <= i < out@.len() ==> (#[trigger] out@[i])@ == spec_row(*self, i),
    {
        let mut out: Vec<&'a [u8]> = Vec::new();
        let mut y: u32 = 0;
        while y < self.size.height
            invariant
                y <= self.size.height,
                out@.len() == y,
                forall|i: int| 0 <= i < y ==> row_readable(*self, i),
                readable_rows(*self) == y + readable_rows_from(*self, y as nat),
                forall|i: int| 0 <= i < out@.len() ==> (#[trigger] out@[i])@ == spec_row(*self, i),
                forall|z: int| 0 <= z < self.size.height ==> row_fits(*self, z),
            decreases self.size.height - y,
        {
            match self.row(y) {
                Ok(row) => {
                    out.push(row);
                },
                Err(_) => {
                    return out;
                },
            }
            y = y + 1;
        }
        out
    }
}

} // verus!
