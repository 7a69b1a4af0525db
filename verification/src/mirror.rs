//! Mirroring frames horizontally, vertically or both.

use vstd::prelude::*;
use crate::geometry::Size;
use crate::frame::{spec_row_bytes, row_bytes, rows_in_data, rows_fit, Frame, FrameError, FrameView, PixelFormat};

verus! {

/// Which axes a frame is mirrored across.
#[derive(Clone, Copy, Debug, PartialEq, Eq, Structural)]
pub enum MirrorMode {
    Horizontal,
    Vertical,
    HorizontalAndVertical,
}

pub open spec fn spec_horizontal(mode: MirrorMode) -> bool {
    mode is Horizontal || mode is HorizontalAndVertical
}

pub open spec fn spec_vertical(mode: MirrorMode) -> bool {
    mode is Vertical || mode is HorizontalAndVertical
}

impl MirrorMode {
    /// Whether left and right swap.
    pub fn horizontal(self) -> (b: bool)
        ensures b == spec_horizontal(self),
    {
        match self {
            MirrorMode::Horizontal | MirrorMode::HorizontalAndVertical => true,
            MirrorMode::Vertical => false,
        }
    }

    /// Whether top and bottom swap.
    pub fn vertical(self) -> (b: bool)
        ensures b == spec_vertical(self),
    {
        match self {
            MirrorMode::Vertical | MirrorMode::HorizontalAndVertical => true,
            MirrorMode::Horizontal => false,
        }
    }
}

/// The source row of output row `y` in a frame of `h` rows.
pub open spec fn spec_source_y(y: int, h: int, mode: MirrorMode) -> int {
    if spec_vertical(mode) { h - 1 - y } else { y }
}

/// Row of the input that output row `dst_y` is taken from.
pub fn source_y(dst_y: usize, height: usize, mode: MirrorMode) -> (y: usize)
    requires dst_y < height,
    ensures y == spec_source_y(dst_y as int, height as int, mode),
{
    if mode.vertical() { height - 1 - dst_y } else { dst_y }
}

/// Position, within a YUYV422 pixel pair, of the byte that mirrored byte `k`
/// comes from: the two luma samples swap, the chroma samples stay.
pub open spec fn yuyv_swap(k: int) -> int {
    if k == 0 { 2 } else if k == 2 { 0 } else { k }
}

/// A row of `width` pixels, mirrored left to right when `horizontal`.
pub open spec fn mirrored_row(row: Seq<u8>, format: PixelFormat, width: int, horizontal: bool) -> Seq<u8> {
    if !horizontal {
        row
    } else {
        match format {
            PixelFormat::Gray8 => Seq::new(width as nat, |i: int| row[width - 1 - i]),
            PixelFormat::Bgra8 => Seq::new((width * 4) as nat, |i: int| row[(width - 1 - i / 4) * 4 + i % 4]),
            PixelFormat::Yuyv422 => Seq::new((width * 2) as nat, |i: int| row[(width / 2 - 1 - i / 4) * 4 + yuyv_swap(i % 4)]),
        }
    }
}

/// Row `y` of frame data with rows every `stride` bytes, `row_len` bytes long.
pub open spec fn source_row(data: Seq<u8>, y: int, stride: int, row_len: int) -> Seq<u8> {
    data.subrange(y * stride, y * stride + row_len)
}

/// The mirrored image of frame data, packed with no gap between rows.
pub open spec fn spec_mirror(data: Seq<u8>, format: PixelFormat, width: u32, height: u32, stride: int, mode: MirrorMode) -> Seq<u8> {
    let row_len = spec_row_bytes(format, width);
    Seq::new((row_len * height) as nat, |i: int|
        mirrored_row(
            source_row(data, spec_source_y(i / row_len, height as int, mode), stride, row_len),
            format, width as int, spec_horizontal(mode))[i % row_len])
}

/// What mirroring frame data gives: the mirrored bytes, or the error.
pub open spec fn spec_mirror_result(data: Seq<u8>, format: PixelFormat, size: Size, stride: int, mode: MirrorMode) -> Result<Seq<u8>, FrameError> {
    let row_len = spec_row_bytes(format, size.width);
    if row_len > usize::MAX || row_len * size.height > usize::MAX {
        Err(FrameError::SizeOverflow)
    } else if format is Yuyv422 && size.width % 2 != 0 {
        Err(FrameError::OddYuyvWidth)
    } else if !rows_in_data(data, size, stride, row_len) {
        Err(FrameError::DataTooShort)
    } else {
        Ok(spec_mirror(data, format, size.width, size.height, stride, mode))
    }
}

proof fn lemma_row_end(y: int, h: int, stride: int, row_len: int)
    requires 0 <= y < h, 0 <= stride, 0 <= row_len,
    ensures y * stride + row_len <= (h - 1) * stride + row_len,
{
    assert(y * stride <= (h - 1) * stride) by (nonlinear_arith)
        requires 0 <= y <= h - 1, 0 <= stride;
}

proof fn lemma_row_index(y: int, i: int, row_len: int, h: int)
    requires 0 <= y < h, 0 <= i < row_len,
    ensures
        (y * row_len + i) / row_len == y,
        (y * row_len + i) % row_len == i,
        y * row_len + i < row_len * h,
{
    vstd::arithmetic::div_mod::lemma_fundamental_div_mod_converse(y * row_len + i, row_len, y, i);
    assert(y * row_len + i < row_len * h) by (nonlinear_arith)
        requires 0 <= y < h, 0 <= i < row_len;
}

/// Byte `i` of row `src_y` mirrored, read from `data`.
fn mirrored_byte(data: &[u8], start: usize, format: PixelFormat, width: u32, horizontal: bool, row_len: usize, i: usize) -> (b: u8)
    requires
        i < row_len,
        row_len == spec_row_bytes(format, width),
        format is Yuyv422 ==> width % 2 == 0,
        start + row_len <= data.len(),
    ensures
        b == mirrored_row(data@.subrange(start as int, start + row_len), format, width as int, horizontal)[i as int],
{
    let ghost row = data@.subrange(start as int, start + row_len);
    if !horizontal {
        return data[start + i];
    }
    let w = width as usize;
    match format {
        PixelFormat::Gray8 => data[start + (w - 1 - i)],
        PixelFormat::Bgra8 => data[start + (w - 1 - i / 4) * 4 + i % 4],
        PixelFormat::Yuyv422 => {
            let k = i % 4;
            let from: usize = if k == 0 { 2 } else if k == 2 { 0 } else { k };
            data[start + (w / 2 - 1 - i / 4) * 4 + from]
        },
    }
}

/// Mirrors the rows of `v` into fresh packed data. The caller has checked the
/// sizes.
fn mirror_rows(v: &FrameView, mode: MirrorMode, row_len: usize) -> (out: Vec<u8>)
    requires
        row_len == spec_row_bytes(v.format, v.size.width),
        row_len * v.size.height <= usize::MAX,
        v.format is Yuyv422 ==> v.size.width % 2 == 0,
        rows_in_data(v.data@, v.size, v.stride as int, row_len as int),
    ensures
        out@ == spec_mirror(v.data@, v.format, v.size.width, v.size.height, v.stride as int, mode),
{
    let h = v.size.height as usize;
    let data_len = v.data.len();
    let horizontal = mode.horizontal();
    let ghost spec = spec_mirror(v.data@, v.format, v.size.width, v.size.height, v.stride as int, mode);
    let mut out: Vec<u8> = Vec::new();
    let mut y: usize = 0;
    while y < h
        invariant
            h == v.size.height,
            horizontal == spec_horizontal(mode),
            row_len == spec_row_bytes(v.format, v.size.width),
            row_len * v.size.height <= usize::MAX,
            v.format is Yuyv422 ==> v.size.width % 2 == 0,
            rows_in_data(v.data@, v.size, v.stride as int, row_len as int),
            data_len == v.data@.len(),
            spec == spec_mirror(v.data@, v.format, v.size.width, v.size.height, v.stride as int, mode),
            y <= h,
            out@.len() == y * row_len,
            forall|j: int| 0 <= j < out@.len() ==> out@[j] == spec[j],
        decreases h - y,
    {
        let sy = source_y(y, h, mode);
        proof {
            lemma_row_end(sy as int, h as int, v.stride as int, row_len as int);
            assert(sy * v.stride <= usize::MAX);
        }
        let start = sy * v.stride;
        let mut i: usize = 0;
        while i < row_len
            invariant
                h == v.size.height,
                horizontal == spec_horizontal(mode),
                row_len == spec_row_bytes(v.format, v.size.width),
                row_len * v.size.height <= usize::MAX,
                v.format is Yuyv422 ==> v.size.width % 2 == 0,
                spec == spec_mirror(v.data@, v.format, v.size.width, v.size.height, v.stride as int, mode),
                y < h,
                sy == spec_source_y(y as int, h as int, mode),
                start == sy * v.stride,
                start + row_len <= v.data@.len(),
                i <= row_len,
                out@.len() == y * row_len + i,
                forall|j: int| 0 <= j < out@.len() ==> out@[j] == spec[j],
            decreases row_len - i,
        {
            let b = mirrored_byte(v.data, start, v.format, v.size.width, horizontal, row_len, i);
            proof {
                lemma_row_index(y as int, i as int, row_len as int, h as int);
                assert(source_row(v.data@, sy as int, v.stride as int, row_len as int)
                    =~= v.data@.subrange(start as int, start + row_len));
            }
            out.push(b);
            i = i + 1;
        }
        proof {
            assert((y + 1) * row_len == y * row_len + row_len) by (nonlinear_arith);
        }
        y = y + 1;
    }
    proof {
        assert(row_len * h == h * row_len) by (nonlinear_arith);
    }
    assert(out@ =~= spec);
    out
}

/// Mirrors a frame whose pixels are `bytes_per_pixel` bytes wide (Gray8 or
/// BGRA8) into `output`.
pub fn mirror_fixed_width_pixels(v: &FrameView, mode: MirrorMode, row_len: usize) -> (r: Result<Vec<u8>, FrameError>)
    requires
        !(v.format is Yuyv422),
        row_len == spec_row_bytes(v.format, v.size.width),
        row_len * v.size.height <= usize::MAX,
    ensures
        match spec_mirror_result(v.data@, v.format, v.size, v.stride as int, mode) {
            Ok(d) => r matches Ok(out) && out@ == d,
            Err(e) => r == Err::<Vec<u8>, FrameError>(e),
        },
{
    if !rows_fit(v.data, v.size, v.stride, row_len) {
        return Err(FrameError::DataTooShort);
    }
    Ok(mirror_rows(v, mode, row_len))
}

/// Mirrors a YUYV422 frame: pixels come in pairs of four bytes (Y0 U Y1 V);
/// mirroring reverses the pairs and swaps the two luma samples of each.
pub fn mirror_yuyv422(v: &FrameView, mode: MirrorMode, row_len: usize) -> (r: Result<Vec<u8>, FrameError>)
    requires
        v.format is Yuyv422,
        row_len == spec_row_bytes(v.format, v.size.width),
        row_len * v.size.height <= usize::MAX,
    ensures
        match spec_mirror_result(v.data@, v.format, v.size, v.stride as int, mode) {
            Ok(d) => r matches Ok(out) && out@ == d,
            Err(e) => r == Err::<Vec<u8>, FrameError>(e),
        },
{
    if v.size.width % 2 != 0 {
        return Err(FrameError::OddYuyvWidth);
    }
    if !rows_fit(v.data, v.size, v.stride, row_len) {
        return Err(FrameError::DataTooShort);
    }
    Ok(mirror_rows(v, mode, row_len))
}

/// Mirrors `frame` into `output`, reusing the output's buffer when it already
/// has the frame's layout.
///
/// On success the output holds the frame's metadata and format, rows packed
/// with no gap, and the mirrored pixels. When the sizes overflow the output is
/// left as it was; on the other errors it holds the frame's metadata and
/// layout, and the bytes it held before when its layout was already that one,
/// else zeros.
pub fn mirror_frame_into(frame: &Frame, mode: MirrorMode, output: &mut Option<Frame>) -> (r: Result<(), FrameError>)
    ensures
        match spec_mirror_result(frame.data@, frame.format, frame.meta.size, frame.stride as int, mode) {
            Ok(d) => r is Ok && (*final(output) matches Some(out) && out.meta == frame.meta
                && out.format == frame.format
                && out.stride == spec_row_bytes(frame.format, frame.meta.size.width)
                && out.data@ == d),
            Err(FrameError::SizeOverflow) => r == Err::<(), FrameError>(FrameError::SizeOverflow)
                && *final(output) == *old(output),
            Err(e) => r == Err::<(), FrameError>(e) && (*final(output) matches Some(out)
                && out.meta == frame.meta && out.format == frame.format
                && out.stride == spec_row_bytes(frame.format, frame.meta.size.width)
                && out.data@ == reused_bytes(*old(output), *frame,
                    spec_row_bytes(frame.format, frame.meta.size.width),
                    spec_row_bytes(frame.format, frame.meta.size.width) * frame.meta.size.height)),
        },
{
    let v = frame.view();
    let row_len = row_bytes(frame.format, frame.meta.size.width)?;
    let len = match row_len.checked_mul(frame.meta.size.height as usize) {
        None => { return Err(FrameError::SizeOverflow); },
        Some(len) => len,
    };
    let mut out = ensure_output(output.take(), frame, row_len, len);
    out.meta = frame.meta;
    let mirrored = match frame.format {
        PixelFormat::Gray8 | PixelFormat::Bgra8 => mirror_fixed_width_pixels(&v, mode, row_len),
        PixelFormat::Yuyv422 => mirror_yuyv422(&v, mode, row_len),
    };
    match mirrored {
        Ok(data) => {
            out.data = data;
            *output = Some(out);
            Ok(())
        },
        Err(e) => {
            *output = Some(out);
            Err(e)
        },
    }
}

/// Whether the previous output already has the layout asked for.
pub open spec fn layout_matches(previous: Option<Frame>, frame: Frame, stride: int, len: int) -> bool {
    previous matches Some(p) && p.meta.size == frame.meta.size && p.format == frame.format
        && p.stride == stride && p.data@.len() == len
}

/// The bytes the output holds before mirroring: the previous output's when
/// its layout matches, else zeros.
pub open spec fn reused_bytes(previous: Option<Frame>, frame: Frame, stride: int, len: int) -> Seq<u8> {
    if layout_matches(previous, frame, stride, len) {
        previous->0.data@
    } else {
        Seq::new(len as nat, |i: int| 0u8)
    }
}

/// The output frame to mirror into: the previous one when its size, format,
/// stride and length already match, else a new zeroed one.
fn ensure_output(previous: Option<Frame>, frame: &Frame, stride: usize, len: usize) -> (out: Frame)
    ensures
        out.meta.size == frame.meta.size,
        out.format == frame.format,
        out.stride == stride,
        out.data@ == reused_bytes(previous, *frame, stride as int, len as int),
        layout_matches(previous, *frame, stride as int, len as int) ==> out.meta == previous->0.meta,
        !layout_matches(previous, *frame, stride as int, len as int) ==> out.meta == frame.meta,
{
    match previous {
        Some(prev) => {
            if prev.meta.size == frame.meta.size && prev.format == frame.format && prev.stride == stride
                && prev.data.len() == len {
                return prev;
            }
        },
        None => {},
    }
    let data = vec![0u8; len];
    assert(data@ =~= Seq::new(len as nat, |i: int| 0u8));
    Frame { meta: frame.meta, format: frame.format, stride, data }
}


/// Mirroring a row twice gives the row back.
proof fn lemma_mirrored_row_twice(row: Seq<u8>, format: PixelFormat, width: u32, horizontal: bool, c: int)
    requires
        row.len() == spec_row_bytes(format, width),
        format is Yuyv422 ==> width % 2 == 0,
        0 <= c < row.len(),
    ensures
        mirrored_row(row, format, width as int, horizontal).len() == row.len(),
        mirrored_row(mirrored_row(row, format, width as int, horizontal), format, width as int, horizontal)[c] == row[c],
{
    if horizontal {
        let w = width as int;
        let m = mirrored_row(row, format, w, horizontal);
        match format {
            PixelFormat::Gray8 => {},
            PixelFormat::Bgra8 => {
                let c2 = (w - 1 - c / 4) * 4 + c % 4;
                vstd::arithmetic::div_mod::lemma_fundamental_div_mod(c, 4);
                vstd::arithmetic::div_mod::lemma_fundamental_div_mod_converse(c2, 4, w - 1 - c / 4, c % 4);
                assert(m[c] == row[c2]);
            },
            PixelFormat::Yuyv422 => {
                let p = w / 2 - 1 - c / 4;
                let c2 = p * 4 + yuyv_swap(c % 4);
                vstd::arithmetic::div_mod::lemma_fundamental_div_mod(c, 4);
                vstd::arithmetic::div_mod::lemma_fundamental_div_mod_converse(c2, 4, p, yuyv_swap(c % 4));
                assert(m[c] == row[c2]);
            },
        }
    }
}

/// Row `y` of tightly packed data of `h` rows is `row_len` bytes taken from
/// `y * row_len`.
proof fn lemma_packed_row(data: Seq<u8>, y: int, row_len: int, h: int)
    requires
        0 <= y < h,
        row_len > 0,
        data.len() == row_len * h,
    ensures
        source_row(data, y, row_len, row_len).len() == row_len,
        forall|c: int| 0 <= c < row_len ==> #[trigger] source_row(data, y, row_len, row_len)[c] == data[y * row_len + c],
{
    assert(y * row_len + row_len <= row_len * h) by (nonlinear_arith)
        requires 0 <= y < h, row_len > 0;
    assert(0 <= y * row_len) by (nonlinear_arith)
        requires 0 <= y, row_len > 0;
}

/// Mirroring tightly packed frame data twice across the same axes gives the
/// data back.
pub proof fn lemma_mirror_twice(data: Seq<u8>, format: PixelFormat, size: Size, mode: MirrorMode)
    requires
        data.len() == spec_row_bytes(format, size.width) * size.height,
        format is Yuyv422 ==> size.width % 2 == 0,
    ensures
        spec_mirror(
            spec_mirror(data, format, size.width, size.height, spec_row_bytes(format, size.width), mode),
            format, size.width, size.height, spec_row_bytes(format, size.width), mode,
        ) == data,
{
    let row_len = spec_row_bytes(format, size.width);
    let h = size.height as int;
    let w = size.width;
    let hor = spec_horizontal(mode);
    let m1 = spec_mirror(data, format, w, size.height, row_len, mode);
    let m2 = spec_mirror(m1, format, w, size.height, row_len, mode);
    assert(row_len >= 0);
    assert(m1.len() == data.len());
    assert(m2.len() == data.len());
    assert forall|i: int| 0 <= i < data.len() implies m2[i] == data[i] by {
        assert(row_len > 0) by (nonlinear_arith)
            requires i < row_len * h, 0 <= i, h >= 0, row_len >= 0;
        let y = i / row_len;
        let c = i % row_len;
        vstd::arithmetic::div_mod::lemma_fundamental_div_mod(i, row_len);
        assert(0 <= y < h) by (nonlinear_arith)
            requires i == row_len * y + c, 0 <= c < row_len, 0 <= i < row_len * h;
        assert(i == y * row_len + c) by (nonlinear_arith)
            requires i == row_len * y + c;
        let sy = spec_source_y(y, h, mode);
        assert(0 <= sy < h);
        assert(spec_source_y(sy, h, mode) == y);
        let r0 = source_row(data, y, row_len, row_len);
        let r1 = source_row(m1, sy, row_len, row_len);
        lemma_packed_row(data, y, row_len, h);
        lemma_packed_row(m1, sy, row_len, h);
        assert forall|c2: int| 0 <= c2 < row_len implies
            r1[c2] == #[trigger] mirrored_row(r0, format, w as int, hor)[c2] by {
            lemma_row_index(sy, c2, row_len, h);
            assert(r1[c2] == m1[sy * row_len + c2]);
        }
        lemma_mirrored_row_twice(r0, format, w, hor, c);
        assert(r1 =~= mirrored_row(r0, format, w as int, hor));
        assert(m2[i] == mirrored_row(r1, format, w as int, hor)[c]);
        assert(r0[c] == data[i]);
    }
    assert(m2 =~= data);
}

/// The rows of frame data with rows every `stride` bytes, packed one after
/// another with no gap.
pub open spec fn packed_rows(data: Seq<u8>, format: PixelFormat, size: Size, stride: int) -> Seq<u8> {
    let row_len = spec_row_bytes(format, size.width);
    Seq::new((row_len * size.height) as nat, |i: int| data[(i / row_len) * stride + i % row_len])
}

/// Mirroring frame data, with any stride, and then mirroring the result
/// across the same axes gives the frame's rows back, packed with no gap; the
/// second mirroring succeeds whenever the first does.
pub proof fn lemma_mirror_twice_rows(data: Seq<u8>, format: PixelFormat, size: Size, stride: int, mode: MirrorMode)
    requires
        stride >= 0,
        spec_mirror_result(data, format, size, stride, mode) is Ok,
    ensures
        spec_mirror_result(data, format, size, stride, mode) matches Ok(once)
            && spec_mirror_result(once, format, size, spec_row_bytes(format, size.width), mode)
                == Ok::<Seq<u8>, FrameError>(packed_rows(data, format, size, stride)),
{
    let row_len = spec_row_bytes(format, size.width);
    let h = size.height as int;
    let w = size.width;
    let hor = spec_horizontal(mode);
    let m1 = spec_mirror(data, format, w, size.height, stride, mode);
    let m2 = spec_mirror(m1, format, w, size.height, row_len, mode);
    let p = packed_rows(data, format, size, stride);
    assert(row_len >= 0);
    assert(row_len * h >= 0) by (nonlinear_arith) requires row_len >= 0, h >= 0;
    assert(m1.len() == row_len * h);
    assert(rows_in_data(m1, size, row_len, row_len)) by {
        if h > 0 {
            assert((h - 1) * row_len + row_len == row_len * h) by (nonlinear_arith);
        }
    }
    assert forall|i: int| 0 <= i < p.len() implies m2[i] == p[i] by {
        assert(row_len > 0) by (nonlinear_arith)
            requires i < row_len * h, 0 <= i, h >= 0, row_len >= 0;
        let y = i / row_len;
        let c = i % row_len;
        vstd::arithmetic::div_mod::lemma_fundamental_div_mod(i, row_len);
        assert(0 <= y < h) by (nonlinear_arith)
            requires i == row_len * y + c, 0 <= c < row_len, 0 <= i < row_len * h;
        assert(i == y * row_len + c) by (nonlinear_arith)
            requires i == row_len * y + c;
        let sy = spec_source_y(y, h, mode);
        assert(0 <= sy < h);
        assert(spec_source_y(sy, h, mode) == y);
        lemma_row_end(y, h, stride, row_len);
        assert(0 <= y * stride) by (nonlinear_arith) requires 0 <= y, 0 <= stride;
        let r0 = source_row(data, y, stride, row_len);
        assert(r0.len() == row_len);
        let r1 = source_row(m1, sy, row_len, row_len);
        lemma_packed_row(m1, sy, row_len, h);
        assert forall|c2: int| 0 <= c2 < row_len implies
            r1[c2] == #[trigger] mirrored_row(r0, format, w as int, hor)[c2] by {
            lemma_row_index(sy, c2, row_len, h);
            assert(r1[c2] == m1[sy * row_len + c2]);
        }
        lemma_mirrored_row_twice(r0, format, w, hor, c);
        assert(r1 =~= mirrored_row(r0, format, w as int, hor));
        assert(m2[i] == mirrored_row(r1, format, w as int, hor)[c]);
        assert(r0[c] == data[y * stride + c]);
    }
    assert(m2 =~= p);
}

/// Mirroring moves whole pixels and keeps each pixel's bytes in order. Output
/// row `y` comes from input row `h - 1 - y` when flipping vertically, else
/// from row `y`. When flipping horizontally, output pixel `x` of a Gray8 or
/// BGRA8 row is input pixel `w - 1 - x` with its bytes (B, G, R, A) in the
/// same order; in a YUYV422 row, output pair `x` (Y0 U Y1 V) is input pair
/// `w / 2 - 1 - x` with its two luma samples swapped. Without a horizontal
/// flip every byte stays at its place in the row.
pub proof fn lemma_mirror_moves_pixels(data: Seq<u8>, format: PixelFormat, size: Size, stride: int,
    mode: MirrorMode, y: int, x: int, c: int)
    requires
        stride >= 0,
        spec_mirror_result(data, format, size, stride, mode) is Ok,
        0 <= y < size.height,
    ensures
        spec_mirror_result(data, format, size, stride, mode) matches Ok(d) && ({
            let w = size.width as int;
            let h = size.height as int;
            let flip_h = mode == MirrorMode::Horizontal || mode == MirrorMode::HorizontalAndVertical;
            let from_y = if mode == MirrorMode::Vertical || mode == MirrorMode::HorizontalAndVertical { h - 1 - y } else { y };
            match format {
                PixelFormat::Gray8 => 0 <= x < w ==>
                    d[y * w + x] == data[from_y * stride + if flip_h { w - 1 - x } else { x }],
                PixelFormat::Bgra8 => 0 <= x < w && 0 <= c < 4 ==>
                    d[y * (w * 4) + x * 4 + c] == data[from_y * stride + (if flip_h { w - 1 - x } else { x }) * 4 + c],
                PixelFormat::Yuyv422 => 0 <= x < w / 2 && 0 <= c < 4 ==>
                    d[y * (w * 2) + x * 4 + c] == data[from_y * stride
                        + (if flip_h { w / 2 - 1 - x } else { x }) * 4
                        + (if flip_h && c == 0 { 2 } else if flip_h && c == 2 { 0 } else { c })],
            }
        }),
{
    let w = size.width as int;
    let h = size.height as int;
    let row_len = spec_row_bytes(format, size.width);
    let hor = spec_horizontal(mode);
    let sy = spec_source_y(y, h, mode);
    assert(0 <= sy < h);
    lemma_row_end(sy, h, stride, row_len);
    assert(0 <= sy * stride) by (nonlinear_arith) requires 0 <= sy, 0 <= stride;
    let row = source_row(data, sy, stride, row_len);
    assert(row.len() == row_len);
    let b: int = match format {
        PixelFormat::Gray8 => x,
        _ => x * 4 + c,
    };
    let in_range: bool = match format {
        PixelFormat::Gray8 => 0 <= x < w,
        PixelFormat::Bgra8 => 0 <= x < w && 0 <= c < 4,
        PixelFormat::Yuyv422 => 0 <= x < w / 2 && 0 <= c < 4,
    };
    if in_range {
        assert(0 <= b < row_len);
        lemma_row_index(y, b, row_len, h);
        let i = y * row_len + b;
        assert(i / row_len == y && i % row_len == b);
        if format != PixelFormat::Gray8 {
            vstd::arithmetic::div_mod::lemma_fundamental_div_mod_converse(b, 4, x, c);
        }
        let m = mirrored_row(row, format, w, hor);
        assert(spec_mirror(data, format, size.width, size.height, stride, mode)[i] == m[b]);
    }
}

} // verus!
