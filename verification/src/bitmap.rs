//! Encoding frames as Windows bitmap (BMP) files: 32-bit BGRA, or 8-bit gray
//! with a gray palette and rows padded to four bytes. Rows are stored top
//! down (a negative height).

use vstd::prelude::*;
use crate::frame::{rows_fit, rows_in_data, Frame, PixelFormat};

verus! {

/// Why a frame could not be encoded.
#[derive(Clone, Copy, Debug, PartialEq, Eq, Structural)]
pub enum BmpError {
    /// A width or height exceeds `i32::MAX`.
    DimensionTooLarge,
    /// A row's byte count does not fit in `usize`.
    RowBytesOverflow,
    /// The image's byte count does not fit in `usize`.
    ImageSizeOverflow,
    /// The palette's byte count does not fit in `u32`.
    PaletteOverflow,
    /// The offset of the pixels does not fit in `u32`.
    PixelOffsetOverflow,
    /// The image's byte count does not fit in `u32`.
    ImageSizeTooLarge,
    /// The file's byte count does not fit in `u32`.
    FileSizeOverflow,
    /// The pixel format has no bitmap encoding here.
    UnsupportedFormat,
    /// The frame's data is shorter than its layout.
    DataTooShort,
}

/// The text that describes `e`.
pub open spec fn bmp_error_message(e: BmpError) -> Seq<char> {
    match e {
        BmpError::DimensionTooLarge => "bitmap dimension exceeds i32"@,
        BmpError::RowBytesOverflow => "bitmap row byte count overflow"@,
        BmpError::ImageSizeOverflow => "bitmap image byte count overflow"@,
        BmpError::PaletteOverflow => "BMP palette byte count overflow"@,
        BmpError::PixelOffsetOverflow => "BMP pixel offset overflow"@,
        BmpError::ImageSizeTooLarge => "BMP image size exceeds u32"@,
        BmpError::FileSizeOverflow => "BMP file size overflow"@,
        BmpError::UnsupportedFormat => "pixel format has no bitmap encoding"@,
        BmpError::DataTooShort => "frame data is shorter than its layout"@,
    }
}

impl BmpError {
    /// A description of the error.
    pub fn to_string(&self) -> (s: String)
        ensures s@ == bmp_error_message(*self),
    {
        match self {
            BmpError::DimensionTooLarge => String::from_str("bitmap dimension exceeds i32"),
            BmpError::RowBytesOverflow => String::from_str("bitmap row byte count overflow"),
            BmpError::ImageSizeOverflow => String::from_str("bitmap image byte count overflow"),
            BmpError::PaletteOverflow => String::from_str("BMP palette byte count overflow"),
            BmpError::PixelOffsetOverflow => String::from_str("BMP pixel offset overflow"),
            BmpError::ImageSizeTooLarge => String::from_str("BMP image size exceeds u32"),
            BmpError::FileSizeOverflow => String::from_str("BMP file size overflow"),
            BmpError::UnsupportedFormat => String::from_str("pixel format has no bitmap encoding"),
            BmpError::DataTooShort => String::from_str("frame data is shorter than its layout"),
        }
    }
}

/// Little-endian bytes of a `u16`.
pub open spec fn le_u16(v: u16) -> Seq<u8> {
    seq![(v % 256) as u8, (v / 256) as u8]
}

/// Little-endian bytes of a `u32`.
pub open spec fn le_u32(v: u32) -> Seq<u8> {
    seq![(v % 256) as u8, (v / 256 % 256) as u8, (v / 65536 % 256) as u8, (v / 16777216) as u8]
}

/// The two's-complement bit pattern of an `i32`.
pub open spec fn i32_bits(v: i32) -> u32 {
    if v >= 0 { v as u32 } else { (v + 4294967296) as u32 }
}

/// Little-endian two's-complement bytes of an `i32`.
pub open spec fn le_i32(v: i32) -> Seq<u8> {
    le_u32(i32_bits(v))
}

/// Why the bitmap headers cannot be written, if they cannot.
pub open spec fn header_error(palette_entries: u32, image_size: usize) -> Option<BmpError> {
    let palette_bytes = palette_entries * 4;
    let pixel_offset = 54 + palette_bytes;
    if palette_bytes > u32::MAX {
        Some(BmpError::PaletteOverflow)
    } else if pixel_offset > u32::MAX {
        Some(BmpError::PixelOffsetOverflow)
    } else if image_size > u32::MAX {
        Some(BmpError::ImageSizeTooLarge)
    } else if pixel_offset + image_size > u32::MAX {
        Some(BmpError::FileSizeOverflow)
    } else {
        None
    }
}

/// The 54-byte file and info headers of a bitmap: signature, file size,
/// pixel offset, info header size, dimensions, one plane, bits per pixel, no
/// compression, image size, no resolution, palette size.
#[verifier::opaque]
pub open spec fn header_bytes(width: i32, height: i32, bits_per_pixel: u16, palette_entries: u32, image_size: usize) -> Seq<u8> {
    let pixel_offset = 54 + palette_entries * 4;
    seq![66u8, 77u8]
        + le_u32((pixel_offset + image_size) as u32)
        + le_u16(0) + le_u16(0)
        + le_u32(pixel_offset as u32)
        + le_u32(40)
        + le_i32(width)
        + le_i32(height)
        + le_u16(1)
        + le_u16(bits_per_pixel)
        + le_u32(0)
        + le_u32(image_size as u32)
        + le_i32(0) + le_i32(0)
        + le_u32(palette_entries)
        + le_u32(0)
}

/// The headers of a bitmap, or why they cannot be written.
pub open spec fn bmp_header(width: i32, height: i32, bits_per_pixel: u16, palette_entries: u32, image_size: usize)
    -> Result<Seq<u8>, BmpError>
{
    match header_error(palette_entries, image_size) {
        Some(e) => Err(e),
        None => Ok(header_bytes(width, height, bits_per_pixel, palette_entries, image_size)),
    }
}

fn push_u16(out: &mut Vec<u8>, v: u16)
    ensures final(out)@ == old(out)@ + le_u16(v),
{
    out.push((v % 256) as u8);
    out.push((v / 256) as u8);
    assert(final(out)@ =~= old(out)@ + le_u16(v));
}

fn push_u32(out: &mut Vec<u8>, v: u32)
    ensures final(out)@ == old(out)@ + le_u32(v),
{
    out.push((v % 256) as u8);
    out.push((v / 256 % 256) as u8);
    out.push((v / 65536 % 256) as u8);
    out.push((v / 16777216) as u8);
    assert(final(out)@ =~= old(out)@ + le_u32(v));
}

fn push_i32(out: &mut Vec<u8>, v: i32)
    ensures final(out)@ == old(out)@ + le_i32(v),
{
    let bits: u32 = if v >= 0 { v as u32 } else { (v as i64 + 4294967296i64) as u32 };
    push_u32(out, bits);
}

/// Appends the bitmap headers to `out`; on an error nothing is appended.
pub fn write_bmp_header(out: &mut Vec<u8>, width: i32, height: i32, bits_per_pixel: u16, palette_entries: u32, image_size: usize)
    -> (r: Result<(), BmpError>)
    ensures
        match bmp_header(width, height, bits_per_pixel, palette_entries, image_size) {
            Ok(h) => r is Ok && final(out)@ == old(out)@ + h,
            Err(e) => r == Err::<(), BmpError>(e) && final(out)@ == old(out)@,
        },
{
    let palette_bytes = match palette_entries.checked_mul(4) {
        Some(v) => v,
        None => { return Err(BmpError::PaletteOverflow); },
    };
    let pixel_offset = match palette_bytes.checked_add(54) {
        Some(v) => v,
        None => { return Err(BmpError::PixelOffsetOverflow); },
    };
    if image_size > 4294967295usize {
        return Err(BmpError::ImageSizeTooLarge);
    }
    let image_size = image_size as u32;
    let file_size = match pixel_offset.checked_add(image_size) {
        Some(v) => v,
        None => { return Err(BmpError::FileSizeOverflow); },
    };
    let ghost start = out@;
    out.push(66u8);
    out.push(77u8);
    push_u32(out, file_size);
    push_u16(out, 0);
    push_u16(out, 0);
    push_u32(out, pixel_offset);
    push_u32(out, 40);
    push_i32(out, width);
    push_i32(out, height);
    push_u16(out, 1);
    push_u16(out, bits_per_pixel);
    push_u32(out, 0);
    push_u32(out, image_size);
    push_i32(out, 0);
    push_i32(out, 0);
    push_u32(out, palette_entries);
    push_u32(out, 0);
    proof {
        reveal(header_bytes);
        let h = header_bytes(width, height, bits_per_pixel, palette_entries, image_size as usize);
        assert(out@ =~= start + h);
    }
    Ok(())
}

/// A bitmap dimension as `i32`.
pub fn checked_i32(value: u32) -> (r: Result<i32, BmpError>)
    ensures
        value <= i32::MAX ==> r == Ok::<i32, BmpError>(value as i32),
        value > i32::MAX ==> r == Err::<i32, BmpError>(BmpError::DimensionTooLarge),
{
    if value > 2147483647u32 {
        Err(BmpError::DimensionTooLarge)
    } else {
        Ok(value as i32)
    }
}

/// Bytes of a row of `width` pixels of `bytes_per_pixel` bytes.
pub fn checked_row_bytes(width: u32, bytes_per_pixel: usize) -> (r: Result<usize, BmpError>)
    ensures
        width * bytes_per_pixel <= usize::MAX ==> r == Ok::<usize, BmpError>((width * bytes_per_pixel) as usize),
        width * bytes_per_pixel > usize::MAX ==> r == Err::<usize, BmpError>(BmpError::RowBytesOverflow),
{
    match (width as usize).checked_mul(bytes_per_pixel) {
        Some(v) => Ok(v),
        None => Err(BmpError::RowBytesOverflow),
    }
}

/// `width` rounded up to a multiple of four.
pub open spec fn padded_len(width: int) -> int {
    (width + 3) / 4 * 4
}

/// Bytes of a row of `width` one-byte pixels padded to a multiple of four.
pub fn padded_row_bytes(width: u32) -> (r: Result<usize, BmpError>)
    ensures
        width + 3 <= usize::MAX ==> r == Ok::<usize, BmpError>(padded_len(width as int) as usize),
        width + 3 > usize::MAX ==> r == Err::<usize, BmpError>(BmpError::RowBytesOverflow),
{
    match (width as usize).checked_add(3) {
        Some(v) => Ok(v / 4 * 4),
        None => Err(BmpError::RowBytesOverflow),
    }
}

/// Bytes of `height` rows of `row_bytes` bytes.
pub fn checked_image_size(row_bytes: usize, height: u32) -> (r: Result<usize, BmpError>)
    ensures
        row_bytes * height <= usize::MAX ==> r == Ok::<usize, BmpError>((row_bytes * height) as usize),
        row_bytes * height > usize::MAX ==> r == Err::<usize, BmpError>(BmpError::ImageSizeOverflow),
{
    match row_bytes.checked_mul(height as usize) {
        Some(v) => Ok(v),
        None => Err(BmpError::ImageSizeOverflow),
    }
}

/// The pixel rows of a bitmap: `h` rows of `row_len` bytes, each the first
/// `w` bytes of a frame row followed by zeros.
pub open spec fn bitmap_rows(data: Seq<u8>, stride: int, w: int, h: int, row_len: int) -> Seq<u8> {
    Seq::new((h * row_len) as nat, |i: int|
        if i % row_len < w { data[(i / row_len) * stride + i % row_len] } else { 0u8 })
}

/// The gray palette: entry `v` is `[v, v, v, 0]`.
pub open spec fn gray_palette() -> Seq<u8> {
    Seq::new(1024, |i: int| if i % 4 == 3 { 0u8 } else { (i / 4) as u8 })
}

proof fn lemma_row_split(y: int, c: int, row_len: int, h: int)
    requires 0 <= y < h, 0 <= c < row_len,
    ensures
        (y * row_len + c) / row_len == y,
        (y * row_len + c) % row_len == c,
        y * row_len + c < h * row_len,
        0 <= y * row_len,
{
    vstd::arithmetic::div_mod::lemma_fundamental_div_mod_converse(y * row_len + c, row_len, y, c);
    assert(y * row_len + c < h * row_len) by (nonlinear_arith)
        requires 0 <= y < h, 0 <= c < row_len;
    assert(0 <= y * row_len) by (nonlinear_arith)
        requires 0 <= y, 0 <= row_len;
}

/// Appends the rows of the frame data: `w` bytes of each, then zeros up to
/// `row_len`.
pub(crate) fn push_rows(out: &mut Vec<u8>, data: &[u8], stride: usize, w: usize, h: usize, row_len: usize)
    requires
        w <= row_len,
        row_len * h <= usize::MAX,
        h == 0 || (h - 1) * stride + w <= data@.len(),
    ensures
        final(out)@ == old(out)@ + bitmap_rows(data@, stride as int, w as int, h as int, row_len as int),
{
    let ghost start = out@;
    let ghost rows = bitmap_rows(data@, stride as int, w as int, h as int, row_len as int);
    let data_len = data.len();
    assert(h * row_len == row_len * h) by (nonlinear_arith);
    let mut y: usize = 0;
    while y < h
        invariant
            w <= row_len,
            h * row_len <= usize::MAX,
            h == 0 || (h - 1) * stride + w <= data@.len(),
            data_len == data@.len(),
            rows == bitmap_rows(data@, stride as int, w as int, h as int, row_len as int),
            y <= h,
            out@.len() == start.len() + y * row_len,
            out@ == start + rows.take(y * row_len),
        decreases h - y,
    {
        proof {
            assert(y * stride <= (h - 1) * stride) by (nonlinear_arith)
                requires 0 <= y <= h - 1, 0 <= stride;
            assert((y + 1) * row_len <= h * row_len) by (nonlinear_arith)
                requires 0 <= y + 1 <= h, 0 <= row_len;
            assert((y + 1) * row_len == y * row_len + row_len) by (nonlinear_arith);
        }
        let row_start = y * stride;
        let mut c: usize = 0;
        while c < row_len
            invariant
                w <= row_len,
                h * row_len <= usize::MAX,
                data_len == data@.len(),
                rows == bitmap_rows(data@, stride as int, w as int, h as int, row_len as int),
                y < h,
                row_start == y * stride,
                row_start + w <= data@.len(),
                (y + 1) * row_len <= h * row_len,
                c <= row_len,
                out@ == start + rows.take(y * row_len + c),
            decreases row_len - c,
        {
            let b = if c < w { data[row_start + c] } else { 0u8 };
            proof {
                lemma_row_split(y as int, c as int, row_len as int, h as int);
                assert(rows[y * row_len + c] == b);
                assert(rows.take(y * row_len + c + 1) =~= rows.take(y * row_len + c).push(b));
            }
            out.push(b);
            c = c + 1;
        }
        y = y + 1;
    }
    proof {
        assert(rows.take(h * row_len) =~= rows);
    }
}

/// The bitmap bytes of a BGRA8 frame, or why it cannot be encoded.
pub open spec fn bgra_bitmap(frame: Frame) -> Result<Seq<u8>, BmpError> {
    let w = frame.meta.size.width;
    let h = frame.meta.size.height;
    if w > i32::MAX || h > i32::MAX {
        Err(BmpError::DimensionTooLarge)
    } else if w * 4 > usize::MAX {
        Err(BmpError::RowBytesOverflow)
    } else if w * 4 * h > usize::MAX {
        Err(BmpError::ImageSizeOverflow)
    } else {
        match bmp_header(w as i32, -h as i32, 32, 0, (w * 4 * h) as usize) {
            Err(e) => Err(e),
            Ok(header) => if !rows_in_data(frame.data@, frame.meta.size, frame.stride as int, w * 4) {
                Err(BmpError::DataTooShort)
            } else {
                Ok(header + bitmap_rows(frame.data@, frame.stride as int, w * 4, h as int, w * 4))
            },
        }
    }
}

/// The bitmap bytes of a Gray8 frame, or why it cannot be encoded.
pub open spec fn gray_bitmap(frame: Frame) -> Result<Seq<u8>, BmpError> {
    let w = frame.meta.size.width;
    let h = frame.meta.size.height;
    let row_len = padded_len(w as int);
    if w > i32::MAX || h > i32::MAX {
        Err(BmpError::DimensionTooLarge)
    } else if w + 3 > usize::MAX {
        Err(BmpError::RowBytesOverflow)
    } else if row_len * h > usize::MAX {
        Err(BmpError::ImageSizeOverflow)
    } else {
        match bmp_header(w as i32, -h as i32, 8, 256, (row_len * h) as usize) {
            Err(e) => Err(e),
            Ok(header) => if !rows_in_data(frame.data@, frame.meta.size, frame.stride as int, w as int) {
                Err(BmpError::DataTooShort)
            } else {
                Ok(header + gray_palette() + bitmap_rows(frame.data@, frame.stride as int, w as int, h as int, row_len))
            },
        }
    }
}

/// What was written when encoding stopped: the headers, when the error
/// comes after them (the data being too short), else nothing.
pub open spec fn written_before(encoded: Result<Seq<u8>, BmpError>, header: Result<Seq<u8>, BmpError>) -> Seq<u8> {
    match (encoded, header) {
        (Err(BmpError::DataTooShort), Ok(h)) => h,
        _ => Seq::empty(),
    }
}

#[verifier::rlimit(40)]
/// Appends the bitmap of a BGRA8 frame to `out`: headers, then each row's
/// pixels as stored.
pub fn write_bgra_bmp(frame: &Frame, out: &mut Vec<u8>) -> (r: Result<(), BmpError>)
    ensures
        match bgra_bitmap(*frame) {
            Ok(b) => r is Ok && final(out)@ == old(out)@ + b,
            Err(e) => r == Err::<(), BmpError>(e) && (e != BmpError::DataTooShort ==> final(out)@ == old(out)@)
                && (e == BmpError::DataTooShort ==> final(out)@ == old(out)@ + bmp_header(
                    frame.meta.size.width as i32, -frame.meta.size.height as i32, 32, 0,
                    (frame.meta.size.width * 4 * frame.meta.size.height) as usize).unwrap()),
        },
{
    let width = match checked_i32(frame.meta.size.width) { Ok(v) => v, Err(e) => { return Err(e); } };
    let height = match checked_i32(frame.meta.size.height) { Ok(v) => v, Err(e) => { return Err(e); } };
    let row_bytes = match checked_row_bytes(frame.meta.size.width, 4) { Ok(v) => v, Err(e) => { return Err(e); } };
    let image_size = match checked_image_size(row_bytes, frame.meta.size.height) { Ok(v) => v, Err(e) => { return Err(e); } };
    match write_bmp_header(out, width, -height, 32, 0, image_size) { Ok(()) => {}, Err(e) => { return Err(e); } }
    if !rows_fit(frame.data.as_slice(), frame.meta.size, frame.stride, row_bytes) {
        return Err(BmpError::DataTooShort);
    }
    push_rows(out, frame.data.as_slice(), frame.stride, row_bytes, frame.meta.size.height as usize, row_bytes);
    Ok(())
}

/// Appends the gray palette.
fn push_gray_palette(out: &mut Vec<u8>)
    ensures final(out)@ == old(out)@ + gray_palette(),
{
    let ghost start = out@;
    let mut v: u32 = 0;
    while v < 256
        invariant
            v <= 256,
            out@ == start + gray_palette().take(4 * v),
        decreases 256 - v,
    {
        let b = v as u8;
        out.push(b);
        out.push(b);
        out.push(b);
        out.push(0u8);
        proof {
            assert(gray_palette().take(4 * (v + 1)) =~= gray_palette().take(4 * v) + seq![b, b, b, 0u8]);
        }
        v = v + 1;
    }
    assert(gray_palette().take(1024) =~= gray_palette());
}

#[verifier::rlimit(40)]
/// Appends the bitmap of a Gray8 frame to `out`: headers, the gray palette,
/// then each row's pixels padded with zeros to a multiple of four bytes.
pub fn write_gray_bmp(frame: &Frame, out: &mut Vec<u8>) -> (r: Result<(), BmpError>)
    ensures
        match gray_bitmap(*frame) {
            Ok(b) => r is Ok && final(out)@ == old(out)@ + b,
            Err(e) => r == Err::<(), BmpError>(e) && (e != BmpError::DataTooShort ==> final(out)@ == old(out)@)
                && (e == BmpError::DataTooShort ==> final(out)@ == old(out)@ + bmp_header(
                    frame.meta.size.width as i32, -frame.meta.size.height as i32, 8, 256,
                    (padded_len(frame.meta.size.width as int) * frame.meta.size.height) as usize).unwrap()
                    + gray_palette()),
        },
{
    let width = match checked_i32(frame.meta.size.width) { Ok(v) => v, Err(e) => { return Err(e); } };
    let height = match checked_i32(frame.meta.size.height) { Ok(v) => v, Err(e) => { return Err(e); } };
    let row_bytes = match padded_row_bytes(frame.meta.size.width) { Ok(v) => v, Err(e) => { return Err(e); } };
    let image_size = match checked_image_size(row_bytes, frame.meta.size.height) { Ok(v) => v, Err(e) => { return Err(e); } };
    match write_bmp_header(out, width, -height, 8, 256, image_size) { Ok(()) => {}, Err(e) => { return Err(e); } }
    push_gray_palette(out);
    let w = frame.meta.size.width as usize;
    if !rows_fit(frame.data.as_slice(), frame.meta.size, frame.stride, w) {
        return Err(BmpError::DataTooShort);
    }
    push_rows(out, frame.data.as_slice(), frame.stride, w, frame.meta.size.height as usize, row_bytes);
    Ok(())
}

/// Appends the bitmap of a frame to `out`: BGRA8 and Gray8 frames have one.
pub fn write_bmp(frame: &Frame, out: &mut Vec<u8>) -> (r: Result<(), BmpError>)
    ensures
        frame.format == PixelFormat::Bgra8 ==> (match bgra_bitmap(*frame) {
            Ok(b) => r is Ok && final(out)@ == old(out)@ + b,
            Err(e) => r == Err::<(), BmpError>(e),
        }),
        frame.format == PixelFormat::Gray8 ==> (match gray_bitmap(*frame) {
            Ok(b) => r is Ok && final(out)@ == old(out)@ + b,
            Err(e) => r == Err::<(), BmpError>(e),
        }),
        frame.format == PixelFormat::Yuyv422 ==> r == Err::<(), BmpError>(BmpError::UnsupportedFormat)
            && final(out)@ == old(out)@,
{
    match frame.format {
        PixelFormat::Bgra8 => write_bgra_bmp(frame, out),
        PixelFormat::Gray8 => write_gray_bmp(frame, out),
        PixelFormat::Yuyv422 => Err(BmpError::UnsupportedFormat),
    }
}

/// The little-endian `u32` held by bytes `at .. at + 4`.
pub open spec fn read_le_u32(b: Seq<u8>, at: int) -> int {
    b[at] + 256 * b[at + 1] + 65536 * b[at + 2] + 16777216 * b[at + 3]
}

proof fn lemma_le_u32_reads_back(v: u32)
    ensures read_le_u32(le_u32(v), 0) == v,
{
    let b = le_u32(v);
    assert(b[0] == v % 256);
    assert(b[1] == v / 256 % 256);
    assert(b[2] == v / 65536 % 256);
    assert(b[3] == v / 16777216);
    assert(v == v % 256 + 256 * (v / 256 % 256) + 65536 * (v / 65536 % 256) + 16777216 * (v / 16777216)) by (nonlinear_arith)
        requires v <= u32::MAX;
}

proof fn lemma_header_fields(width: i32, height: i32, bits_per_pixel: u16, palette_entries: u32, image_size: usize)
    requires header_error(palette_entries, image_size) is None,
    ensures ({
        let h = header_bytes(width, height, bits_per_pixel, palette_entries, image_size);
        &&& h.len() == 54
        &&& read_le_u32(h, 2) == 54 + palette_entries * 4 + image_size
        &&& read_le_u32(h, 10) == 54 + palette_entries * 4
    }),
{
    reveal(header_bytes);
    let h = header_bytes(width, height, bits_per_pixel, palette_entries, image_size);
    let file_size = (54 + palette_entries * 4 + image_size) as u32;
    let offset = (54 + palette_entries * 4) as u32;
    lemma_le_u32_reads_back(file_size);
    lemma_le_u32_reads_back(offset);
    assert(h.subrange(2, 6) =~= le_u32(file_size));
    assert(h.subrange(10, 14) =~= le_u32(offset));
    assert(read_le_u32(h, 2) == read_le_u32(h.subrange(2, 6), 0));
    assert(read_le_u32(h, 10) == read_le_u32(h.subrange(10, 14), 0));
}

proof fn lemma_gray_size_fields(frame: Frame)
    ensures
        gray_bitmap(frame) matches Ok(b) ==> read_le_u32(b, 2) == b.len() && read_le_u32(b, 10) == 54 + 1024,
{
    let w = frame.meta.size.width;
    let h = frame.meta.size.height;
    if gray_bitmap(frame) is Ok {
        let row_len = padded_len(w as int);
        let image_size = (row_len * h) as usize;
        assert(row_len >= 0);
        assert(row_len * h >= 0) by (nonlinear_arith) requires row_len >= 0, h >= 0;
        lemma_header_fields(w as i32, -h as i32, 8, 256, image_size);
        let hd = header_bytes(w as i32, -h as i32, 8, 256, image_size);
        let b = hd + gray_palette() + bitmap_rows(frame.data@, frame.stride as int, w as int, h as int, row_len);
        assert(read_le_u32(b, 2) == read_le_u32(hd, 2));
        assert(read_le_u32(b, 10) == read_le_u32(hd, 10));
    }
}

proof fn lemma_bgra_size_fields(frame: Frame)
    ensures
        bgra_bitmap(frame) matches Ok(b) ==> read_le_u32(b, 2) == b.len() && read_le_u32(b, 10) == 54,
{
    let w = frame.meta.size.width;
    let h = frame.meta.size.height;
    if bgra_bitmap(frame) is Ok {
        let row_len = w * 4;
        let image_size = (row_len * h) as usize;
        assert(row_len * h >= 0) by (nonlinear_arith) requires row_len >= 0, h >= 0;
        lemma_header_fields(w as i32, -h as i32, 32, 0, image_size);
        let hd = header_bytes(w as i32, -h as i32, 32, 0, image_size);
        let b = hd + bitmap_rows(frame.data@, frame.stride as int, row_len, h as int, row_len);
        assert(read_le_u32(b, 2) == read_le_u32(hd, 2));
        assert(read_le_u32(b, 10) == read_le_u32(hd, 10));
    }
}

/// The size field of an encoded bitmap holds the file's length, and its
/// pixel-offset field the length of the headers and palette.
pub proof fn lemma_bitmap_size_fields(frame: Frame)
    ensures
        gray_bitmap(frame) matches Ok(b) ==> read_le_u32(b, 2) == b.len() && read_le_u32(b, 10) == 54 + 1024,
        bgra_bitmap(frame) matches Ok(b) ==> read_le_u32(b, 2) == b.len() && read_le_u32(b, 10) == 54,
{
    lemma_gray_size_fields(frame);
    lemma_bgra_size_fields(frame);
}

} // verus!
