use tron::bitmap::{checked_i32, checked_image_size, checked_row_bytes, padded_row_bytes, write_bmp, write_bmp_header, BmpError};
use tron::frame::{Frame, FrameMeta, PixelFormat, SensorKind};
use tron::geometry::Size;

fn frame(data: &[u8], width: u32, height: u32, format: PixelFormat, stride: usize) -> Frame {
    Frame {
        meta: FrameMeta {
            id: 1,
            sensor: SensorKind::Rgb,
            size: Size { width, height },
            sequence: None,
            camera_monotonic_us: None,
            received_at_us: 0,
        },
        format,
        stride,
        data: data.to_vec(),
    }
}

fn le32(b: &[u8], at: usize) -> u32 {
    u32::from_le_bytes([b[at], b[at + 1], b[at + 2], b[at + 3]])
}

#[test]
fn header_fields_are_little_endian() {
    let mut out = Vec::new();
    write_bmp_header(&mut out, 3, -2, 32, 0, 24).unwrap();
    assert_eq!(out.len(), 54);
    assert_eq!(&out[0..2], b"BM");
    assert_eq!(le32(&out, 2), 78);
    assert_eq!(le32(&out, 10), 54);
    assert_eq!(le32(&out, 14), 40);
    assert_eq!(le32(&out, 18), 3);
    assert_eq!(le32(&out, 22) as i32, -2);
    assert_eq!(u16::from_le_bytes([out[26], out[27]]), 1);
    assert_eq!(u16::from_le_bytes([out[28], out[29]]), 32);
    assert_eq!(le32(&out, 34), 24);
}

#[test]
fn header_overflows_are_refused() {
    let mut out = Vec::new();
    assert_eq!(write_bmp_header(&mut out, 1, 1, 8, u32::MAX, 0), Err(BmpError::PaletteOverflow));
    assert_eq!(write_bmp_header(&mut out, 1, 1, 8, 0, u32::MAX as usize), Err(BmpError::FileSizeOverflow));
    assert!(out.is_empty());
}

#[test]
fn size_helpers() {
    assert_eq!(checked_i32(5), Ok(5));
    assert_eq!(checked_i32(u32::MAX), Err(BmpError::DimensionTooLarge));
    assert_eq!(checked_row_bytes(3, 4), Ok(12));
    assert_eq!(padded_row_bytes(5), Ok(8));
    assert_eq!(padded_row_bytes(8), Ok(8));
    assert_eq!(padded_row_bytes(0), Ok(0));
    assert_eq!(checked_image_size(8, 3), Ok(24));
    assert_eq!(checked_image_size(usize::MAX, 2), Err(BmpError::ImageSizeOverflow));
}

#[test]
fn bgra_bitmap_copies_rows() {
    let f = frame(&[1, 2, 3, 4, 9, 9, 5, 6, 7, 8, 9, 9], 1, 2, PixelFormat::Bgra8, 6);
    let mut out = Vec::new();
    write_bmp(&f, &mut out).unwrap();
    assert_eq!(out.len(), 54 + 8);
    assert_eq!(&out[54..], &[1, 2, 3, 4, 5, 6, 7, 8]);
}

#[test]
fn gray_bitmap_has_a_palette_and_padded_rows() {
    let f = frame(&[10, 20, 30, 40, 50, 60], 3, 2, PixelFormat::Gray8, 3);
    let mut out = Vec::new();
    write_bmp(&f, &mut out).unwrap();
    assert_eq!(out.len(), 54 + 1024 + 8);
    assert_eq!(&out[54 + 4 * 7..54 + 4 * 8], &[7, 7, 7, 0]);
    assert_eq!(&out[54 + 1024..], &[10, 20, 30, 0, 40, 50, 60, 0]);
    assert_eq!(le32(&out, 10), 54 + 1024);
    assert_eq!(le32(&out, 46), 256);
}

#[test]
fn unsupported_and_short_frames() {
    let mut out = Vec::new();
    let f = frame(&[0; 8], 2, 2, PixelFormat::Yuyv422, 4);
    assert_eq!(write_bmp(&f, &mut out), Err(BmpError::UnsupportedFormat));
    assert!(out.is_empty());
    let short = frame(&[0; 3], 2, 2, PixelFormat::Gray8, 2);
    assert_eq!(write_bmp(&short, &mut out), Err(BmpError::DataTooShort));
    assert_eq!(out.len(), 54 + 1024);
}
