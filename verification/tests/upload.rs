use tron::frame::{Frame, FrameMeta, PixelFormat, SensorKind};
use tron::geometry::Size;
use tron::upload::{needs_texture, texture_data, TextureSource, UploadError};

fn frame(data: &[u8], width: u32, height: u32, format: PixelFormat, stride: usize) -> Frame {
    Frame {
        meta: FrameMeta {
            id: 1,
            sensor: SensorKind::Ir,
            size: Size { width, height },
            sequence: None,
            camera_monotonic_us: None,
            received_at_us: 0,
        },
        format,
        stride,
        data: data.to_vec(),
    }
}

#[test]
fn gray_frames_are_widened_into_the_scratch_buffer() {
    let mut scratch = vec![7u8; 3];
    let f = frame(&[10, 20], 2, 1, PixelFormat::Gray8, 2);
    assert_eq!(texture_data(&f, &mut scratch), Ok((TextureSource::Scratch, 8)));
    assert_eq!(scratch, vec![10, 10, 10, 255, 20, 20, 20, 255]);
    let short = frame(&[5], 2, 1, PixelFormat::Gray8, 2);
    let mut scratch = vec![1u8; 8];
    texture_data(&short, &mut scratch).unwrap();
    assert_eq!(scratch, vec![5, 5, 5, 255, 1, 1, 1, 1]);
}

#[test]
fn bgra_frames_go_as_they_are_when_tight() {
    let mut scratch = vec![9u8];
    let f = frame(&[0; 8], 2, 1, PixelFormat::Bgra8, 8);
    assert_eq!(texture_data(&f, &mut scratch), Ok((TextureSource::FrameData, 8)));
    assert_eq!(scratch, vec![9]);
    let padded = frame(&[0; 12], 2, 1, PixelFormat::Bgra8, 12);
    assert_eq!(texture_data(&padded, &mut scratch), Err(UploadError::BgraNotTight));
    let gray = frame(&[0; 3], 2, 1, PixelFormat::Gray8, 3);
    assert_eq!(texture_data(&gray, &mut scratch), Err(UploadError::GrayNotTight));
    let yuyv = frame(&[0; 4], 2, 1, PixelFormat::Yuyv422, 4);
    assert_eq!(texture_data(&yuyv, &mut scratch), Err(UploadError::Yuyv422));
}

#[test]
fn textures_are_remade_on_size_changes() {
    let s = Size { width: 2, height: 3 };
    assert!(needs_texture(None, s));
    assert!(!needs_texture(Some(s), s));
    assert!(needs_texture(Some(Size { width: 3, height: 3 }), s));
}
