use tron::frame::{row_bytes, Frame, FrameError, FrameMeta, PixelFormat, SensorKind};
use tron::geometry::Size;
use tron::mirror::{mirror_frame_into, source_y, MirrorMode};

fn frame(data: &[u8], width: u32, height: u32, format: PixelFormat) -> Frame {
    let stride = row_bytes(format, width).unwrap();
    Frame {
        meta: FrameMeta {
            id: 1,
            sensor: SensorKind::Ir,
            size: Size { width, height },
            sequence: None,
            camera_monotonic_us: None,
            received_at_us: 0,
        },
        format,
        stride,
        data: data.to_vec(),
    }
}

#[test]
fn mirrors_gray8_horizontally() {
    let data = [1, 2, 3, 4, 5, 6];
    let mut output = None;
    mirror_frame_into(&frame(&data, 3, 2, PixelFormat::Gray8), MirrorMode::Horizontal, &mut output).unwrap();

    assert_eq!(output.unwrap().data, vec![3, 2, 1, 6, 5, 4]);
}

#[test]
fn mirrors_bgra8_vertically() {
    let data = [
        1, 2, 3, 4, 5, 6, 7, 8, //
        9, 10, 11, 12, 13, 14, 15, 16,
    ];
    let mut output = None;
    mirror_frame_into(&frame(&data, 2, 2, PixelFormat::Bgra8), MirrorMode::Vertical, &mut output).unwrap();

    assert_eq!(
        output.unwrap().data,
        vec![9, 10, 11, 12, 13, 14, 15, 16, 1, 2, 3, 4, 5, 6, 7, 8]
    );
}

#[test]
fn mirrors_yuyv422_horizontally() {
    let data = [
        10, 20, 30, 40, 50, 60, 70, 80, //
        11, 21, 31, 41, 51, 61, 71, 81,
    ];
    let mut output = None;
    mirror_frame_into(&frame(&data, 4, 2, PixelFormat::Yuyv422), MirrorMode::Horizontal, &mut output).unwrap();

    assert_eq!(
        output.unwrap().data,
        vec![70, 60, 50, 80, 30, 20, 10, 40, 71, 61, 51, 81, 31, 21, 11, 41]
    );
}

#[test]
fn mirroring_twice_gives_the_frame_back() {
    let data = [1, 2, 3, 4, 5, 6, 7, 8, 9, 10, 11, 12];
    for mode in [MirrorMode::Horizontal, MirrorMode::Vertical, MirrorMode::HorizontalAndVertical] {
        let mut once = None;
        mirror_frame_into(&frame(&data, 3, 4, PixelFormat::Gray8), mode, &mut once).unwrap();
        let once = once.unwrap();
        let mut twice = None;
        mirror_frame_into(&once, mode, &mut twice).unwrap();
        assert_eq!(twice.unwrap().data, data.to_vec());
    }
}

#[test]
fn mirrors_both_axes() {
    let data = [1, 2, 3, 4];
    let mut output = None;
    mirror_frame_into(&frame(&data, 2, 2, PixelFormat::Gray8), MirrorMode::HorizontalAndVertical, &mut output).unwrap();
    assert_eq!(output.unwrap().data, vec![4, 3, 2, 1]);
}

#[test]
fn odd_yuyv_width_is_refused() {
    let data = [0u8; 6];
    let mut output = None;
    let err = mirror_frame_into(&frame(&data, 3, 1, PixelFormat::Yuyv422), MirrorMode::Horizontal, &mut output).unwrap_err();
    assert_eq!(err, FrameError::OddYuyvWidth);
}

#[test]
fn short_data_is_refused() {
    let mut f = frame(&[1, 2, 3, 4, 5, 6], 3, 2, PixelFormat::Gray8);
    f.data.truncate(5);
    let mut output = None;
    let err = mirror_frame_into(&f, MirrorMode::Vertical, &mut output).unwrap_err();
    assert_eq!(err, FrameError::DataTooShort);
}

#[test]
fn strided_rows_are_packed() {
    let mut f = frame(&[1, 2, 0, 3, 4, 0], 2, 2, PixelFormat::Gray8);
    f.stride = 3;
    let mut output = None;
    mirror_frame_into(&f, MirrorMode::Horizontal, &mut output).unwrap();
    let out = output.unwrap();
    assert_eq!(out.stride, 2);
    assert_eq!(out.data, vec![2, 1, 4, 3]);
}

#[test]
fn source_rows_flip_only_vertically() {
    assert_eq!(source_y(0, 5, MirrorMode::Vertical), 4);
    assert_eq!(source_y(0, 5, MirrorMode::Horizontal), 0);
    assert!(MirrorMode::HorizontalAndVertical.horizontal());
    assert!(!MirrorMode::Horizontal.vertical());
}
