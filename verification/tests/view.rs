use tron::frame::{Frame, FrameMeta, PixelFormat, SensorKind};
use tron::geometry::{Rect, Size};

fn frame(data: &[u8]) -> Frame {
    Frame {
        meta: FrameMeta {
            id: 1,
            sensor: SensorKind::Ir,
            size: Size { width: 4, height: 3 },
            sequence: None,
            camera_monotonic_us: None,
            received_at_us: 0,
        },
        format: PixelFormat::Gray8,
        stride: 4,
        data: data.to_vec(),
    }
}

#[test]
fn roi_exposes_strided_rows_without_copying() {
    let data = [0, 1, 2, 3, 10, 11, 12, 13, 20, 21, 22, 23];
    let f = frame(&data);
    let view = f
        .view()
        .roi(Rect { x: 1, y: 1, size: Size { width: 2, height: 2 } })
        .unwrap();

    assert_eq!(view.size, Size { width: 2, height: 2 });
    assert_eq!(view.stride, 4);
    assert_eq!(view.row(0).unwrap(), &[11, 12]);
    assert_eq!(view.row(1).unwrap(), &[21, 22]);
    assert_eq!(view.rows(), vec![&[11, 12][..], &[21, 22][..]]);
}

#[test]
fn roi_rejects_out_of_bounds_rect() {
    let data = [0; 12];
    let f = frame(&data);
    let err = f
        .view()
        .roi(Rect { x: 3, y: 1, size: Size { width: 2, height: 1 } })
        .unwrap_err();
    assert!(err.to_string().contains("outside view size"));
}

#[test]
fn row_past_the_height_is_refused() {
    let data = [0; 12];
    let f = frame(&data);
    let view = f.view();
    assert_eq!(view.row(3), Err(tron::frame::FrameError::RowOutsideView));
}

#[test]
fn roi_of_yuyv_has_no_byte_width() {
    let mut f = frame(&[0; 24]);
    f.format = PixelFormat::Yuyv422;
    let err = f.view().roi(Rect { x: 0, y: 0, size: Size { width: 2, height: 1 } }).unwrap_err();
    assert_eq!(err, tron::frame::FrameError::NoBytesPerPixel);
}

#[test]
fn roi_on_short_data_is_refused() {
    let f = frame(&[0; 8]);
    let err = f.view().roi(Rect { x: 0, y: 1, size: Size { width: 4, height: 2 } }).unwrap_err();
    assert_eq!(err, tron::frame::FrameError::DataTooShort);
}

#[test]
fn rows_stop_where_the_data_ends() {
    let f = frame(&[1, 2, 3, 4, 5, 6, 7, 8, 9]);
    let rows = f.view().rows();
    assert_eq!(rows, vec![&[1, 2, 3, 4][..], &[5, 6, 7, 8][..]]);
}
