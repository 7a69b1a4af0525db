use tron::anchors::{generate_palm_anchors, generate_palm_anchors_for_strides, AnchorCell};
use tron::frame::{Frame, FrameError, FrameMeta, PixelFormat, SensorKind};
use tron::geometry::Size;
use tron::projection::{bgra_at, check_projection_sizes, gray_at, project_frame, FrameProjectionMap, ProjectionSizeError};

#[test]
fn palm_anchor_count_matches_model() {
    assert_eq!(generate_palm_anchors(256, 2944).len(), 2944);
    assert_eq!(generate_palm_anchors(192, 2016).len(), 2016);
}

#[test]
fn anchor_cells_run_row_by_row_two_a_cell() {
    let a = generate_palm_anchors_for_strides(16, &[8]);
    assert_eq!(a.len(), 8);
    assert_eq!(a[0], AnchorCell { x: 0, y: 0, grid: 2 });
    assert_eq!(a[1], AnchorCell { x: 0, y: 0, grid: 2 });
    assert_eq!(a[2], AnchorCell { x: 1, y: 0, grid: 2 });
    assert_eq!(a[7], AnchorCell { x: 1, y: 1, grid: 2 });
    assert_eq!(generate_palm_anchors_for_strides(17, &[8]).len(), 18);
    assert_eq!(generate_palm_anchors(256, 7).len(), 2944);
}

fn frame(data: &[u8], width: u32, height: u32, format: PixelFormat, stride: usize) -> Frame {
    Frame {
        meta: FrameMeta {
            id: 3,
            sensor: SensorKind::Ir,
            size: Size { width, height },
            sequence: Some(9),
            camera_monotonic_us: None,
            received_at_us: 0,
        },
        format,
        stride,
        data: data.to_vec(),
    }
}

#[test]
fn pixels_read_as_gray_and_bgra() {
    assert_eq!(gray_at(&[10, 20, 30, 40], PixelFormat::Bgra8, 0), Ok(20));
    assert_eq!(gray_at(&[10, 20], PixelFormat::Gray8, 1), Ok(20));
    assert_eq!(gray_at(&[10, 20], PixelFormat::Gray8, 2), Err(FrameError::PixelOutsideRow));
    assert_eq!(gray_at(&[10, 20], PixelFormat::Yuyv422, 0), Err(FrameError::UnsupportedFormat));
    assert_eq!(bgra_at(&[7, 8], PixelFormat::Gray8, 1), Ok([8, 8, 8, 255]));
    assert_eq!(bgra_at(&[1, 2, 3, 4, 5, 6, 7, 8], PixelFormat::Bgra8, 1), Ok([5, 6, 7, 8]));
    assert_eq!(bgra_at(&[1, 2, 3], PixelFormat::Bgra8, 0), Err(FrameError::PixelOutsideRow));
}

#[test]
fn projection_looks_up_each_output_pixel() {
    let f = frame(&[1, 2, 3, 4, 5, 6], 3, 2, PixelFormat::Gray8, 3);
    let map = FrameProjectionMap {
        input_size: Size { width: 3, height: 2 },
        output_size: Size { width: 2, height: 2 },
        sources: vec![Some((2, 1)), None, Some((0, 0)), Some((1, 1))],
    };
    let out = project_frame(&f, &map).unwrap();
    assert_eq!(out.data, vec![6, 0, 1, 5]);
    assert_eq!(out.format, PixelFormat::Gray8);
    assert_eq!(out.stride, 2);
    assert_eq!(out.meta.size, Size { width: 2, height: 2 });
    assert_eq!(out.meta.sequence, Some(9));
    let bad = FrameProjectionMap { sources: vec![None, Some((0, 5)), Some((9, 0)), None], ..map };
    assert_eq!(project_frame(&f, &bad).unwrap_err(), FrameError::RowOutsideView);
    assert_eq!(check_projection_sizes(Size { width: 3, height: 2 }, &bad, Size { width: 2, height: 2 }), Ok(()));
    assert_eq!(
        check_projection_sizes(Size { width: 4, height: 2 }, &bad, Size { width: 2, height: 2 }),
        Err(ProjectionSizeError::InputSizeMismatch)
    );
    assert_eq!(
        check_projection_sizes(Size { width: 3, height: 2 }, &bad, Size { width: 1, height: 2 }),
        Err(ProjectionSizeError::OutputSizeMismatch)
    );
}
