use tron::exposure::{largest_histogram_rect, ClippedExposureRoiConfig, ClippedExposureRoiDetector, InteriorRect};
use tron::frame::{Frame, FrameError, FrameMeta, PixelFormat, SensorKind};
use tron::geometry::{Rect, Size};

fn frame(data: &[u8], width: u32, height: u32) -> Frame {
    Frame {
        meta: FrameMeta {
            id: 1,
            sensor: SensorKind::Ir,
            size: Size { width, height },
            sequence: None,
            camera_monotonic_us: None,
            received_at_us: 0,
        },
        format: PixelFormat::Gray8,
        stride: width as usize,
        data: data.to_vec(),
    }
}

#[test]
fn detects_clipped_pixels_inside_candidate_roi() {
    let data = [
        0, 0, 0, 0, 0, 0, //
        0, 0, 0, 0, 0, 0, //
        0, 0, 251, 252, 0, 0, //
        0, 0, 253, 254, 0, 0, //
        0, 0, 0, 0, 0, 0, //
    ];
    let frame = frame(&data, 6, 5);
    let mut detector = ClippedExposureRoiDetector::new(ClippedExposureRoiConfig {
        threshold: 250,
        min_pixels: 4,
        padding: 0,
    });

    let roi = detector
        .detect(&frame, Some(Rect { x: 1, y: 1, size: Size { width: 4, height: 4 } }))
        .unwrap()
        .unwrap();

    assert_eq!(roi, Rect { x: 2, y: 2, size: Size { width: 2, height: 2 } });
}

#[test]
fn chooses_interior_rect_instead_of_clipped_bounding_box() {
    let data = [
        0, 0, 0, 0, 0, 0, //
        0, 251, 251, 251, 0, 0, //
        0, 251, 251, 251, 0, 0, //
        0, 251, 251, 251, 0, 253, //
        0, 0, 0, 0, 0, 253, //
    ];
    let frame = frame(&data, 6, 5);
    let mut detector = ClippedExposureRoiDetector::new(ClippedExposureRoiConfig {
        threshold: 250,
        min_pixels: 4,
        padding: 0,
    });

    let roi = detector.detect(&frame, None).unwrap().unwrap();

    assert_eq!(roi, Rect { x: 1, y: 1, size: Size { width: 3, height: 3 } });
}

#[test]
fn too_few_clipped_pixels_give_nothing() {
    let data = [0, 255, 255, 0];
    let mut detector = ClippedExposureRoiDetector::new(ClippedExposureRoiConfig::default());
    assert_eq!(detector.detect(&frame(&data, 2, 2), None).unwrap(), None);
}

#[test]
fn no_clipped_pixel_gives_nothing_even_with_no_minimum() {
    let data = [0, 1, 2, 3];
    let mut detector = ClippedExposureRoiDetector::new(ClippedExposureRoiConfig { threshold: 250, min_pixels: 0, padding: 0 });
    assert_eq!(detector.detect(&frame(&data, 2, 2), None).unwrap(), None);
}

#[test]
fn padding_grows_the_region_inside_the_frame() {
    let data = [
        0, 0, 0, 0, //
        0, 255, 255, 0, //
        0, 0, 0, 0, //
    ];
    let mut detector = ClippedExposureRoiDetector::new(ClippedExposureRoiConfig { threshold: 250, min_pixels: 1, padding: 5 });
    let roi = detector.detect(&frame(&data, 4, 3), None).unwrap().unwrap();
    assert_eq!(roi, Rect { x: 0, y: 0, size: Size { width: 4, height: 3 } });
}

#[test]
fn detector_refuses_other_formats_and_short_data() {
    let mut detector = ClippedExposureRoiDetector::new(ClippedExposureRoiConfig::default());
    let mut f = frame(&[0; 4], 2, 2);
    f.format = PixelFormat::Bgra8;
    assert_eq!(detector.detect(&f, None), Err(FrameError::UnsupportedFormat));
    let short = frame(&[0; 3], 2, 2);
    assert_eq!(detector.detect(&short, None), Err(FrameError::DataTooShort));
}

#[test]
fn histogram_finds_the_largest_rectangle() {
    let mut stack = Vec::new();
    let r = largest_histogram_rect(&[2, 1, 5, 6, 2, 3], 9, &mut stack).unwrap();
    assert_eq!(r.area(), 10);
    assert_eq!((r.x, r.width, r.height), (2, 2, 5));
    assert_eq!(r.y, 5);
    assert_eq!(largest_histogram_rect(&[0, 0, 0], 3, &mut stack), None);
    assert_eq!(largest_histogram_rect(&[], 3, &mut stack), None);
}

#[test]
fn area_saturates() {
    let r = InteriorRect { x: 0, y: 0, width: u32::MAX, height: 2 };
    assert_eq!(r.area(), u32::MAX);
    let r = InteriorRect { x: 0, y: 0, width: 3, height: 4 };
    assert_eq!(r.area(), 12);
}

#[test]
fn default_exposure_config() {
    let c = ClippedExposureRoiConfig::default();
    assert_eq!((c.threshold, c.min_pixels, c.padding), (250, 16, 0));
}

#[test]
fn equal_rectangles_go_to_the_first_scanned() {
    // Two 2x2 blocks: the upper one ends on an earlier row and wins.
    let data = [
        0, 0, 0, 0, 0, 255, 255, 0, //
        0, 0, 0, 0, 0, 255, 255, 0, //
        255, 255, 0, 0, 0, 0, 0, 0, //
        255, 255, 0, 0, 0, 0, 0, 0, //
    ];
    let blocks = frame(&data, 8, 4);
    let mut detector = ClippedExposureRoiDetector::new(ClippedExposureRoiConfig { threshold: 250, min_pixels: 1, padding: 0 });
    let roi = detector.detect(&blocks, None).unwrap().unwrap();
    assert_eq!(roi, Rect { x: 5, y: 0, size: Size { width: 2, height: 2 } });

    // Two 3x1 runs on one row: the left one closes first and wins.
    let data = [255, 255, 255, 0, 0, 255, 255, 255];
    let runs = frame(&data, 8, 1);
    let roi = detector.detect(&runs, None).unwrap().unwrap();
    assert_eq!(roi, Rect { x: 0, y: 0, size: Size { width: 3, height: 1 } });
}

#[test]
fn histogram_ties_go_to_the_taller_bar_closing_first() {
    let mut stack = Vec::new();
    assert_eq!(
        largest_histogram_rect(&[1, 2], 5, &mut stack),
        Some(InteriorRect { x: 1, y: 4, width: 1, height: 2 })
    );
    assert_eq!(
        largest_histogram_rect(&[2, 0, 2], 0, &mut stack),
        Some(InteriorRect { x: 0, y: 0, width: 1, height: 2 })
    );
}
