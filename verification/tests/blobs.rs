use tron::blobs::{best_candidate, BlobError, ComponentStats, OpenCvRoiConfig, OpenCvRoiDetector, RoiCandidate};
use tron::frame::{Frame, FrameMeta, PixelFormat, SensorKind};
use tron::geometry::{Rect, Size};

fn frame(data: &[u8], width: u32, height: u32, stride: usize) -> Frame {
    Frame {
        meta: FrameMeta {
            id: 1,
            sensor: SensorKind::Ir,
            size: Size { width, height },
            sequence: None,
            camera_monotonic_us: None,
            received_at_us: 0,
        },
        format: PixelFormat::Gray8,
        stride,
        data: data.to_vec(),
    }
}

#[test]
fn packs_strided_rows() {
    let mut d = OpenCvRoiDetector::new(OpenCvRoiConfig::default());
    let f = frame(&[1, 2, 0, 3, 4, 0], 2, 2, 3);
    assert_eq!(d.pack(&f).unwrap(), &[1, 2, 3, 4]);
    let empty = frame(&[], 0, 2, 0);
    assert_eq!(d.pack(&empty).unwrap_err(), BlobError::Empty);
}

#[test]
fn candidates_are_padded_and_filtered() {
    let config = OpenCvRoiConfig { threshold: 24, min_area: 10, max_area: Some(100), padding: 2 };
    let d = OpenCvRoiDetector::new(config);
    let bounds = Size { width: 50, height: 40 };
    let stats = [
        ComponentStats { left: 0, top: 0, width: 50, height: 40, area: 1000 },
        ComponentStats { left: 5, top: 6, width: 4, height: 3, area: 12 },
        ComponentStats { left: 1, top: 1, width: 2, height: 2, area: 4 },
        ComponentStats { left: 48, top: 38, width: 2, height: 2, area: 101 },
        ComponentStats { left: -3, top: 30, width: 5, height: 20, area: 50 },
    ];
    let c = d.candidates(&stats, bounds);
    assert_eq!(
        c,
        vec![
            RoiCandidate { rect: Rect { x: 3, y: 4, size: Size { width: 8, height: 7 } }, area: 12 },
            RoiCandidate { rect: Rect { x: 0, y: 28, size: Size { width: 7, height: 12 } }, area: 50 },
        ]
    );
    assert_eq!(best_candidate(&c), Some(c[1]));
    assert_eq!(best_candidate(&[]), None);
}

#[test]
fn best_candidate_prefers_the_last_of_equals() {
    let a = RoiCandidate { rect: Rect { x: 0, y: 0, size: Size { width: 1, height: 1 } }, area: 5 };
    let b = RoiCandidate { rect: Rect { x: 9, y: 9, size: Size { width: 1, height: 1 } }, area: 5 };
    assert_eq!(best_candidate(&[a, b]), Some(b));
}

#[test]
fn default_blob_config() {
    let c = OpenCvRoiConfig::default();
    assert_eq!((c.threshold, c.min_area, c.max_area, c.padding), (24, 128, None, 16));
}
