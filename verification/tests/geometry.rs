use tron::control::{CameraRoiFollowConfig, CameraRoiFollowProcessor};
use tron::geometry::{clamp_rect, expand_to_min_edge, padded_rect, Rect, Size};

fn rect(x: u32, y: u32, width: u32, height: u32) -> Rect {
    Rect { x, y, size: Size { width, height } }
}

#[test]
fn expands_roi_inside_allowed_bounds() {
    let r = expand_to_min_edge(
        Rect { x: 95, y: 95, size: Size { width: 5, height: 5 } },
        40,
        Rect { x: 80, y: 80, size: Size { width: 50, height: 50 } },
    );

    assert_eq!(r, Rect { x: 80, y: 80, size: Size { width: 40, height: 40 } });
}

#[test]
fn clamp_cuts_to_the_frame() {
    assert_eq!(clamp_rect(rect(5, 5, 10, 10), Size { width: 8, height: 20 }), rect(5, 5, 3, 10));
    assert_eq!(clamp_rect(rect(50, 1, 10, 10), Size { width: 8, height: 20 }), rect(8, 1, 0, 10));
}

#[test]
fn padding_stops_at_the_edges() {
    assert_eq!(padded_rect(rect(2, 3, 4, 4), 5, Size { width: 10, height: 9 }), rect(0, 0, 10, 9));
    assert_eq!(padded_rect(rect(20, 20, 4, 4), 1, Size { width: 100, height: 100 }), rect(19, 19, 6, 6));
}

#[test]
fn follower_keeps_the_roi_in_the_allowed_bounds() {
    let mut p = CameraRoiFollowProcessor::new(CameraRoiFollowConfig { min_edge: 10 });
    let out = p.process(Some(rect(0, 0, 2, 2)), Some(rect(20, 20, 30, 30)), Size { width: 100, height: 100 });
    assert_eq!(out, Some(rect(20, 20, 10, 10)));
    assert_eq!(p.process(None, None, Size { width: 100, height: 100 }), None);
    let whole = p.process(Some(rect(95, 95, 1, 1)), None, Size { width: 100, height: 100 });
    assert_eq!(whole, Some(rect(90, 90, 10, 10)));
}

/// The region scaled by the ratio of the frame sizes, around its scaled centre.
fn map_rect(rect: Rect, source_size: Size, target_size: Size) -> Rect {
    let sx = target_size.width as f32 / source_size.width.max(1) as f32;
    let sy = target_size.height as f32 / source_size.height.max(1) as f32;
    let cx = (rect.x as f32 + rect.size.width as f32 * 0.5) * sx;
    let cy = (rect.y as f32 + rect.size.height as f32 * 0.5) * sy;
    let width = (rect.size.width as f32 * sx).round().max(1.0) as u32;
    let height = (rect.size.height as f32 * sy).round().max(1.0) as u32;
    let x = (cx - width as f32 * 0.5).round().max(0.0) as u32;
    let y = (cy - height as f32 * 0.5).round().max(0.0) as u32;
    Rect { x, y, size: Size { width, height } }
}

#[test]
fn maps_roi_center_between_frame_sizes() {
    let mut processor = CameraRoiFollowProcessor::new(CameraRoiFollowConfig { min_edge: 1 });
    let source_size = Size { width: 200, height: 100 };
    let target_size = Size { width: 400, height: 200 };
    let mapped = map_rect(rect(100, 50, 20, 10), source_size, target_size);
    let out = processor.process(Some(mapped), None, target_size).unwrap();
    assert_eq!(out.x + out.size.width / 2, 220);
    assert_eq!(out.y + out.size.height / 2, 110);
}
