use tron::camera_stats::{CameraStatsProcessor, FpsWindow, FrameThrottle};
use tron::control::LeftButton;
use tron::frame::{FrameMeta, SensorKind};
use tron::geometry::Size;

fn meta(id: u64, cam: Option<i64>, received_at_us: u64) -> FrameMeta {
    FrameMeta {
        id,
        sensor: SensorKind::Rgb,
        size: Size { width: 4, height: 4 },
        sequence: Some(id * 10),
        camera_monotonic_us: cam,
        received_at_us,
    }
}

#[test]
fn camera_stats_track_frame_deltas_and_rate() {
    let mut p = CameraStatsProcessor::new(0);
    let m = p.process(Some(&meta(1, Some(100), 1_000)), 1_500);
    assert_eq!(m.frame_delta_us, None);
    assert_eq!(m.age_us, Some(500));
    assert_eq!(m.frame_id, Some(1));
    assert_eq!(m.sequence, Some(10));
    let m = p.process(Some(&meta(2, Some(33_433), 34_000)), 34_100);
    assert_eq!(m.frame_delta_us, Some(33_333));
    let m = p.process(Some(&meta(2, Some(33_433), 34_000)), 500_000);
    assert_eq!(m.frame_delta_us, Some(33_333));
    let m = p.process(Some(&meta(3, None, 70_000)), 1_000_000);
    assert_eq!(m.frame_delta_us, Some(36_000));
    assert_eq!(m.fps_window, Some(FpsWindow { frames: 3, elapsed_us: 1_000_000 }));
    let none = p.process(None, 1_100_000);
    assert_eq!(none.frame_id, None);
    assert_eq!(none.fps_window, Some(FpsWindow { frames: 3, elapsed_us: 1_000_000 }));
    assert_eq!(none.frame_delta_us, Some(36_000));
}

#[test]
fn throttle_drops_frames_inside_the_interval() {
    let mut t = FrameThrottle::new(Some(50_000));
    assert!(t.admits(0));
    t.passed(0);
    assert!(!t.admits(20_000));
    assert!(!t.admits(45_000));
    assert!(t.admits(50_000));
    let free = FrameThrottle::unlimited();
    assert!(free.admits(0));
}

#[test]
fn left_button_changes_once() {
    let mut b = LeftButton::new();
    assert_eq!(b.change(false), None);
    assert_eq!(b.change(true), Some(1));
    b.set(true);
    assert_eq!(b.change(true), None);
    assert_eq!(b.change(false), Some(0));
}

/// A throttled source as the capture loop drives it: a frame read while the
/// throttle refuses it is dropped; `None` stands for a dropped frame.
struct ThrottledIds {
    throttle: FrameThrottle,
    next_id: u64,
}

impl ThrottledIds {
    fn next_frame(&mut self, now_us: u64) -> Option<u64> {
        let admitted = self.throttle.admits(now_us);
        let id = self.next_id;
        self.next_id += 1;
        if !admitted {
            return None;
        }
        self.throttle.passed(now_us);
        Some(id)
    }
}

#[test]
fn throttles_frame_interval() {
    let max_fps = 20.0_f64;
    let interval_us = (1_000_000.0 / max_fps) as u64;
    let mut source = ThrottledIds { throttle: FrameThrottle::new(Some(interval_us)), next_id: 0 };
    assert!(source.next_frame(0).is_some());
    assert!(source.next_frame(1_000).is_none());
    let id = source.next_frame(1_000 + 50_000).unwrap();
    assert!(id > 1);
}
