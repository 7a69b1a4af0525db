use tron::blobs::RoiCandidate;
use tron::frame::{Frame, FrameMeta, PixelFormat, SensorKind};
use tron::hand::{motion_overlap, rect_overlap, HandRoiTracker, HandRoiTrackerConfig, ScoredCandidate};
use tron::control::{combine_toggles, ComboSink, CheckerboardDetectionGate, CheckerboardStep, RoiUpdateGate, TextStatsRenderer, ToggleSink};
use tron::geometry::{Rect, Size};

#[test]
fn toggle_sink_switches_and_reports() {
    let mut t = ToggleSink::new(5u32, true);
    assert!(t.enabled());
    assert!(!t.toggle_enabled());
    assert!(!t.enabled());
    assert!(t.toggle_enabled());
    assert_eq!(*t.inner(), 5);
}

#[test]
fn group_toggle_reports_the_last_answer() {
    assert_eq!(combine_toggles(&[Some(true), None, Some(false), None]), Some(false));
    assert_eq!(combine_toggles(&[None, None]), None);
    assert_eq!(combine_toggles(&[]), None);
}

#[test]
fn roi_gate_skips_repeats_and_waits_for_the_interval() {
    let r1 = Rect { x: 1, y: 2, size: Size { width: 3, height: 4 } };
    let r2 = Rect { x: 5, y: 2, size: Size { width: 3, height: 4 } };
    let mut g = RoiUpdateGate::new(Some(100));
    assert!(g.should_send(r1, 0));
    g.sent(r1, r1, 0);
    assert!(!g.should_send(r1, 1_000));
    assert!(!g.should_send(r2, 50));
    assert!(g.should_send(r2, 100));
    assert_eq!(g.current_rect(), Some(r1));
    let mut free = RoiUpdateGate::new(None);
    free.sent(r1, r2, 0);
    assert!(free.should_send(r2, 0));
}

#[test]
fn text_stats_report_after_the_interval() {
    let mut r = TextStatsRenderer::new(1_000, 0);
    assert!(r.render(10, 500).is_none());
    let s = r.render(30, 1_000).unwrap();
    assert_eq!((s.frames, s.acquire_us, s.elapsed_us), (2, 40, 1_000));
    assert_eq!((r.frames, r.acquire_us, r.last_log_us), (0, 0, 1_000));
}

#[test]
fn checkerboard_runs_once_a_frame_and_interval() {
    let mut g = CheckerboardDetectionGate::new(100);
    assert_eq!(g.update(None, 0), CheckerboardStep::Clear);
    assert_eq!(g.update(Some(1), 0), CheckerboardStep::Run);
    assert_eq!(g.update(Some(1), 500), CheckerboardStep::Keep);
    assert_eq!(g.update(Some(2), 50), CheckerboardStep::Keep);
    assert_eq!(g.update(Some(2), 100), CheckerboardStep::Run);
}

#[test]
fn hand_tracker_starts_on_a_strong_candidate_and_forgets_after_losses() {
    let rect = Rect { x: 1, y: 1, size: Size { width: 4, height: 4 } };
    let weak = ScoredCandidate { candidate: RoiCandidate { rect, area: 16 }, below_min_score: true };
    let strong = ScoredCandidate { candidate: RoiCandidate { rect, area: 16 }, below_min_score: false };
    let mut t = HandRoiTracker::new(HandRoiTrackerConfig { min_motion_pixels: 8, max_lost_frames: 2 });
    assert_eq!(t.process(Some(weak)), None);
    assert_eq!(t.process(Some(strong)), Some(rect));
    assert_eq!(t.process(Some(weak)), Some(rect));
    assert_eq!(t.process(None), Some(rect));
    assert_eq!(t.process(None), Some(rect));
    assert_eq!(t.process(None), None);
    let d = HandRoiTrackerConfig::default();
    assert_eq!((d.min_motion_pixels, d.max_lost_frames), (8, 10));
}

#[test]
fn motion_overlap_counts_moving_pixels_in_the_rect() {
    let mask = Frame {
        meta: FrameMeta {
            id: 1,
            sensor: SensorKind::Ir,
            size: Size { width: 3, height: 3 },
            sequence: None,
            camera_monotonic_us: None,
            received_at_us: 0,
        },
        format: PixelFormat::Gray8,
        stride: 3,
        data: vec![0, 9, 9, 0, 0, 9, 9, 9, 9],
    };
    let r = Rect { x: 1, y: 0, size: Size { width: 10, height: 2 } };
    assert_eq!(motion_overlap(r, Some(&mask)), Ok(3));
    assert_eq!(motion_overlap(r, None), Ok(0));
    let a = Rect { x: 0, y: 0, size: Size { width: 4, height: 4 } };
    let b = Rect { x: 2, y: 2, size: Size { width: 4, height: 4 } };
    assert_eq!(rect_overlap(a, b), (4, 28));
}

#[test]
fn combo_sink_keeps_order() {
    let mut c: ComboSink<u32> = ComboSink::new();
    c.push_box(2);
    c.push_box(3);
    c.push_front_box(1);
    assert_eq!(c.len(), 3);
    assert_eq!(*c.get_mut(0), 1);
    *c.get_mut(2) = 30;
    assert_eq!(*c.get_mut(2), 30);
    assert_eq!(*c.get_mut(1), 2);
}

fn gray_frame(data: &[u8], width: u32, height: u32) -> Frame {
    Frame {
        meta: FrameMeta {
            id: 0,
            sensor: SensorKind::Ir,
            size: Size { width, height },
            sequence: None,
            camera_monotonic_us: None,
            received_at_us: 0,
        },
        format: PixelFormat::Gray8,
        stride: width as usize,
        data: data.to_vec(),
    }
}

fn hand_candidate(x: u32, y: u32, width: u32, height: u32, area: u32) -> RoiCandidate {
    RoiCandidate { rect: Rect { x, y, size: Size { width, height } }, area }
}

fn motion_frame_data(width: usize, height: usize, rect: Rect) -> Vec<u8> {
    let mut data = vec![0; width * height];
    for y in rect.y..rect.y + rect.size.height {
        for x in rect.x..rect.x + rect.size.width {
            data[y as usize * width + x as usize] = 255;
        }
    }
    data
}

/// The tracker's real-valued score of a candidate: moving pixels weigh most,
/// then overlap with and nearness to the last region, then size.
fn hand_score(tracker: &HandRoiTracker, candidate: RoiCandidate, motion: Option<&Frame>) -> f32 {
    let motion_pixels = motion_overlap(candidate.rect, motion).unwrap();
    let area_score = (candidate.area as f32).sqrt() * 0.05;
    let previous_score = tracker
        .previous
        .map(|previous| {
            let (intersection, union) = rect_overlap(previous, candidate.rect);
            let iou = if union == 0 { 0.0 } else { intersection as f32 / union as f32 };
            let (ax, ay) = (previous.x as f32 + previous.size.width as f32 * 0.5, previous.y as f32 + previous.size.height as f32 * 0.5);
            let (bx, by) = (candidate.rect.x as f32 + candidate.rect.size.width as f32 * 0.5, candidate.rect.y as f32 + candidate.rect.size.height as f32 * 0.5);
            let distance = ((ax - bx) * (ax - bx) + (ay - by) * (ay - by)).sqrt();
            iou * 250.0 + (100.0 / (1.0 + distance / 24.0))
        })
        .unwrap_or(0.0);
    motion_pixels as f32 * 20.0 + previous_score + area_score
}

/// Scores the candidates, takes the first of the highest scores, and lets the
/// tracker decide.
fn track(tracker: &mut HandRoiTracker, candidates: &[RoiCandidate], motion: Option<&Frame>) -> Option<Rect> {
    let mut best: Option<(RoiCandidate, f32)> = None;
    for candidate in candidates {
        let s = hand_score(tracker, *candidate, motion);
        if best.map(|(_, best_score)| best_score < s).unwrap_or(true) {
            best = Some((*candidate, s));
        }
    }
    let min = tracker.config.min_motion_pixels as f32;
    tracker.process(best.map(|(candidate, s)| ScoredCandidate { candidate, below_min_score: s < min }))
}

#[test]
fn initial_lock_prefers_candidate_with_motion() {
    let candidates = [hand_candidate(0, 0, 20, 20, 400), hand_candidate(60, 0, 20, 20, 400)];
    let data = motion_frame_data(100, 40, Rect { x: 60, y: 0, size: Size { width: 20, height: 20 } });
    let mut tracker = HandRoiTracker::new(HandRoiTrackerConfig::default());
    let motion = gray_frame(&data, 100, 40);
    let roi = track(&mut tracker, &candidates, Some(&motion)).unwrap();
    assert_eq!(roi, candidates[1].rect);
}

#[test]
fn initial_lock_rejects_static_bright_candidates() {
    let candidates = [hand_candidate(0, 0, 20, 20, 400)];
    let data = vec![0; 100 * 40];
    let mut tracker = HandRoiTracker::new(HandRoiTrackerConfig::default());
    let motion = gray_frame(&data, 100, 40);
    let roi = track(&mut tracker, &candidates, Some(&motion));
    assert_eq!(roi, None);
}

#[test]
fn pinch_changes_ask_for_a_dump() {
    let mut g = tron::control::PinchDumpGate::new();
    assert!(!g.update(Some(false)));
    assert!(!g.update(Some(false)));
    assert!(g.update(Some(true)));
    assert!(!g.update(None));
    assert!(!g.update(Some(false)));
    assert!(g.update(Some(true)));
}
