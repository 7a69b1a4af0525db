use tron::calibration_latency::{CalibrationLatencyLog, CalibrationLatencySample, DurationStats, MicrosecondStats};
use tron::frame::{FrameMeta, SensorKind};
use tron::geometry::Size;
use tron::playground_latency::{age_us, camera_delta_us, LatencyProbe, LatencySample, UsStats};

fn sample(finished_at_us: u64) -> CalibrationLatencySample {
    CalibrationLatencySample {
        latest_us: 100,
        rgb_detect_us: 200,
        ir_detect_us: 300,
        present_us: 400,
        total_us: 1_000,
        finished_at_us,
        rgb_received_at_us: Some(finished_at_us.saturating_sub(5_000)),
        ir_received_at_us: None,
        sync_delta_us: Some(-250),
        rgb_detected: true,
        ir_detected: false,
    }
}

#[test]
fn duration_stats_average_and_max() {
    let mut s = DurationStats::new();
    assert_eq!(s.average(), 0);
    s.record(10);
    s.record(21);
    assert_eq!(s.count, 2);
    assert_eq!(s.average(), 15);
    assert_eq!(s.max_us, 21);
}

#[test]
fn microsecond_stats_use_absolute_values() {
    let mut s = MicrosecondStats::new();
    s.record(-7);
    s.record(3);
    s.record(i64::MIN);
    assert_eq!(s.count, 3);
    assert_eq!(s.total_abs_us, 10 + 9_223_372_036_854_775_808u128);
    assert_eq!(s.max_abs_us, 9_223_372_036_854_775_808u64);
}

#[test]
fn calibration_log_reports_once_a_second() {
    let mut log = CalibrationLatencyLog::new();
    assert!(log.record(sample(10_000_000)).is_none());
    assert!(log.record(sample(10_500_000)).is_none());
    let (report, elapsed) = log.record(sample(11_000_000)).unwrap();
    assert_eq!(elapsed, 1_000_000);
    assert_eq!(report.frames, 3);
    assert_eq!(report.rgb_detected, 3);
    assert_eq!(report.ir_detected, 0);
    assert_eq!(report.rgb_age.count, 3);
    assert_eq!(report.rgb_age.average(), 5_000);
    assert_eq!(report.ir_age.count, 0);
    assert_eq!(report.sync_delta.max_abs_us, 250);
    assert_eq!(log.frames, 0);
    assert_eq!(log.window_start_us, Some(11_000_000));
}

#[test]
fn latency_probe_reports_each_interval() {
    let mut probe = LatencyProbe::new(1_000, 0);
    let s = LatencySample {
        rgb_wait_us: 1,
        ir_wait_us: 2,
        present_us: 3,
        rgb_age_after_acquire: 4,
        rgb_age_before_present: 5,
        ir_age_after_acquire: 6,
        camera_delta_us: Some(-9),
    };
    assert!(probe.record(s, 500).is_none());
    let (report, elapsed) = probe.record(s, 1_200).unwrap();
    assert_eq!(elapsed, 1_200);
    assert_eq!(report.frames, 2);
    assert_eq!(report.camera_delta_abs.total, 18);
    assert_eq!(probe.frames, 0);
    assert_eq!(probe.last_log_us, 1_200);
    let mut u = UsStats::new();
    u.add(4);
    u.add(2);
    assert_eq!((u.count, u.total, u.max), (2, 6, 4));
}

#[test]
fn frame_ages_and_camera_deltas() {
    let meta = |cam: Option<i64>| FrameMeta {
        id: 1,
        sensor: SensorKind::Rgb,
        size: Size { width: 1, height: 1 },
        sequence: None,
        camera_monotonic_us: cam,
        received_at_us: 1_000,
    };
    assert_eq!(age_us(&meta(None), 1_500), 500);
    assert_eq!(age_us(&meta(None), 900), 0);
    assert_eq!(camera_delta_us(&meta(Some(50)), &meta(Some(80))), Some(-30));
    assert_eq!(camera_delta_us(&meta(None), &meta(Some(80))), None);
}
