use tron::frame::{PixelFormat, SensorKind};
use tron::persistence::{handedness_json, pixel_format_json, sensor_kind_json, Handedness, Persistence};

#[test]
fn pair_directories_are_zero_padded() {
    let p = Persistence::new("/data/run".to_string());
    assert_eq!(p.frame_dir(7, 12345678901), "/data/run/pair-0000000007-12345678901");
    let p = Persistence::new("/data/run/".to_string());
    assert_eq!(p.frame_dir(0, 1), "/data/run/pair-0000000000-0000000001");
    let p = Persistence::new(String::new());
    assert_eq!(p.frame_dir(3, 4), "pair-0000000003-0000000004");
}

#[test]
fn metadata_names() {
    assert_eq!(handedness_json(Handedness::Left), "left");
    assert_eq!(handedness_json(Handedness::Right), "right");
    assert_eq!(sensor_kind_json(SensorKind::Ir), "ir");
    assert_eq!(pixel_format_json(PixelFormat::Bgra8), "bgra8");
}
