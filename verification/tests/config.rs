use tron::config::{parse_positive_u32, parse_size, ArgError, CameraArgs, CaptureFormat, CaptureFormatArg, PixelFormatArg, SensorArg, SizeArg};
use tron::frame::{PixelFormat, SensorKind};
use tron::geometry::Size;

#[test]
fn parses_positive_integers() {
    assert_eq!(parse_positive_u32("30"), Ok(30));
    assert_eq!(parse_positive_u32("+7"), Ok(7));
    assert_eq!(parse_positive_u32("4294967295"), Ok(u32::MAX));
    assert_eq!(parse_positive_u32("0"), Err(ArgError::NotPositiveInteger));
    assert_eq!(parse_positive_u32("4294967296"), Err(ArgError::NotPositiveInteger));
    assert_eq!(parse_positive_u32(" 3"), Err(ArgError::NotPositiveInteger));
    assert_eq!(parse_positive_u32(""), Err(ArgError::NotPositiveInteger));
    assert_eq!(parse_positive_u32("-1"), Err(ArgError::NotPositiveInteger));
}

#[test]
fn parses_sizes() {
    assert_eq!(parse_size("640x480"), Ok(SizeArg { width: 640, height: 480 }));
    assert_eq!(parse_size("640"), Err(ArgError::InvalidSize));
    assert_eq!(parse_size("0x480"), Err(ArgError::NotPositiveInteger));
    assert_eq!(parse_size("640x"), Err(ArgError::NotPositiveInteger));
    assert_eq!(parse_size("640x480x2"), Err(ArgError::NotPositiveInteger));
    assert!(ArgError::InvalidSize.to_string().contains("WIDTHxHEIGHT"));
}

#[test]
fn converts_arguments() {
    assert_eq!(SensorKind::from(SensorArg::Ir), SensorKind::Ir);
    assert_eq!(CaptureFormat::from(CaptureFormatArg::Mjpg), CaptureFormat::Mjpeg);
    assert_eq!(PixelFormat::from(PixelFormatArg::Bgra8), PixelFormat::Bgra8);
    assert_eq!(Size::from(SizeArg { width: 2, height: 3 }), Size { width: 2, height: 3 });
}

#[test]
fn open_request_carries_the_options() {
    let args = CameraArgs {
        camera: Some("hello".to_string()),
        camera_id: Some("/dev/video51".to_string()),
        sensor: SensorArg::Ir,
        format: Some(CaptureFormatArg::Gray8),
        size: Some(SizeArg { width: 640, height: 360 }),
        fps: Some(30),
        buffers: None,
    };
    let r = args.open_request();
    assert_eq!(r.selector.id.as_deref(), Some("/dev/video51"));
    assert_eq!(r.selector.name.as_deref(), Some("hello"));
    assert_eq!(r.selector.sensor, SensorKind::Ir);
    assert_eq!(r.format, Some(CaptureFormat::Gray8));
    assert_eq!(r.size, Some(Size { width: 640, height: 360 }));
    assert_eq!(r.fps, Some(30));
    assert_eq!(r.buffers, None);
    assert_eq!(args.requested_format(), Some(CaptureFormat::Gray8));
}
