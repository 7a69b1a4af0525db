use tron::capture::{camera_roi_update_interval, infer_metadata_node, metadata_node, MissingMetadataNode};
use tron::uvc::{check_value_len, choose_value, parse_bytes, set_face_auth_mode, ByteListError, EmitterMode, FaceAuthMode, LengthMismatch, ValueChoiceError};

#[test]
fn face_auth_values() {
    assert_eq!(FaceAuthMode::Default.bytes(), [1, 3, 1, 0, 0, 0, 0, 0, 0]);
    assert_eq!(FaceAuthMode::Mode2.bytes(), [1, 3, 2, 0, 0, 0, 0, 0, 0]);
    assert_eq!(set_face_auth_mode(FaceAuthMode::Mode2, 9), Ok(vec![1, 3, 2, 0, 0, 0, 0, 0, 0]));
    assert_eq!(
        set_face_auth_mode(FaceAuthMode::Default, 8),
        Err(LengthMismatch { control_len: 8, value_len: 9 })
    );
}

#[test]
fn emitter_values_and_choice() {
    assert_eq!(EmitterMode::Mode3.bytes(), vec![1, 3, 3, 0, 0, 0, 0, 0, 0]);
    assert_eq!(choose_value(Some(EmitterMode::Default), None), Ok(Some(vec![1, 3, 1, 0, 0, 0, 0, 0, 0])));
    assert_eq!(choose_value(None, Some(vec![4, 5])), Ok(Some(vec![4, 5])));
    assert_eq!(choose_value(None, None), Ok(None));
    assert_eq!(choose_value(Some(EmitterMode::Mode2), Some(vec![1])), Err(ValueChoiceError::BothModeAndValue));
    assert_eq!(check_value_len(&vec![1, 2], 2), Ok(()));
    assert_eq!(check_value_len(&vec![1, 2], 3), Err(LengthMismatch { control_len: 3, value_len: 2 }));
}

#[test]
fn parses_byte_lists() {
    assert_eq!(parse_bytes("1,3,2,0,0,0,0,0,0"), Ok(vec![1, 3, 2, 0, 0, 0, 0, 0, 0]));
    assert_eq!(parse_bytes(" 1 , 255"), Ok(vec![1, 255]));
    assert_eq!(parse_bytes("1,256"), Err(ByteListError::InvalidByte(1)));
    assert_eq!(parse_bytes("x,1"), Err(ByteListError::InvalidByte(0)));
    assert_eq!(parse_bytes(""), Err(ByteListError::InvalidByte(0)));
    assert_eq!(parse_bytes("1,"), Err(ByteListError::InvalidByte(1)));
}

#[test]
fn infers_metadata_nodes() {
    assert_eq!(infer_metadata_node("/dev/video2").as_deref(), Some("/dev/video3"));
    assert_eq!(infer_metadata_node("/dev/video9").as_deref(), Some("/dev/video10"));
    assert_eq!(infer_metadata_node("/dev/media0"), None);
    assert_eq!(infer_metadata_node("/dev/video"), None);
    assert_eq!(infer_metadata_node("/dev/videox"), None);
    assert_eq!(metadata_node(Some("/dev/video7".to_string()), "/dev/video2").unwrap(), "/dev/video7");
    assert_eq!(metadata_node(None, "/dev/video2").unwrap(), "/dev/video3");
    assert_eq!(metadata_node(None, "usb-cam"), Err(MissingMetadataNode));
}

#[test]
fn camera_roi_interval_zero_disables_throttling() {
    assert_eq!(camera_roi_update_interval(false, 0), None);
    assert_eq!(camera_roi_update_interval(true, 250), None);
    assert_eq!(camera_roi_update_interval(false, 250), Some(250_000));
    assert_eq!(camera_roi_update_interval(false, u64::MAX), Some(u64::MAX));
}
