//! Frame, region-of-interest and sensor logic of the tron hand-tracking
//! pipeline, with its behaviour stated as contracts and proved by Verus.

pub mod geometry;
pub mod text;
pub mod tof;
pub mod frame;
pub mod mirror;
pub mod exposure;
pub mod calibration_latency;
pub mod playground_latency;
pub mod config;
pub mod uvc;
pub mod decimal;
pub mod capture;
pub mod bitmap;
pub mod control;
pub mod blobs;
pub mod http;
pub mod persistence;
pub mod hand;
pub mod projection;
pub mod anchors;
pub mod camera_stats;
pub mod raster;
pub mod palm_outputs;
pub mod upload;
