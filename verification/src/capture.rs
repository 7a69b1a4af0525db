//! Choices made when opening the Windows Hello camera pair on V4L.

use vstd::prelude::*;
use crate::config::{CameraOpenRequest, CaptureFormat};
use crate::geometry::Size;
use crate::decimal::{decimal, decimal_chars, push_chars, string_of};
use crate::frame::SensorKind;
use crate::text::{parse_unsigned, range_eq, spec_parse_unsigned, str_chars};

verus! {

/// The prefix of V4L video device nodes.
pub open spec fn video_prefix() -> Seq<char> {
    seq!['/', 'd', 'e', 'v', '/', 'v', 'i', 'd', 'e', 'o']
}

/// The number `n` of a node `/dev/videoN`, if `node` is one.
pub open spec fn video_node_number(node: Seq<char>) -> Option<int> {
    if node.len() >= 10 && node.take(10) == video_prefix() {
        spec_parse_unsigned(node.skip(10), u32::MAX as int)
    } else {
        None
    }
}

/// The metadata node that V4L creates after video node `/dev/videoN`:
/// `/dev/video(N+1)`.
pub fn infer_metadata_node(video_node: &str) -> (r: Option<String>)
    requires
        video_node_number(video_node@) != Some(u32::MAX as int),
    ensures
        match video_node_number(video_node@) {
            Some(n) => r matches Some(s) && s@ == video_prefix() + decimal((n + 1) as nat),
            None => r is None,
        },
{
    let s = str_chars(video_node);
    let n = s.len();
    let prefix: [char; 10] = ['/', 'd', 'e', 'v', '/', 'v', 'i', 'd', 'e', 'o'];
    assert(prefix@ =~= video_prefix());
    if n < 10 || !range_eq(&s, 0, 10, &prefix) {
        proof {
            if n >= 10 {
                assert(s@.subrange(0, 10) =~= video_node@.take(10));
            }
        }
        return None;
    }
    proof {
        assert(s@.subrange(0, 10) =~= video_node@.take(10));
        assert(s@.subrange(10, n as int) =~= video_node@.skip(10));
    }
    let number = match parse_unsigned(&s, 10, n, 4294967295u64) {
        Some(v) => v,
        None => { return None; },
    };
    let mut out = string_of(&prefix);
    let digits = decimal_chars(number + 1);
    push_chars(&mut out, digits.as_slice());
    Some(out)
}

/// The metadata node was not given and the IR node is not `/dev/videoN`.
#[derive(Clone, Copy, Debug, PartialEq, Eq, Structural)]
pub struct MissingMetadataNode;

/// The metadata node to read IR frame metadata from: the one given, else the
/// one after the IR video node.
pub fn metadata_node(given: Option<String>, ir_device_id: &str) -> (r: Result<String, MissingMetadataNode>)
    requires
        given is None ==> video_node_number(ir_device_id@) != Some(u32::MAX as int),
    ensures
        given matches Some(g) ==> (r matches Ok(s) && s@ == g@),
        given is None ==> match video_node_number(ir_device_id@) {
            Some(n) => r matches Ok(s) && s@ == video_prefix() + decimal((n + 1) as nat),
            None => r == Err::<String, MissingMetadataNode>(MissingMetadataNode),
        },
{
    match given {
        Some(g) => Ok(g),
        None => match infer_metadata_node(ir_device_id) {
            Some(s) => Ok(s),
            None => Err(MissingMetadataNode),
        },
    }
}

/// The request with its sensor label replaced.
pub fn force_sensor(request: CameraOpenRequest, sensor: SensorKind) -> (r: CameraOpenRequest)
    ensures
        r.selector.sensor == sensor,
        r.selector.id == request.selector.id,
        r.selector.name == request.selector.name,
        r.format == request.format,
        r.size == request.size,
        r.fps == request.fps,
        r.buffers == request.buffers,
{
    let mut request = request;
    request.selector.sensor = sensor;
    request
}

/// The request for the collector's RGB camera: the options given, labelled
/// RGB, MJPEG at 640x480 unless given otherwise.
pub fn rgb_request(base: CameraOpenRequest) -> (r: CameraOpenRequest)
    ensures
        r.selector.sensor == SensorKind::Rgb,
        r.selector.id == base.selector.id,
        r.selector.name == base.selector.name,
        r.format == (if base.format is None { Some(CaptureFormat::Mjpeg) } else { base.format }),
        r.size == (if base.size is None { Some(Size { width: 640, height: 480 }) } else { base.size }),
        r.fps == base.fps,
        r.buffers == base.buffers,
{
    let mut request = base;
    request.selector.sensor = SensorKind::Rgb;
    if request.format.is_none() {
        request.format = Some(CaptureFormat::Mjpeg);
    }
    if request.size.is_none() {
        request.size = Some(Size { width: 640, height: 480 });
    }
    request
}

/// The request for the collector's IR camera: the options given, labelled
/// IR, on the IR camera's own identifier, in the backend's default format and
/// size.
pub fn ir_request(base: CameraOpenRequest, ir_camera_id: Option<String>) -> (r: CameraOpenRequest)
    ensures
        r.selector.sensor == SensorKind::Ir,
        r.selector.id == ir_camera_id,
        r.selector.name == base.selector.name,
        r.format is None,
        r.size is None,
        r.fps == base.fps,
        r.buffers == base.buffers,
{
    let mut request = base;
    request.selector.sensor = SensorKind::Ir;
    request.selector.id = ir_camera_id;
    request.format = None;
    request.size = None;
    request
}

/// The least time between camera-ROI updates, in microseconds: none when
/// throttling is off or the interval is zero. An interval too long for
/// microseconds in `u64` (longer than any run) is held as `u64::MAX`.
pub fn camera_roi_update_interval(no_throttle: bool, update_ms: u64) -> (r: Option<u64>)
    ensures
        r == (if no_throttle || update_ms == 0 {
            None
        } else if update_ms * 1000 > u64::MAX {
            Some(u64::MAX)
        } else {
            Some((update_ms * 1000) as u64)
        }),
{
    if no_throttle || update_ms == 0 {
        None
    } else {
        match update_ms.checked_mul(1000) {
            Some(us) => Some(us),
            None => Some(u64::MAX),
        }
    }
}

} // verus!
