//! Camera options given on the command line, their parsers, and the open
//! request they make.

use vstd::prelude::*;
use crate::geometry::Size;
use crate::frame::{PixelFormat, SensorKind};
use crate::text::{find_in, parse_unsigned, spec_parse_unsigned, str_chars, find_char};

verus! {

/// Format a camera is asked to capture in.
#[derive(Clone, Copy, Debug, PartialEq, Eq, Structural)]
pub enum CaptureFormat {
    Mjpeg,
    Gray8,
    Yuyv422,
}

/// Which camera to open.
#[derive(Clone, Debug)]
pub struct CameraSelector {
    /// Backend-native identifier, such as a V4L device path.
    pub id: Option<String>,
    /// Human-oriented name matched by the backend.
    pub name: Option<String>,
    pub sensor: SensorKind,
}

/// What to ask of the camera backend; `None` keeps the backend's default.
#[derive(Clone, Debug)]
pub struct CameraOpenRequest {
    pub selector: CameraSelector,
    pub format: Option<CaptureFormat>,
    pub size: Option<Size>,
    pub fps: Option<u32>,
    pub buffers: Option<u32>,
}

/// Sensor label given on the command line.
#[derive(Clone, Copy, Debug, PartialEq, Eq, Structural)]
pub enum SensorArg {
    Rgb,
    Ir,
}

/// Capture format given on the command line.
#[derive(Clone, Copy, Debug, PartialEq, Eq, Structural)]
pub enum CaptureFormatArg {
    Mjpg,
    Gray8,
    Yuyv422,
}

/// Pixel format given on the command line.
#[derive(Clone, Copy, Debug, PartialEq, Eq, Structural)]
pub enum PixelFormatArg {
    Gray8,
    Bgra8,
    Yuyv422,
}

/// A `WIDTHxHEIGHT` size given on the command line.
#[derive(Clone, Copy, Debug, PartialEq, Eq, Structural)]
pub struct SizeArg {
    pub width: u32,
    pub height: u32,
}

/// Why a command-line value was refused.
#[derive(Clone, Copy, Debug, PartialEq, Eq, Structural)]
pub enum ArgError {
    /// The size has no `x` between width and height.
    InvalidSize,
    /// The value is not a positive integer that fits in `u32`.
    NotPositiveInteger,
}

/// The text that describes `e`.
pub open spec fn arg_error_message(e: ArgError) -> Seq<char> {
    match e {
        ArgError::InvalidSize => "invalid size; expected WIDTHxHEIGHT"@,
        ArgError::NotPositiveInteger => "invalid value; expected a positive integer"@,
    }
}

impl ArgError {
    /// A description of the error; the caller adds the value refused.
    pub fn to_string(&self) -> (s: String)
        ensures s@ == arg_error_message(*self),
    {
        match self {
            ArgError::InvalidSize => String::from_str("invalid size; expected WIDTHxHEIGHT"),
            ArgError::NotPositiveInteger => String::from_str("invalid value; expected a positive integer"),
        }
    }
}

/// What `parse_positive_u32` gives for the characters `s`.
pub open spec fn spec_parse_positive_u32(s: Seq<char>) -> Result<u32, ArgError> {
    match spec_parse_unsigned(s, u32::MAX as int) {
        Some(v) if v > 0 => Ok(v as u32),
        _ => Err(ArgError::NotPositiveInteger),
    }
}

/// What `parse_size` gives for the characters `s`: width and height split at
/// the first `x`, each a positive integer.
pub open spec fn spec_parse_size(s: Seq<char>) -> Result<SizeArg, ArgError> {
    let k = find_char(s, 'x') as int;
    if k == s.len() {
        Err(ArgError::InvalidSize)
    } else {
        match spec_parse_positive_u32(s.take(k)) {
            Err(e) => Err(e),
            Ok(width) => match spec_parse_positive_u32(s.skip(k + 1)) {
                Err(e) => Err(e),
                Ok(height) => Ok(SizeArg { width, height }),
            },
        }
    }
}

fn parse_positive_range(s: &Vec<char>, start: usize, end: usize) -> (r: Result<u32, ArgError>)
    requires start <= end <= s@.len(),
    ensures r == spec_parse_positive_u32(s@.subrange(start as int, end as int)),
{
    match parse_unsigned(s, start, end, 4294967295u64) {
        Some(v) => {
            if v > 0 {
                Ok(v as u32)
            } else {
                Err(ArgError::NotPositiveInteger)
            }
        },
        None => Err(ArgError::NotPositiveInteger),
    }
}

/// Parses a positive integer that fits in `u32`, as `str::parse` reads it.
pub fn parse_positive_u32(value: &str) -> (r: Result<u32, ArgError>)
    ensures r == spec_parse_positive_u32(value@),
{
    let s = str_chars(value);
    let r = parse_positive_range(&s, 0, s.len());
    assert(s@.subrange(0, s@.len() as int) =~= value@);
    r
}

/// Parses `WIDTHxHEIGHT`, both positive integers.
pub fn parse_size(value: &str) -> (r: Result<SizeArg, ArgError>)
    ensures r == spec_parse_size(value@),
{
    let s = str_chars(value);
    let n = s.len();
    let k = find_in(&s, 0, n, 'x');
    proof {
        assert(s@.subrange(0, n as int) =~= value@);
    }
    if k == n {
        return Err(ArgError::InvalidSize);
    }
    let width = match parse_positive_range(&s, 0, k) {
        Ok(w) => w,
        Err(e) => {
            assert(s@.subrange(0, k as int) =~= value@.take(k as int));
            return Err(e);
        },
    };
    let height = match parse_positive_range(&s, k + 1, n) {
        Ok(h) => h,
        Err(e) => {
            assert(s@.subrange(0, k as int) =~= value@.take(k as int));
            assert(s@.subrange(k + 1, n as int) =~= value@.skip(k + 1));
            return Err(e);
        },
    };
    assert(s@.subrange(0, k as int) =~= value@.take(k as int));
    assert(s@.subrange(k + 1, n as int) =~= value@.skip(k + 1));
    Ok(SizeArg { width, height })
}

/// The sensor a sensor label names.
pub open spec fn sensor_of(a: SensorArg) -> SensorKind {
    match a {
        SensorArg::Rgb => SensorKind::Rgb,
        SensorArg::Ir => SensorKind::Ir,
    }
}

/// The capture format a format option names.
pub open spec fn capture_format_of(a: CaptureFormatArg) -> CaptureFormat {
    match a {
        CaptureFormatArg::Mjpg => CaptureFormat::Mjpeg,
        CaptureFormatArg::Gray8 => CaptureFormat::Gray8,
        CaptureFormatArg::Yuyv422 => CaptureFormat::Yuyv422,
    }
}

/// The pixel format a format option names.
pub open spec fn pixel_format_of(a: PixelFormatArg) -> PixelFormat {
    match a {
        PixelFormatArg::Gray8 => PixelFormat::Gray8,
        PixelFormatArg::Bgra8 => PixelFormat::Bgra8,
        PixelFormatArg::Yuyv422 => PixelFormat::Yuyv422,
    }
}

impl From<SensorArg> for SensorKind {
    fn from(value: SensorArg) -> (k: SensorKind) {
        match value {
            SensorArg::Rgb => SensorKind::Rgb,
            SensorArg::Ir => SensorKind::Ir,
        }
    }
}

impl vstd::std_specs::convert::FromSpecImpl<SensorArg> for SensorKind {
    open spec fn obeys_from_spec() -> bool {
        true
    }

    open spec fn from_spec(v: SensorArg) -> SensorKind {
        sensor_of(v)
    }
}

impl From<CaptureFormatArg> for CaptureFormat {
    fn from(value: CaptureFormatArg) -> (f: CaptureFormat) {
        match value {
            CaptureFormatArg::Mjpg => CaptureFormat::Mjpeg,
            CaptureFormatArg::Gray8 => CaptureFormat::Gray8,
            CaptureFormatArg::Yuyv422 => CaptureFormat::Yuyv422,
        }
    }
}

impl vstd::std_specs::convert::FromSpecImpl<CaptureFormatArg> for CaptureFormat {
    open spec fn obeys_from_spec() -> bool {
        true
    }

    open spec fn from_spec(v: CaptureFormatArg) -> CaptureFormat {
        capture_format_of(v)
    }
}

impl From<PixelFormatArg> for PixelFormat {
    fn from(value: PixelFormatArg) -> (f: PixelFormat) {
        match value {
            PixelFormatArg::Gray8 => PixelFormat::Gray8,
            PixelFormatArg::Bgra8 => PixelFormat::Bgra8,
            PixelFormatArg::Yuyv422 => PixelFormat::Yuyv422,
        }
    }
}

impl vstd::std_specs::convert::FromSpecImpl<PixelFormatArg> for PixelFormat {
    open spec fn obeys_from_spec() -> bool {
        true
    }

    open spec fn from_spec(v: PixelFormatArg) -> PixelFormat {
        pixel_format_of(v)
    }
}

impl From<SizeArg> for Size {
    fn from(value: SizeArg) -> (s: Size) {
        Size { width: value.width, height: value.height }
    }
}

impl vstd::std_specs::convert::FromSpecImpl<SizeArg> for Size {
    open spec fn obeys_from_spec() -> bool {
        true
    }

    open spec fn from_spec(v: SizeArg) -> Size {
        Size { width: v.width, height: v.height }
    }
}

/// Camera options of the command line.
#[derive(Clone, Debug)]
pub struct CameraArgs {
    pub camera: Option<String>,
    pub camera_id: Option<String>,
    pub sensor: SensorArg,
    pub format: Option<CaptureFormatArg>,
    pub size: Option<SizeArg>,
    pub fps: Option<u32>,
    pub buffers: Option<u32>,
}

fn clone_name(s: &Option<String>) -> (r: Option<String>)
    ensures
        r is Some <==> s is Some,
        r matches Some(v) ==> v@ == s->Some_0@,
{
    match s {
        Some(v) => Some(v.clone()),
        None => None,
    }
}

impl CameraArgs {
    /// The format asked for, as the camera backend names it.
    pub fn requested_format(&self) -> (f: Option<CaptureFormat>)
        ensures
            f == match self.format {
                Some(a) => Some(capture_format_of(a)),
                None => None::<CaptureFormat>,
            },
    {
        match self.format {
            Some(a) => Some(CaptureFormat::from(a)),
            None => None,
        }
    }

    /// The request that opens the camera these options describe.
    pub fn open_request(&self) -> (r: CameraOpenRequest)
        ensures
            r.selector.id is Some <==> self.camera_id is Some,
            r.selector.id matches Some(v) ==> v@ == self.camera_id->Some_0@,
            r.selector.name is Some <==> self.camera is Some,
            r.selector.name matches Some(v) ==> v@ == self.camera->Some_0@,
            r.selector.sensor == sensor_of(self.sensor),
            r.format == match self.format {
                Some(a) => Some(capture_format_of(a)),
                None => None::<CaptureFormat>,
            },
            r.size == match self.size {
                Some(s) => Some(Size { width: s.width, height: s.height }),
                None => None::<Size>,
            },
            r.fps == self.fps,
            r.buffers == self.buffers,
    {
        CameraOpenRequest {
            selector: CameraSelector {
                id: clone_name(&self.camera_id),
                name: clone_name(&self.camera),
                sensor: SensorKind::from(self.sensor),
            },
            format: self.requested_format(),
            size: match self.size {
                Some(s) => Some(Size::from(s)),
                None => None,
            },
            fps: self.fps,
            buffers: self.buffers,
        }
    }
}

/// Settings of the calibration check view.
#[derive(Clone, Copy, Debug, PartialEq, Eq, Structural)]
pub struct CalibrationCheckConfig {
    /// Largest time between the RGB and IR frames of a pair.
    pub max_sync_delta_us: u64,
}

} // verus!
