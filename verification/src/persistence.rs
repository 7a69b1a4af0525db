//! Where the collector stores each frame pair, and the names it writes into
//! the pair's metadata.

use vstd::prelude::*;
use crate::decimal::{push_chars, string_of, zero_padded, zero_padded_chars};
use crate::frame::{PixelFormat, SensorKind};
use crate::text::str_chars;

verus! {

/// Which hand a set of landmarks belongs to.
#[derive(Clone, Copy, Debug, PartialEq, Eq, Structural)]
pub enum Handedness {
    Left,
    Right,
}

/// The name of the directory of a pair: `pair-` and the two frame ids, each
/// with at least ten digits.
pub open spec fn pair_dir_name(rgb_id: u64, ir_id: u64) -> Seq<char> {
    "pair-"@ + zero_padded(rgb_id as nat, 10) + "-"@ + zero_padded(ir_id as nat, 10)
}

/// `name` as a path component under `root`: a separator goes between them
/// unless the root is empty or already ends with one.
pub open spec fn spec_join(root: Seq<char>, name: Seq<char>) -> Seq<char> {
    if root.len() == 0 || root.last() == '/' { root + name } else { root + "/"@ + name }
}

/// Stores frame pairs under a root directory, one directory a pair.
pub struct Persistence {
    root: String,
}

impl Persistence {
    pub closed spec fn root(&self) -> Seq<char> {
        self.root@
    }

    /// A store under `root` (the caller creates the directory).
    pub fn new(root: String) -> (p: Self)
        ensures p.root() == root@,
    {
        Persistence { root }
    }

    /// The directory of the pair of frames `rgb_id` and `ir_id`.
    pub fn frame_dir(&self, rgb_id: u64, ir_id: u64) -> (dir: String)
        ensures dir@ == spec_join(self.root(), pair_dir_name(rgb_id, ir_id)),
    {
        let rgb = zero_padded_chars(rgb_id, 10);
        let ir = zero_padded_chars(ir_id, 10);
        let mut out = self.root.clone();
        let root = str_chars(self.root.as_str());
        if root.len() > 0 && root[root.len() - 1] != '/' {
            push_chars(&mut out, &['/']);
        }
        let ghost before = out@;
        push_chars(&mut out, &['p', 'a', 'i', 'r', '-']);
        push_chars(&mut out, rgb.as_slice());
        push_chars(&mut out, &['-']);
        push_chars(&mut out, ir.as_slice());
        proof {
            reveal_strlit("pair-");
            reveal_strlit("-");
            reveal_strlit("/");
            assert(out@ =~= before + pair_dir_name(rgb_id, ir_id));
            if root@.len() == 0 || root@.last() == '/' {
                assert(before =~= self.root@);
            } else {
                assert(before =~= self.root@ + "/"@);
            }
            assert(out@ =~= spec_join(self.root(), pair_dir_name(rgb_id, ir_id)));
        }
        out
    }
}

/// The name of a hand in the metadata.
pub fn handedness_json(handedness: Handedness) -> (s: &'static str)
    ensures
        handedness == Handedness::Left ==> s@ == "left"@,
        handedness == Handedness::Right ==> s@ == "right"@,
{
    match handedness {
        Handedness::Left => "left",
        Handedness::Right => "right",
    }
}

/// The name of a sensor in the metadata.
pub fn sensor_kind_json(sensor: SensorKind) -> (s: &'static str)
    ensures
        sensor == SensorKind::Rgb ==> s@ == "rgb"@,
        sensor == SensorKind::Ir ==> s@ == "ir"@,
{
    match sensor {
        SensorKind::Rgb => "rgb",
        SensorKind::Ir => "ir",
    }
}

/// The name of a pixel format in the metadata.
pub fn pixel_format_json(format: PixelFormat) -> (s: &'static str)
    ensures
        format == PixelFormat::Gray8 ==> s@ == "gray8"@,
        format == PixelFormat::Bgra8 ==> s@ == "bgra8"@,
        format == PixelFormat::Yuyv422 ==> s@ == "yuyv422"@,
{
    match format {
        PixelFormat::Gray8 => "gray8",
        PixelFormat::Bgra8 => "bgra8",
        PixelFormat::Yuyv422 => "yuyv422",
    }
}

} // verus!
