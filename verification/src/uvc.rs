//! Values written to the UVC extension control that switches the IR emitter
//! (unit 4, selector 6 on the cameras this project drives), and the checks
//! made before writing them.

use vstd::prelude::*;
use crate::text::{find_char, find_in, parse_unsigned, spec_parse_unsigned, spec_trim, str_chars, trim_range};

verus! {

/// UVC extension unit of the face-authentication control.
pub const FACE_AUTH_UNIT: u8 = 4u8;
/// UVC extension selector of the face-authentication control.
pub const FACE_AUTH_SELECTOR: u8 = 6u8;

/// Face-authentication modes of the IR camera.
#[derive(Clone, Copy, Debug, PartialEq, Eq, Structural)]
pub enum FaceAuthMode {
    Default,
    Mode2,
}

/// The control value that selects `mode`.
pub open spec fn face_auth_value(mode: FaceAuthMode) -> Seq<u8> {
    match mode {
        FaceAuthMode::Default => seq![1u8, 3, 1, 0, 0, 0, 0, 0, 0],
        FaceAuthMode::Mode2 => seq![1u8, 3, 2, 0, 0, 0, 0, 0, 0],
    }
}

/// Every face-authentication value is nine bytes: 1, 3, the mode's
/// selector, then six zeros; the selector is 1 for the default mode and 2 for
/// the other, so the two modes write different values.
pub proof fn lemma_face_auth_values(m: FaceAuthMode)
    ensures
        face_auth_value(m).len() == 9,
        face_auth_value(m)[0] == 1 && face_auth_value(m)[1] == 3,
        forall|i: int| 3 <= i < 9 ==> #[trigger] face_auth_value(m)[i] == 0,
        m == FaceAuthMode::Default <==> face_auth_value(m)[2] == 1,
        m == FaceAuthMode::Mode2 <==> face_auth_value(m)[2] == 2,
        face_auth_value(FaceAuthMode::Default) != face_auth_value(FaceAuthMode::Mode2),
{
    assert(face_auth_value(FaceAuthMode::Default)[2] != face_auth_value(FaceAuthMode::Mode2)[2]);
}

impl FaceAuthMode {
    /// The nine control bytes that select the mode.
    pub fn bytes(self) -> (b: [u8; 9])
        ensures b@ == face_auth_value(self),
    {
        let b = match self {
            FaceAuthMode::Default => [1u8, 3, 1, 0, 0, 0, 0, 0, 0],
            FaceAuthMode::Mode2 => [1u8, 3, 2, 0, 0, 0, 0, 0, 0],
        };
        assert(b@ =~= face_auth_value(self));
        b
    }
}

/// The control reports a length other than that of the value to write.
#[derive(Clone, Copy, Debug, PartialEq, Eq, Structural)]
pub struct LengthMismatch {
    /// Length the device reports for the control.
    pub control_len: u16,
    /// Length of the value that was to be written.
    pub value_len: usize,
}

/// Setting the face-authentication mode, up to the write: given the length
/// the device reports for the control, the bytes to write, or the mismatch
/// that stops the write.
pub fn set_face_auth_mode(mode: FaceAuthMode, control_len: u16) -> (r: Result<Vec<u8>, LengthMismatch>)
    ensures
        control_len == 9 ==> (r matches Ok(v) && v@ == face_auth_value(mode)),
        control_len != 9 ==> r == Err::<Vec<u8>, LengthMismatch>(LengthMismatch { control_len, value_len: 9 }),
{
    let bytes = mode.bytes();
    let value = vstd::slice::slice_to_vec(&bytes);
    if value.len() != control_len as usize {
        return Err(LengthMismatch { control_len, value_len: value.len() });
    }
    Ok(value)
}

/// Emitter modes observed on the control.
#[derive(Clone, Copy, Debug, PartialEq, Eq, Structural)]
pub enum EmitterMode {
    /// The default value, `[1,3,1,0,0,0,0,0,0]`.
    Default,
    /// The value that turns the emitter on, `[1,3,2,0,0,0,0,0,0]`.
    Mode2,
    /// Another value that turns the emitter on, `[1,3,3,0,0,0,0,0,0]`.
    Mode3,
}

pub open spec fn emitter_value(mode: EmitterMode) -> Seq<u8> {
    match mode {
        EmitterMode::Default => seq![1u8, 3, 1, 0, 0, 0, 0, 0, 0],
        EmitterMode::Mode2 => seq![1u8, 3, 2, 0, 0, 0, 0, 0, 0],
        EmitterMode::Mode3 => seq![1u8, 3, 3, 0, 0, 0, 0, 0, 0],
    }
}

/// Every emitter value is nine bytes: 1, 3, the mode's selector, then six
/// zeros. The selector is 1 for the default value and 2 and 3 for the two
/// values that turn the emitter on, so two different modes never write the
/// same value, and only the default leaves the emitter off.
pub proof fn lemma_emitter_values(m: EmitterMode, n: EmitterMode)
    ensures
        emitter_value(m).len() == 9,
        emitter_value(m)[0] == 1 && emitter_value(m)[1] == 3,
        forall|i: int| 3 <= i < 9 ==> #[trigger] emitter_value(m)[i] == 0,
        m == EmitterMode::Default <==> emitter_value(m)[2] == 1,
        m == EmitterMode::Mode2 <==> emitter_value(m)[2] == 2,
        m == EmitterMode::Mode3 <==> emitter_value(m)[2] == 3,
        m != n ==> emitter_value(m) != emitter_value(n),
{
    if m != n {
        assert(emitter_value(m)[2] != emitter_value(n)[2]);
    }
}

impl EmitterMode {
    /// The control bytes of the mode.
    pub fn bytes(self) -> (b: Vec<u8>)
        ensures b@ == emitter_value(self),
    {
        let b = match self {
            EmitterMode::Default => vec![1u8, 3, 1, 0, 0, 0, 0, 0, 0],
            EmitterMode::Mode2 => vec![1u8, 3, 2, 0, 0, 0, 0, 0, 0],
            EmitterMode::Mode3 => vec![1u8, 3, 3, 0, 0, 0, 0, 0, 0],
        };
        assert(b@ =~= emitter_value(self));
        b
    }
}

/// The comma-separated parts of `s`, as `str::split(',')` gives them.
pub open spec fn comma_parts(s: Seq<char>) -> Seq<Seq<char>>
    decreases s.len(),
{
    let k = find_char(s, ',') as int;
    if k >= s.len() {
        seq![s]
    } else {
        seq![s.take(k)] + comma_parts(s.skip(k + 1))
    }
}

/// A part read as a byte: surrounding whitespace is ignored.
pub open spec fn part_byte(part: Seq<char>) -> Option<u8> {
    match spec_parse_unsigned(spec_trim(part), 255) {
        Some(v) => Some(v as u8),
        None => None,
    }
}

/// Why a byte list was refused.
#[derive(Clone, Copy, Debug, PartialEq, Eq, Structural)]
pub enum ByteListError {
    /// The part with this index (from zero) is not a byte.
    InvalidByte(usize),
    /// The list holds no byte.
    Empty,
}

/// What `parse_bytes` gives for `s`: the bytes of its comma-separated parts,
/// or the index of the first part that is not a byte.
pub open spec fn spec_parse_bytes(s: Seq<char>) -> Result<Seq<u8>, ByteListError> {
    let parts = comma_parts(s);
    if exists|i: int| 0 <= i < parts.len() && #[trigger] part_byte(parts[i]) is None {
        let i = choose|i: int| 0 <= i < parts.len() && #[trigger] part_byte(parts[i]) is None
            && forall|j: int| 0 <= j < i ==> #[trigger] part_byte(parts[j]) is Some;
        Err(ByteListError::InvalidByte(i as usize))
    } else if parts.len() == 0 {
        Err(ByteListError::Empty)
    } else {
        Ok(Seq::new(parts.len(), |i: int| part_byte(parts[i]).unwrap()))
    }
}

proof fn lemma_comma_parts_step(s: Seq<char>, pos: int, k: int)
    requires
        0 <= pos <= s.len(),
        k == find_char(s.skip(pos), ',') as int,
    ensures
        k >= s.len() - pos ==> comma_parts(s.skip(pos)) == seq![s.skip(pos)],
        k < s.len() - pos ==> comma_parts(s.skip(pos)) == seq![s.skip(pos).take(k)] + comma_parts(s.skip(pos + k + 1)),
{
    if k < s.len() - pos {
        assert(s.skip(pos).skip(k + 1) =~= s.skip(pos + k + 1));
    }
}

/// Parses a comma-separated list of bytes such as `1,3,2,0,0,0,0,0,0`.
pub fn parse_bytes(value: &str) -> (r: Result<Vec<u8>, ByteListError>)
    ensures
        match spec_parse_bytes(value@) {
            Ok(b) => r matches Ok(v) && v@ == b,
            Err(e) => r == Err::<Vec<u8>, ByteListError>(e),
        },
{
    let s = str_chars(value);
    let n = s.len();
    let ghost all = comma_parts(value@);
    let ghost mut done: Seq<Seq<char>> = Seq::empty();
    let mut out: Vec<u8> = Vec::new();
    let mut pos: usize = 0;
    assert(value@.skip(0) =~= value@);
    loop
        invariant
            s@ == value@,
            n == s@.len(),
            pos <= n,
            all == comma_parts(value@),
            all == done + comma_parts(value@.skip(pos as int)),
            out@.len() == done.len(),
            forall|j: int| 0 <= j < done.len() ==> part_byte(#[trigger] done[j]) == Some(out@[j]),
        decreases n - pos,
    {
        let k = find_in(&s, pos, n, ',');
        proof {
            assert(s@.subrange(pos as int, n as int) =~= value@.skip(pos as int));
            lemma_comma_parts_step(value@, pos as int, (k - pos) as int);
        }
        let ghost part = value@.subrange(pos as int, k as int);
        proof {
            assert(part =~= value@.skip(pos as int).take(k - pos));
        }
        let (lo, hi) = trim_range(&s, pos, k);
        let parsed = parse_unsigned(&s, lo, hi, 255);
        match parsed {
            None => {
                proof {
                    let idx = done.len() as int;
                    assert(all[idx] == part);
                    assert(part_byte(all[idx]) is None);
                    assert forall|j: int| 0 <= j < idx implies #[trigger] part_byte(all[j]) is Some by {
                        assert(all[j] == done[j]);
                    }
                }
                return Err(ByteListError::InvalidByte(out.len()));
            },
            Some(v) => {
                out.push(v as u8);
                proof {
                    done = done.push(part);
                }
            },
        }
        if k == n {
            proof {
                assert(all =~= done);
                assert forall|i: int| 0 <= i < all.len() implies #[trigger] part_byte(all[i]) is Some by {
                    assert(all[i] == done[i]);
                }
                assert(out@ =~= Seq::new(all.len(), |i: int| part_byte(all[i]).unwrap()));
            }
            return Ok(out);
        }
        proof {
            assert(done.drop_last() + seq![part] =~= done);
            assert(all =~= done + comma_parts(value@.skip(k + 1)));
        }
        pos = k + 1;
    }
}

/// What the emitter tool writes: the mode's bytes, the explicit value, or
/// nothing.
#[derive(Clone, Copy, Debug, PartialEq, Eq, Structural)]
pub enum ValueChoiceError {
    /// Both a mode and an explicit value were given.
    BothModeAndValue,
}

/// The value to write, chosen from a mode or an explicit byte list; both is an
/// error.
pub fn choose_value(mode: Option<EmitterMode>, value: Option<Vec<u8>>) -> (r: Result<Option<Vec<u8>>, ValueChoiceError>)
    ensures
        match (mode, value) {
            (Some(m), None) => r matches Ok(Some(v)) && v@ == emitter_value(m),
            (None, Some(v0)) => r matches Ok(Some(v)) && v@ == v0@,
            (None, None) => r matches Ok(None),
            (Some(_), Some(_)) => r == Err::<Option<Vec<u8>>, ValueChoiceError>(ValueChoiceError::BothModeAndValue),
        },
{
    match (mode, value) {
        (Some(m), None) => Ok(Some(m.bytes())),
        (None, Some(v)) => Ok(Some(v)),
        (None, None) => Ok(None),
        (Some(_), Some(_)) => Err(ValueChoiceError::BothModeAndValue),
    }
}

/// Checks that a value to write is as long as the control the device
/// reports.
pub fn check_value_len(value: &Vec<u8>, control_len: u16) -> (r: Result<(), LengthMismatch>)
    ensures
        value@.len() == control_len ==> r is Ok,
        value@.len() != control_len ==> r == Err::<(), LengthMismatch>(LengthMismatch { control_len, value_len: value@.len() as usize }),
{
    if value.len() != control_len as usize {
        return Err(LengthMismatch { control_len, value_len: value.len() });
    }
    Ok(())
}

} // verus!
