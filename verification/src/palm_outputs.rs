//! Telling apart the outputs of the hand models from their names and shapes:
//! for the palm detector, which output holds the box coordinates (18 numbers
//! an anchor) and which the scores; for the landmark model, which holds the
//! 21 landmarks, the presence score and the handedness.

use vstd::prelude::*;
use crate::text::{range_eq, str_chars};

verus! {

/// What is known of one model output: its name, its number of elements
/// (zero when the shape is not fully known), and its last dimension.
#[derive(Clone, Debug)]
pub struct OutputInfo {
    pub name: String,
    pub elements: usize,
    pub last_dim: Option<usize>,
}

/// Which outputs to read, by index, and the number of anchors.
#[derive(Clone, Copy, Debug, PartialEq, Eq, Structural)]
pub struct PalmOutputSpec {
    pub coords: usize,
    pub scores: usize,
    pub anchor_count: usize,
}

/// No output holds box coordinates.
#[derive(Clone, Copy, Debug, PartialEq, Eq, Structural)]
pub struct NoCoordsOutput;

/// `c` in ASCII lower case.
pub open spec fn lower(c: char) -> char {
    if 'A' <= c <= 'Z' { ((c as u32) + 32) as char } else { c }
}

/// `s` in ASCII lower case.
pub open spec fn lower_seq(s: Seq<char>) -> Seq<char> {
    Seq::new(s.len(), |i: int| lower(s[i]))
}

/// `pat` occurs in `s`.
pub open spec fn has(s: Seq<char>, pat: Seq<char>) -> bool {
    exists|i: int| 0 <= i && i + pat.len() <= s.len() && #[trigger] s.subrange(i, i + pat.len()) == pat
}

/// The output holds box coordinates, by name or by shape.
pub open spec fn is_coords(name: Seq<char>, elements: int, last_dim: Option<usize>) -> bool {
    let n = lower_seq(name);
    ||| has(n, "box_coords"@)
    ||| has(n, "regressor"@)
    ||| last_dim == Some(18usize)
    ||| (elements > 0 && last_dim != Some(1usize) && elements % 18 == 0)
}

/// The output holds scores, by name or by shape, and has elements.
pub open spec fn is_scores(name: Seq<char>, elements: int, last_dim: Option<usize>) -> bool {
    let n = lower_seq(name);
    &&& (has(n, "box_scores"@) || has(n, "classificator"@) || has(n, "score"@) || last_dim == Some(1usize))
    &&& elements > 0
}

pub open spec fn coords_at(outs: Seq<OutputInfo>, i: int) -> bool {
    is_coords(outs[i].name@, outs[i].elements as int, outs[i].last_dim)
}

pub open spec fn scores_at(outs: Seq<OutputInfo>, i: int) -> bool {
    is_scores(outs[i].name@, outs[i].elements as int, outs[i].last_dim)
}

/// `i` is the first output for which `coords_at` holds.
pub open spec fn first_coords(outs: Seq<OutputInfo>, i: int) -> bool {
    0 <= i < outs.len() && coords_at(outs, i) && forall|j: int| 0 <= j < i ==> !#[trigger] coords_at(outs, j)
}

pub open spec fn first_scores(outs: Seq<OutputInfo>, i: int) -> bool {
    0 <= i < outs.len() && scores_at(outs, i) && forall|j: int| 0 <= j < i ==> !#[trigger] scores_at(outs, j)
}

/// `i` is the first output with exactly `count` elements.
pub open spec fn first_with_elements(outs: Seq<OutputInfo>, count: int, i: int) -> bool {
    0 <= i < outs.len() && outs[i].elements == count
        && forall|j: int| 0 <= j < i ==> #[trigger] outs[j].elements != count
}

/// What `classify_outputs` gives: the first coordinates output and its
/// anchors (an eighteenth of its elements); the first scores
/// output, else the first output with one element an anchor, else the one
/// after the coordinates (or the last).
pub open spec fn is_classification(outs: Seq<OutputInfo>, r: Result<PalmOutputSpec, NoCoordsOutput>) -> bool {
    if !(exists|i: int| 0 <= i < outs.len() && #[trigger] coords_at(outs, i)) {
        r == Err::<PalmOutputSpec, NoCoordsOutput>(NoCoordsOutput)
    } else {
        r matches Ok(spec) && {
            &&& first_coords(outs, spec.coords as int)
            &&& spec.anchor_count == outs[spec.coords as int].elements / 18
            &&& if exists|i: int| 0 <= i < outs.len() && #[trigger] scores_at(outs, i) {
                first_scores(outs, spec.scores as int)
            } else if exists|i: int| 0 <= i < outs.len() && #[trigger] outs[i].elements == spec.anchor_count {
                first_with_elements(outs, spec.anchor_count as int, spec.scores as int)
            } else {
                spec.scores as int == if spec.coords + 1 <= outs.len() - 1 { spec.coords + 1 } else { outs.len() - 1 }
            }
        }
    }
}

fn lower_char(c: char) -> (r: char)
    ensures r == lower(c),
{
    if 'A' <= c && c <= 'Z' {
        let u = (c as u32 + 32) as u8;
        u as char
    } else {
        c
    }
}

fn lowercase(s: &str) -> (out: Vec<char>)
    ensures out@ == lower_seq(s@),
{
    let chars = str_chars(s);
    let mut out: Vec<char> = Vec::new();
    let mut i: usize = 0;
    while i < chars.len()
        invariant
            chars@ == s@,
            i <= chars@.len(),
            out@ == lower_seq(chars@).take(i as int),
        decreases chars@.len() - i,
    {
        out.push(lower_char(chars[i]));
        i = i + 1;
        assert(out@ =~= lower_seq(chars@).take(i as int));
    }
    assert(lower_seq(chars@).take(chars@.len() as int) =~= lower_seq(chars@));
    out
}

/// Whether `pat` occurs in `s`.
pub fn contains(s: &Vec<char>, pat: &[char]) -> (b: bool)
    ensures b == has(s@, pat@),
{
    let n = s.len();
    let m = pat.len();
    if m > n {
        return false;
    }
    if m == 0 {
        assert(s@.subrange(0int, 0int + pat@.len()) =~= pat@);
        return true;
    }
    let mut i: usize = 0;
    while i <= n - m
        invariant
            n == s@.len(),
            m == pat@.len(),
            1 <= m <= n,
            i <= n - m + 1,
            forall|k: int| 0 <= k < i ==> #[trigger] s@.subrange(k, k + m) != pat@,
        decreases n - m + 1 - i,
    {
        if range_eq(s, i, i + m, pat) {
            return true;
        }
        i = i + 1;
    }
    assert forall|k: int| 0 <= k && k + pat@.len() <= s@.len() implies #[trigger] s@.subrange(k, k + pat@.len()) != pat@ by {
        assert(k < i);
    }
    false
}

fn is_coords_exec(o: &OutputInfo, name: &Vec<char>) -> (b: bool)
    requires name@ == lower_seq(o.name@),
    ensures b == is_coords(o.name@, o.elements as int, o.last_dim),
{
    let box_coords: [char; 10] = ['b', 'o', 'x', '_', 'c', 'o', 'o', 'r', 'd', 's'];
    let regressor: [char; 9] = ['r', 'e', 'g', 'r', 'e', 's', 's', 'o', 'r'];
    proof {
        reveal_strlit("box_coords");
        reveal_strlit("regressor");
        assert(box_coords@ =~= "box_coords"@);
        assert(regressor@ =~= "regressor"@);
    }
    contains(name, &box_coords) || contains(name, &regressor) || o.last_dim == Some(18usize)
        || (o.elements > 0 && o.last_dim != Some(1usize) && o.elements % 18 == 0)
}

fn is_scores_exec(o: &OutputInfo, name: &Vec<char>) -> (b: bool)
    requires name@ == lower_seq(o.name@),
    ensures b == is_scores(o.name@, o.elements as int, o.last_dim),
{
    let box_scores: [char; 10] = ['b', 'o', 'x', '_', 's', 'c', 'o', 'r', 'e', 's'];
    let classificator: [char; 13] = ['c', 'l', 'a', 's', 's', 'i', 'f', 'i', 'c', 'a', 't', 'o', 'r'];
    let score: [char; 5] = ['s', 'c', 'o', 'r', 'e'];
    proof {
        reveal_strlit("box_scores");
        reveal_strlit("classificator");
        reveal_strlit("score");
        assert(box_scores@ =~= "box_scores"@);
        assert(classificator@ =~= "classificator"@);
        assert(score@ =~= "score"@);
    }
    (contains(name, &box_scores) || contains(name, &classificator) || contains(name, &score)
        || o.last_dim == Some(1usize)) && o.elements > 0
}

/// Picks the coordinates and scores outputs of a palm-detector model.
pub fn classify_outputs(outputs: &[OutputInfo]) -> (r: Result<PalmOutputSpec, NoCoordsOutput>)
    ensures is_classification(outputs@, r),
{
    let ghost outs = outputs@;
    let n = outputs.len();
    let mut coords: Option<(usize, usize)> = None;
    let mut scores: Option<usize> = None;
    let mut i: usize = 0;
    while i < n
        invariant
            n == outs.len(),
            outs == outputs@,
            i <= n,
            match coords {
                None => forall|j: int| 0 <= j < i ==> !#[trigger] coords_at(outs, j),
                Some((c, count)) => c < i && first_coords(outs, c as int) && count == outs[c as int].elements / 18,
            },
            match scores {
                None => forall|j: int| 0 <= j < i ==> !#[trigger] scores_at(outs, j),
                Some(s) => s < i && first_scores(outs, s as int),
            },
        decreases n - i,
    {
        let o = &outputs[i];
        let name = lowercase(o.name.as_str());
        if coords.is_none() && is_coords_exec(o, &name) {
            coords = Some((i, o.elements / 18));
        }
        if scores.is_none() && is_scores_exec(o, &name) {
            scores = Some(i);
        }
        i = i + 1;
    }
    let (coords_output, anchor_count) = match coords {
        None => { return Err(NoCoordsOutput); },
        Some(c) => c,
    };
    let scores_output = match scores {
        Some(s) => s,
        None => {
            let mut k: usize = 0;
            let mut found: Option<usize> = None;
            while k < n
                invariant
                    n == outs.len(),
                    outs == outputs@,
                    k <= n,
                    match found {
                        None => forall|j: int| 0 <= j < k ==> #[trigger] outs[j].elements != anchor_count,
                        Some(f) => first_with_elements(outs, anchor_count as int, f as int),
                    },
                decreases n - k,
            {
                if found.is_none() && outputs[k].elements == anchor_count {
                    found = Some(k);
                }
                k = k + 1;
            }
            match found {
                Some(f) => f,
                None => {
                    let next = coords_output + 1;
                    if next <= n - 1 { next } else { n - 1 }
                },
            }
        },
    };
    Ok(PalmOutputSpec { coords: coords_output, scores: scores_output, anchor_count })
}

/// Which outputs of a hand-landmark model to read, by index.
#[derive(Clone, Copy, Debug, PartialEq, Eq, Structural)]
pub struct LandmarkOutputSpec {
    pub landmarks: usize,
    pub presence: Option<usize>,
    pub handedness: Option<usize>,
}

/// No output holds the 21 landmarks of three coordinates.
#[derive(Clone, Copy, Debug, PartialEq, Eq, Structural)]
pub struct NoLandmarkOutput;

/// The output is named as the landmarks (and not the world landmarks) and
/// holds 63 numbers.
pub open spec fn landmarks_named_at(outs: Seq<OutputInfo>, i: int) -> bool {
    let n = lower_seq(outs[i].name@);
    &&& (has(n, "landmark"@) || has(n, "identity"@))
    &&& !(has(n, "world"@))
    &&& outs[i].elements == 63
}

/// The output is named as the presence score and holds one number.
pub open spec fn presence_named_at(outs: Seq<OutputInfo>, i: int) -> bool {
    let n = lower_seq(outs[i].name@);
    (has(n, "presence"@) || has(n, "score"@)) && outs[i].elements == 1
}

/// The output is named as the handedness and holds one number.
pub open spec fn handedness_named_at(outs: Seq<OutputInfo>, i: int) -> bool {
    has(lower_seq(outs[i].name@), "handed"@) && outs[i].elements == 1
}

/// `i` is the first output for which `p` holds.
pub open spec fn first_where(outs: Seq<OutputInfo>, p: spec_fn(int) -> bool, i: int) -> bool {
    0 <= i < outs.len() && p(i) && forall|j: int| 0 <= j < i ==> !#[trigger] p(j)
}

/// Some output satisfies `p`.
pub open spec fn some_where(outs: Seq<OutputInfo>, p: spec_fn(int) -> bool) -> bool {
    exists|i: int| 0 <= i < outs.len() && #[trigger] p(i)
}

/// What `classify_landmark_outputs` gives: the landmarks are the first output
/// named so, else the first with 63 elements; the presence score the first
/// named so, else the first with one element, else none; the handedness the
/// first named so, else none. Without an output of 63 elements it fails.
pub open spec fn is_landmark_classification(outs: Seq<OutputInfo>, r: Result<LandmarkOutputSpec, NoLandmarkOutput>) -> bool {
    let named_landmarks = |i: int| landmarks_named_at(outs, i);
    let sixty_three = |i: int| outs[i].elements == 63;
    let named_presence = |i: int| presence_named_at(outs, i);
    let one = |i: int| outs[i].elements == 1;
    let named_handedness = |i: int| handedness_named_at(outs, i);
    if !some_where(outs, sixty_three) {
        r == Err::<LandmarkOutputSpec, NoLandmarkOutput>(NoLandmarkOutput)
    } else {
        r matches Ok(spec) && {
            &&& if some_where(outs, named_landmarks) {
                first_where(outs, named_landmarks, spec.landmarks as int)
            } else {
                first_where(outs, sixty_three, spec.landmarks as int)
            }
            &&& if some_where(outs, named_presence) {
                spec.presence matches Some(p) && first_where(outs, named_presence, p as int)
            } else if some_where(outs, one) {
                spec.presence matches Some(p) && first_where(outs, one, p as int)
            } else {
                spec.presence is None
            }
            &&& if some_where(outs, named_handedness) {
                spec.handedness matches Some(h) && first_where(outs, named_handedness, h as int)
            } else {
                spec.handedness is None
            }
        }
    }
}

fn name_has(name: &Vec<char>, word: &str) -> (b: bool)
    ensures b == has(name@, word@),
{
    let w = str_chars(word);
    contains(name, w.as_slice())
}

/// The index of the first output with exactly `count` elements, if any.
fn first_with_count(outputs: &[OutputInfo], count: usize) -> (r: Option<usize>)
    ensures
        match r {
            Some(i) => first_where(outputs@, |j: int| outputs@[j].elements == count, i as int),
            None => !some_where(outputs@, |j: int| outputs@[j].elements == count),
        },
{
    let ghost p = |j: int| outputs@[j].elements == count;
    let mut k: usize = 0;
    while k < outputs.len()
        invariant
            k <= outputs@.len(),
            p == (|j: int| outputs@[j].elements == count),
            forall|j: int| 0 <= j < k ==> !#[trigger] p(j),
        decreases outputs@.len() - k,
    {
        if outputs[k].elements == count {
            return Some(k);
        }
        k = k + 1;
    }
    None
}

/// Picks the landmark, presence and handedness outputs of a hand-landmark
/// model.
pub fn classify_landmark_outputs(outputs: &[OutputInfo]) -> (r: Result<LandmarkOutputSpec, NoLandmarkOutput>)
    ensures is_landmark_classification(outputs@, r),
{
    let ghost outs = outputs@;
    let ghost named_landmarks = |i: int| landmarks_named_at(outs, i);
    let ghost named_presence = |i: int| presence_named_at(outs, i);
    let ghost named_handedness = |i: int| handedness_named_at(outs, i);
    let n = outputs.len();
    let mut landmarks: Option<usize> = None;
    let mut presence: Option<usize> = None;
    let mut handedness: Option<usize> = None;
    let mut i: usize = 0;
    while i < n
        invariant
            n == outs.len(),
            outs == outputs@,
            i <= n,
            named_landmarks == (|i: int| landmarks_named_at(outs, i)),
            named_presence == (|i: int| presence_named_at(outs, i)),
            named_handedness == (|i: int| handedness_named_at(outs, i)),
            match landmarks {
                None => forall|j: int| 0 <= j < i ==> !#[trigger] named_landmarks(j),
                Some(l) => l < i && first_where(outs, named_landmarks, l as int),
            },
            match presence {
                None => forall|j: int| 0 <= j < i ==> !#[trigger] named_presence(j),
                Some(p) => p < i && first_where(outs, named_presence, p as int),
            },
            match handedness {
                None => forall|j: int| 0 <= j < i ==> !#[trigger] named_handedness(j),
                Some(h) => h < i && first_where(outs, named_handedness, h as int),
            },
        decreases n - i,
    {
        let o = &outputs[i];
        let name = lowercase(o.name.as_str());
        if landmarks.is_none() && (name_has(&name, "landmark") || name_has(&name, "identity"))
            && !name_has(&name, "world") && o.elements == 63 {
            landmarks = Some(i);
        }
        if presence.is_none() && (name_has(&name, "presence") || name_has(&name, "score")) && o.elements == 1 {
            presence = Some(i);
        }
        if handedness.is_none() && name_has(&name, "handed") && o.elements == 1 {
            handedness = Some(i);
        }
        proof {
            assert(named_landmarks(i as int) == landmarks_named_at(outs, i as int));
            assert(named_presence(i as int) == presence_named_at(outs, i as int));
            assert(named_handedness(i as int) == handedness_named_at(outs, i as int));
        }
        i = i + 1;
    }
    let ghost sixty_three = |j: int| outs[j].elements == 63;
    let ghost one = |j: int| outs[j].elements == 1;
    proof {
        assert(sixty_three =~= (|j: int| outputs@[j].elements == 63usize));
        assert(one =~= (|j: int| outputs@[j].elements == 1usize));
        if let Some(l) = landmarks {
            assert(sixty_three(l as int));
        }
    }
    let landmarks = match landmarks {
        Some(l) => l,
        None => match first_with_count(outputs, 63) {
            Some(l) => l,
            None => {
                return Err(NoLandmarkOutput);
            },
        },
    };
    let presence = match presence {
        Some(p) => Some(p),
        None => first_with_count(outputs, 1),
    };
    Ok(LandmarkOutputSpec { landmarks, presence, handedness })
}

/// The side of a square model input, from its tensor shape (batch, channels,
/// height, width): the height when it is positive and equals the width.
/// An output that is no tensor has no shape.
pub fn square_input_size(shape: Option<&[i64]>) -> (r: Option<usize>)
    ensures
        r == match shape {
            Some(s) if s@.len() >= 4 && s@[2] > 0 && s@[2] == s@[3] => Some(s@[2] as usize),
            _ => None::<usize>,
        },
{
    match shape {
        None => None,
        Some(s) => {
            if s.len() < 4 {
                return None;
            }
            let height = s[2];
            let width = s[3];
            if height > 0 && height == width {
                Some(height as usize)
            } else {
                None
            }
        },
    }
}

} // verus!
