//! Drawing into the square RGB debug images of the landmark model: single
//! pixels, crosses, and lines between pixel positions.

use vstd::prelude::*;
use crate::decimal::{decimal, decimal_chars, push_chars};
use crate::text::str_chars;

verus! {

/// Bytes a pixel of the debug image.
pub const CHANNELS: usize = 3usize;

/// Whether `(x, y)` lies in an image of `size` by `size` pixels.
pub open spec fn in_image(size: int, x: int, y: int) -> bool {
    0 <= x < size && 0 <= y < size
}

/// The image with pixel `(x, y)` set to `color` when it lies in the image.
pub open spec fn with_pixel(rgb: Seq<u8>, size: int, x: int, y: int, color: Seq<u8>) -> Seq<u8> {
    if in_image(size, x, y) {
        let o = (y * size + x) * 3;
        rgb.update(o, color[0]).update(o + 1, color[1]).update(o + 2, color[2])
    } else {
        rgb
    }
}

/// Sets pixel `(x, y)` of an RGB image of `input_size` by `input_size`
/// pixels to `color`; pixels outside the image are ignored.
pub fn put_pixel(rgb: &mut [u8], input_size: usize, x: i32, y: i32, color: [u8; 3])
    requires
        old(rgb)@.len() == input_size * input_size * 3,
        input_size <= i32::MAX,
    ensures
        final(rgb)@ == with_pixel(old(rgb)@, input_size as int, x as int, y as int, color@),
{
    let n = rgb.len();
    if x < 0 || y < 0 || x >= input_size as i32 || y >= input_size as i32 {
        return;
    }
    proof {
        assert((y * input_size + x) * 3 + 3 <= input_size * input_size * 3) by (nonlinear_arith)
            requires 0 <= x < input_size, 0 <= y < input_size;
    }
    let offset = (y as usize * input_size + x as usize) * CHANNELS;
    rgb[offset] = color[0];
    rgb[offset + 1] = color[1];
    rgb[offset + 2] = color[2];
}

/// The image with every pixel of `points` set, in order.
pub open spec fn with_points(rgb: Seq<u8>, size: int, points: Seq<(i32, i32)>, color: Seq<u8>) -> Seq<u8>
    decreases points.len(),
{
    if points.len() == 0 {
        rgb
    } else {
        let p = points.last();
        with_pixel(with_points(rgb, size, points.drop_last(), color), size, p.0 as int, p.1 as int, color)
    }
}

proof fn lemma_with_pixel_len(rgb: Seq<u8>, size: int, x: int, y: int, color: Seq<u8>)
    requires
        rgb.len() == size * size * 3,
        color.len() == 3,
    ensures
        with_pixel(rgb, size, x, y, color).len() == rgb.len(),
{
    if in_image(size, x, y) {
        assert((y * size + x) * 3 + 3 <= size * size * 3) by (nonlinear_arith)
            requires 0 <= x < size, 0 <= y < size;
    }
}

/// Sets the given pixels of the image, in order.
pub fn put_pixels(rgb: &mut [u8], input_size: usize, points: &[(i32, i32)], color: [u8; 3])
    requires
        old(rgb)@.len() == input_size * input_size * 3,
        input_size <= i32::MAX,
    ensures
        final(rgb)@ == with_points(old(rgb)@, input_size as int, points@, color@),
{
    let ghost start = rgb@;
    let mut k: usize = 0;
    while k < points.len()
        invariant
            k <= points@.len(),
            rgb@.len() == input_size * input_size * 3,
            input_size <= i32::MAX,
            rgb@ == with_points(start, input_size as int, points@.take(k as int), color@),
        decreases points@.len() - k,
    {
        let (x, y) = points[k];
        proof {
            assert(points@.take(k + 1).drop_last() =~= points@.take(k as int));
            lemma_with_pixel_len(rgb@, input_size as int, x as int, y as int, color@);
        }
        put_pixel(rgb, input_size, x, y, color);
        k = k + 1;
    }
    assert(points@.take(points@.len() as int) =~= points@);
}

/// The pixels of a cross of arm length three around `(x, y)`: for each
/// offset from -3 to 3, the pixel that far right, then the one that far
/// down.
pub open spec fn cross_points(x: int, y: int) -> Seq<(i32, i32)> {
    Seq::new(14, |k: int| if k % 2 == 0 { ((x + k / 2 - 3) as i32, y as i32) } else { (x as i32, (y + k / 2 - 3) as i32) })
}

/// The pixels of the cross around `(x, y)`.
pub fn cross(x: i32, y: i32) -> (points: Vec<(i32, i32)>)
    requires
        -2147483645 <= x <= 2147483644,
        -2147483645 <= y <= 2147483644,
    ensures
        points@ == cross_points(x as int, y as int),
{
    let mut points: Vec<(i32, i32)> = Vec::new();
    let mut d: i32 = -3;
    while d <= 3
        invariant
            -3 <= d <= 4,
            -2147483645 <= x <= 2147483644,
            -2147483645 <= y <= 2147483644,
            points@ == cross_points(x as int, y as int).take(2 * (d + 3)),
        decreases 4 - d,
    {
        points.push((x + d, y));
        points.push((x, y + d));
        proof {
            let k = 2 * (d + 3);
            assert(cross_points(x as int, y as int).take(k + 2)
                =~= cross_points(x as int, y as int).take(k).push(((x + d) as i32, y)).push((x, (y + d) as i32)));
        }
        d = d + 1;
    }
    assert(cross_points(x as int, y as int).take(14) =~= cross_points(x as int, y as int));
    points
}

/// `v` without its sign.
pub open spec fn abs(v: int) -> int {
    if v >= 0 { v } else { -v }
}

/// The direction from `from` to `to`: 1, or -1 when `to` is not greater.
pub open spec fn direction(from: int, to: int) -> int {
    if from < to { 1 } else { -1 }
}

/// Each point of a line follows the previous one by one pixel at most on
/// each axis, in the direction of the end, and moves.
pub open spec fn steps_toward(p: (i32, i32), q: (i32, i32), sx: int, sy: int) -> bool {
    &&& (q.0 == p.0 || q.0 == p.0 + sx)
    &&& (q.1 == p.1 || q.1 == p.1 + sy)
    &&& q != p
}

/// The error term cannot move past the end on an axis already reached, and
/// always allows a step on one axis.
proof fn lemma_no_overshoot(a: int, b: int, i: int, j: int, err: int)
    requires
        0 <= i <= a,
        0 <= j <= b,
        !(i == a && j == b),
        err == a * (1 + j) - b * (1 + i),
    ensures
        2 * err >= -b ==> i < a,
        2 * err <= a ==> j < b,
        2 * err >= -b || 2 * err <= a,
{
    if i == a && j < b {
        assert(2 * err == 2 * a * (1 + j - b) - 2 * b) by (nonlinear_arith)
            requires err == a * (1 + j) - b * (1 + i), i == a;
        assert(2 * a * (1 + j - b) <= 0) by (nonlinear_arith)
            requires 0 <= a, 0 <= j < b;
        assert(2 * err < -b);
    }
    if j == b && i < a {
        assert(2 * err == 2 * a * (1 + b) - 2 * b * (1 + i)) by (nonlinear_arith)
            requires err == a * (1 + j) - b * (1 + i), j == b;
        assert(a * (2 * b + 1) > 2 * b * (1 + i)) by (nonlinear_arith)
            requires 0 <= b, 0 <= i < a;
        assert(2 * a * (1 + b) == 2 * a + 2 * (a * b)) by (nonlinear_arith);
        assert(a * (2 * b + 1) == 2 * (a * b) + a) by (nonlinear_arith);
        assert(2 * err > a);
    }
}

/// `points` go from `(x0, y0)` to `(x1, y1)`, one pixel at a time toward
/// the end, and are no more than the two distances apart plus one.
pub open spec fn is_line_path(points: Seq<(i32, i32)>, x0: i32, y0: i32, x1: i32, y1: i32) -> bool {
    &&& points.len() >= 1
    &&& points[0] == (x0, y0)
    &&& points.last() == (x1, y1)
    &&& points.len() <= abs(x1 - x0) + abs(y1 - y0) + 1
    &&& forall|k: int| 0 <= k < points.len() - 1 ==>
        steps_toward(#[trigger] points[k], points[k + 1], direction(x0 as int, x1 as int), direction(y0 as int, y1 as int))
}

/// The steps of Bresenham's method on a line that runs `a` pixels along x
/// and `b` along y, as counts `(i, j)` of pixels moved on each axis, from
/// `(i, j)` on: the error term `a * (1 + j) - b * (1 + i)`, doubled, moves
/// along x when it is at least `-b` and along y when it is at most `a`. It
/// stops at `(a, b)`, or when `f` steps are spent.
pub open spec fn bresenham_steps(a: int, b: int, i: int, j: int, f: nat) -> Seq<(int, int)>
    decreases f,
{
    if (i == a && j == b) || f == 0 {
        seq![(i, j)]
    } else {
        let e2 = 2 * (a * (1 + j) - b * (1 + i));
        let ni = if e2 >= -b { i + 1 } else { i };
        let nj = if e2 <= a { j + 1 } else { j };
        seq![(i, j)] + bresenham_steps(a, b, ni, nj, (f - 1) as nat)
    }
}

/// The pixel reached after moving `p.0` pixels along x and `p.1` along y
/// from `(x0, y0)` toward `(x1, y1)`.
pub open spec fn step_pixel(x0: i32, y0: i32, x1: i32, y1: i32, p: (int, int)) -> (i32, i32) {
    ((x0 + direction(x0 as int, x1 as int) * p.0) as i32, (y0 + direction(y0 as int, y1 as int) * p.1) as i32)
}

/// The pixels of the line from `(x0, y0)` to `(x1, y1)` by Bresenham's
/// method, from the start to the end.
pub open spec fn bresenham_points(x0: i32, y0: i32, x1: i32, y1: i32) -> Seq<(i32, i32)> {
    let a = abs(x1 - x0);
    let b = abs(y1 - y0);
    bresenham_steps(a, b, 0, 0, (a + b) as nat).map_values(|p: (int, int)| step_pixel(x0, y0, x1, y1, p))
}

/// The pixels of the line from `(x0, y0)` to `(x1, y1)` that Bresenham's
/// method draws, from the start to the end.
pub fn line_points(x0: i32, y0: i32, x1: i32, y1: i32) -> (points: Vec<(i32, i32)>)
    ensures
        points@ == bresenham_points(x0, y0, x1, y1),
        is_line_path(points@, x0, y0, x1, y1),
{
    let dx: i64 = if x1 >= x0 { x1 as i64 - x0 as i64 } else { x0 as i64 - x1 as i64 };
    let sx: i32 = if x0 < x1 { 1 } else { -1 };
    let dy: i64 = if y1 >= y0 { -(y1 as i64 - y0 as i64) } else { -(y0 as i64 - y1 as i64) };
    let sy: i32 = if y0 < y1 { 1 } else { -1 };
    let mut err: i64 = dx + dy;
    let mut x = x0;
    let mut y = y0;
    let ghost a = dx as int;
    let ghost b = -dy as int;
    let ghost mut i: int = 0;
    let ghost mut j: int = 0;
    let ghost full = bresenham_steps(a, b, 0, 0, (a + b) as nat);
    let ghost mut f: nat = (a + b) as nat;
    let ghost mut ij: Seq<(int, int)> = seq![(0int, 0int)];
    let ghost pixel = |p: (int, int)| step_pixel(x0, y0, x1, y1, p);
    let mut points: Vec<(i32, i32)> = Vec::new();
    points.push((x, y));
    proof {
        assert(ij.drop_last() + full =~= full);
        assert(sx * i == 0 && sy * j == 0) by (nonlinear_arith)
            requires i == 0, j == 0;
        assert(direction(x0 as int, x1 as int) * 0int == 0 && direction(y0 as int, y1 as int) * 0int == 0);
        assert(step_pixel(x0, y0, x1, y1, (0int, 0int)) == (x0, y0));
        assert(ij.map_values(pixel)[0] == pixel(ij[0]));
        assert(points@ =~= ij.map_values(pixel));
    }
    loop
        invariant
            a == abs(x1 - x0),
            b == abs(y1 - y0),
            dx == a,
            dy == -b,
            sx == direction(x0 as int, x1 as int),
            sy == direction(y0 as int, y1 as int),
            0 <= i <= a,
            0 <= j <= b,
            x == x0 + sx * i,
            y == y0 + sy * j,
            err == a * (1 + j) - b * (1 + i),
            -2 * b <= err <= 2 * a,
            points@.len() >= 1,
            points@.len() <= i + j + 1,
            points@[0] == (x0, y0),
            points@.last() == (x, y),
            full == bresenham_steps(a, b, 0, 0, (a + b) as nat),
            pixel == (|p: (int, int)| step_pixel(x0, y0, x1, y1, p)),
            f >= (a - i) + (b - j),
            ij.len() == points@.len(),
            ij.last() == (i, j),
            ij.drop_last() + bresenham_steps(a, b, i, j, f) == full,
            points@ == ij.map_values(pixel),
            forall|k: int| 0 <= k < points@.len() - 1 ==>
                steps_toward(#[trigger] points@[k], points@[k + 1], sx as int, sy as int),
        ensures
            points@.len() >= 1,
            points@[0] == (x0, y0),
            points@.last() == (x1, y1),
            points@ == full.map_values(pixel),
            points@.len() <= a + b + 1,
            forall|k: int| 0 <= k < points@.len() - 1 ==>
                steps_toward(#[trigger] points@[k], points@[k + 1], sx as int, sy as int),
        decreases (a - i) + (b - j),
    {
        if x == x1 && y == y1 {
            proof {
                assert(i == a && j == b);
                assert(bresenham_steps(a, b, i, j, f) == seq![(i, j)]);
                assert(ij =~= ij.drop_last() + seq![(i, j)]);
            }
            break;
        }
        proof {
            if i == a && j == b {
                assert(x == x1 && y == y1);
            }
            lemma_no_overshoot(a, b, i, j, err as int);
        }
        let e2 = 2 * err;
        let ghost prev = (x, y);
        let ghost prev_points = points@;
        let ghost (pi, pj) = (i, j);
        proof {
            assert(f > 0);
            assert(!(i == a && j == b));
        }
        if e2 >= dy {
            proof {
                assert(a * (1 + j) - b * (1 + (i + 1)) == a * (1 + j) - b * (1 + i) - b) by (nonlinear_arith);
                assert(sx * (i + 1) == sx * i + sx) by (nonlinear_arith);
            }
            err = err + dy;
            x = x + sx;
            proof { i = i + 1; }
        }
        if e2 <= dx {
            proof {
                assert(a * (1 + (j + 1)) - b * (1 + i) == a * (1 + j) - b * (1 + i) + a) by (nonlinear_arith);
                assert(sy * (j + 1) == sy * j + sy) by (nonlinear_arith);
            }
            err = err + dx;
            y = y + sy;
            proof { j = j + 1; }
        }
        points.push((x, y));
        proof {
            let tail = bresenham_steps(a, b, i, j, (f - 1) as nat);
            assert(bresenham_steps(a, b, pi, pj, f) == seq![(pi, pj)] + tail);
            assert(ij.drop_last() + (seq![(pi, pj)] + tail) =~= ij + tail);
            ij = ij.push((i, j));
            assert(ij.drop_last() + tail =~= full);
            f = (f - 1) as nat;
            assert(x == x0 + sx * i && y == y0 + sy * j);
            assert(pixel((i, j)) == (x, y));
            assert(points@ =~= ij.map_values(pixel));
            assert(points@[points@.len() - 2] == prev);
            assert forall|k: int| 0 <= k < points@.len() - 1 implies
                steps_toward(#[trigger] points@[k], points@[k + 1], sx as int, sy as int) by {
                if k < points@.len() - 2 {
                    assert(points@[k] == prev_points[k] && points@[k + 1] == prev_points[k + 1]);
                }
            }
        }
    }
    points
}

/// Draws the line from `(x0, y0)` to `(x1, y1)` into the image.
pub fn draw_line(rgb: &mut [u8], input_size: usize, x0: i32, y0: i32, x1: i32, y1: i32, color: [u8; 3])
    requires
        old(rgb)@.len() == input_size * input_size * 3,
        input_size <= i32::MAX,
    ensures
        final(rgb)@ == with_points(old(rgb)@, input_size as int, bresenham_points(x0, y0, x1, y1), color@),
{
    let points = line_points(x0, y0, x1, y1);
    put_pixels(rgb, input_size, points.as_slice(), color);
}

/// Draws a cross of arm length three around `(x, y)` into the image.
pub fn draw_cross(rgb: &mut [u8], input_size: usize, x: i32, y: i32, color: [u8; 3])
    requires
        old(rgb)@.len() == input_size * input_size * 3,
        input_size <= i32::MAX,
        -2147483645 <= x <= 2147483644,
        -2147483645 <= y <= 2147483644,
    ensures
        final(rgb)@ == with_points(old(rgb)@, input_size as int, cross_points(x as int, y as int), color@),
{
    let points = cross(x, y);
    put_pixels(rgb, input_size, points.as_slice(), color);
}

/// The header of a binary PPM image of `size` by `size` pixels with
/// components up to 255: `P6`, the width and height, and the largest
/// component value, one line each.
pub open spec fn spec_ppm_header(size: nat) -> Seq<char> {
    "P6\n"@ + decimal(size) + " "@ + decimal(size) + "\n255\n"@
}

/// The header that comes before the pixels of a square debug image dumped as
/// a binary PPM file.
pub fn ppm_header(input_size: u64) -> (head: String)
    ensures head@ == spec_ppm_header(input_size as nat),
{
    let digits = decimal_chars(input_size);
    let mut head = String::new();
    push_chars(&mut head, str_chars("P6\n").as_slice());
    push_chars(&mut head, digits.as_slice());
    push_chars(&mut head, str_chars(" ").as_slice());
    push_chars(&mut head, digits.as_slice());
    push_chars(&mut head, str_chars("\n255\n").as_slice());
    proof {
        assert(head@ =~= spec_ppm_header(input_size as nat));
    }
    head
}

} // verus!
