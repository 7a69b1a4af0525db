use vstd::prelude::*;

verus! {

/// Width and height of a frame or region, in pixels.
#[derive(Clone, Copy, Debug, PartialEq, Eq, Structural)]
pub struct Size {
    pub width: u32,
    pub height: u32,
}

/// An axis-aligned rectangle: top-left corner and size, in pixels.
#[derive(Clone, Copy, Debug, PartialEq, Eq, Structural)]
pub struct Rect {
    pub x: u32,
    pub y: u32,
    pub size: Size,
}

/// `a + b`, saturated at `u32::MAX`.
pub open spec fn sat_add(a: u32, b: u32) -> u32 {
    if a + b > u32::MAX { u32::MAX } else { (a + b) as u32 }
}

/// `a - b`, saturated at zero.
pub open spec fn sat_sub(a: u32, b: u32) -> u32 {
    if a >= b { (a - b) as u32 } else { 0 }
}

pub open spec fn min_u32(a: u32, b: u32) -> u32 {
    if a <= b { a } else { b }
}

pub open spec fn max_u32(a: u32, b: u32) -> u32 {
    if a >= b { a } else { b }
}

/// `v` clamped into `[lo, hi]` (the caller guarantees `lo <= hi`).
pub open spec fn clamp_u32(v: u32, lo: u32, hi: u32) -> u32 {
    if v < lo { lo } else if v > hi { hi } else { v }
}

pub open spec fn rect(x: u32, y: u32, width: u32, height: u32) -> Rect {
    Rect { x, y, size: Size { width, height } }
}

/// The part of `r` that lies inside a frame of size `bounds`.
pub open spec fn spec_clamp_rect(r: Rect, bounds: Size) -> Rect {
    let x = min_u32(r.x, bounds.width);
    let y = min_u32(r.y, bounds.height);
    rect(
        x,
        y,
        min_u32(r.size.width, sat_sub(bounds.width, x)),
        min_u32(r.size.height, sat_sub(bounds.height, y)),
    )
}

/// `r` grown by `padding` on every side, cut to the frame `bounds` on the
/// right and bottom (the left and top stop at zero).
pub open spec fn spec_padded_rect(r: Rect, padding: u32, bounds: Size) -> Rect {
    let x0 = sat_sub(r.x, padding);
    let y0 = sat_sub(r.y, padding);
    let x1 = min_u32(sat_add(sat_add(r.x, r.size.width), padding), bounds.width);
    let y1 = min_u32(sat_add(sat_add(r.y, r.size.height), padding), bounds.height);
    rect(x0, y0, sat_sub(x1, x0), sat_sub(y1, y0))
}

/// Edge length that `expand_to_min_edge` gives one axis.
pub open spec fn expanded_edge(edge: u32, min_edge: u32, bound: u32) -> u32 {
    max_u32(min_u32(max_u32(edge, min_edge), bound), 1)
}

/// Start coordinate that `expand_to_min_edge` gives one axis.
pub open spec fn expanded_start(start: u32, edge: u32, min_edge: u32, b0: u32, bedge: u32) -> u32 {
    let len = expanded_edge(edge, min_edge, bedge);
    let b1 = sat_add(b0, bedge);
    let c = clamp_u32(sat_add(start, edge / 2), b0, b1);
    clamp_u32(sat_sub(c, len / 2), b0, sat_sub(b1, len))
}

/// The inputs on which `expand_to_min_edge` does not panic: the clamp range of
/// the new start must not be empty on either axis.
pub open spec fn expand_defined(r: Rect, min_edge: u32, bounds: Rect) -> bool {
    &&& sat_sub(sat_add(bounds.x, bounds.size.width), expanded_edge(r.size.width, min_edge, bounds.size.width)) >= bounds.x
    &&& sat_sub(sat_add(bounds.y, bounds.size.height), expanded_edge(r.size.height, min_edge, bounds.size.height)) >= bounds.y
}

pub open spec fn spec_expand_to_min_edge(r: Rect, min_edge: u32, bounds: Rect) -> Rect {
    rect(
        expanded_start(r.x, r.size.width, min_edge, bounds.x, bounds.size.width),
        expanded_start(r.y, r.size.height, min_edge, bounds.y, bounds.size.height),
        expanded_edge(r.size.width, min_edge, bounds.size.width),
        expanded_edge(r.size.height, min_edge, bounds.size.height),
    )
}

fn min_of(a: u32, b: u32) -> (r: u32)
    ensures r == min_u32(a, b),
{
    if a <= b { a } else { b }
}

fn max_of(a: u32, b: u32) -> (r: u32)
    ensures r == max_u32(a, b),
{
    if a >= b { a } else { b }
}

fn clamp_to(v: u32, lo: u32, hi: u32) -> (r: u32)
    requires lo <= hi,
    ensures r == clamp_u32(v, lo, hi),
{
    if v < lo { lo } else if v > hi { hi } else { v }
}

/// Cuts `rect` to the frame `bounds`: the start is moved inside the frame and
/// the size shrunk so that the rectangle ends inside it.
pub fn clamp_rect(r: Rect, bounds: Size) -> (out: Rect)
    ensures
        out == spec_clamp_rect(r, bounds),
        out.x + out.size.width <= bounds.width,
        out.y + out.size.height <= bounds.height,
{
    let x = min_of(r.x, bounds.width);
    let y = min_of(r.y, bounds.height);
    Rect {
        x,
        y,
        size: Size {
            width: min_of(r.size.width, bounds.width.saturating_sub(x)),
            height: min_of(r.size.height, bounds.height.saturating_sub(y)),
        },
    }
}

/// Grows `rect` by `padding` pixels on every side, staying inside `bounds`
/// on the right and bottom.
pub fn padded_rect(r: Rect, padding: u32, bounds: Size) -> (out: Rect)
    ensures
        out == spec_padded_rect(r, padding, bounds),
{
    let x0 = r.x.saturating_sub(padding);
    let y0 = r.y.saturating_sub(padding);
    let x1 = min_of(r.x.saturating_add(r.size.width).saturating_add(padding), bounds.width);
    let y1 = min_of(r.y.saturating_add(r.size.height).saturating_add(padding), bounds.height);
    Rect {
        x: x0,
        y: y0,
        size: Size { width: x1.saturating_sub(x0), height: y1.saturating_sub(y0) },
    }
}

/// Whether `expand_to_min_edge` can be called on these values: the range
/// for the new start is not empty on either axis.
pub fn expand_is_defined(r: Rect, min_edge: u32, bounds: Rect) -> (b: bool)
    ensures b == expand_defined(r, min_edge, bounds),
{
    let width = max_of(min_of(max_of(r.size.width, min_edge), bounds.size.width), 1);
    let height = max_of(min_of(max_of(r.size.height, min_edge), bounds.size.height), 1);
    let bx1 = bounds.x.saturating_add(bounds.size.width);
    let by1 = bounds.y.saturating_add(bounds.size.height);
    bx1.saturating_sub(width) >= bounds.x && by1.saturating_sub(height) >= bounds.y
}

/// Grows `rect` to at least `min_edge` on each axis (at most the size of
/// `bounds`, at least 1), keeping its centre where it can, and moves it so
/// that it lies inside `bounds`.
pub fn expand_to_min_edge(r: Rect, min_edge: u32, bounds: Rect) -> (out: Rect)
    requires
        expand_defined(r, min_edge, bounds),
    ensures
        out == spec_expand_to_min_edge(r, min_edge, bounds),
{
    let width = max_of(min_of(max_of(r.size.width, min_edge), bounds.size.width), 1);
    let height = max_of(min_of(max_of(r.size.height, min_edge), bounds.size.height), 1);
    let bx1 = bounds.x.saturating_add(bounds.size.width);
    let by1 = bounds.y.saturating_add(bounds.size.height);
    let cx = clamp_to(r.x.saturating_add(r.size.width / 2), bounds.x, bx1);
    let cy = clamp_to(r.y.saturating_add(r.size.height / 2), bounds.y, by1);
    let x = clamp_to(cx.saturating_sub(width / 2), bounds.x, bx1.saturating_sub(width));
    let y = clamp_to(cy.saturating_sub(height / 2), bounds.y, by1.saturating_sub(height));
    Rect { x, y, size: Size { width, height } }
}

/// `r` lies inside `outer`.
pub open spec fn inside(r: Rect, outer: Rect) -> bool {
    &&& outer.x <= r.x
    &&& r.x + r.size.width <= outer.x + outer.size.width
    &&& outer.y <= r.y
    &&& r.y + r.size.height <= outer.y + outer.size.height
}

/// Growing a rectangle to the minimum edge keeps it inside non-empty bounds,
/// with each edge at least the minimum (or the bounds' edge, if smaller).
pub proof fn lemma_expand_stays_inside(r: Rect, min_edge: u32, bounds: Rect)
    requires
        bounds.size.width >= 1,
        bounds.size.height >= 1,
        bounds.x + bounds.size.width <= u32::MAX,
        bounds.y + bounds.size.height <= u32::MAX,
    ensures
        expand_defined(r, min_edge, bounds),
        inside(spec_expand_to_min_edge(r, min_edge, bounds), bounds),
        spec_expand_to_min_edge(r, min_edge, bounds).size.width >= min_u32(max_u32(min_edge, r.size.width), bounds.size.width),
        spec_expand_to_min_edge(r, min_edge, bounds).size.height >= min_u32(max_u32(min_edge, r.size.height), bounds.size.height),
{
}

/// Padding a rectangle that lies in a frame gives one that holds it.
pub proof fn lemma_padding_holds_rect(r: Rect, padding: u32, bounds: Size)
    requires
        r.x + r.size.width <= bounds.width,
        r.y + r.size.height <= bounds.height,
    ensures
        inside(r, spec_padded_rect(r, padding, bounds)),
{
}

} // verus!
