//! Finding the largest rectangle of clipped (over-exposed) pixels in a Gray8
//! frame, inside an optional candidate region.

use vstd::prelude::*;
use crate::geometry::{clamp_rect, padded_rect, rect, sat_add, sat_sub, spec_clamp_rect, spec_padded_rect, Rect, Size};
use crate::frame::{rows_fit, rows_in_data, Frame, FrameError, PixelFormat};

verus! {

/// A rectangle of the search region, with its area saturated at `u32::MAX`.
#[derive(Clone, Copy, Debug, PartialEq, Eq, Structural)]
pub struct InteriorRect {
    pub x: u32,
    pub y: u32,
    pub width: u32,
    pub height: u32,
}

/// `width * height`, saturated at `u32::MAX`.
pub open spec fn sat_area(width: int, height: int) -> int {
    if width * height > u32::MAX { u32::MAX as int } else { width * height }
}

impl InteriorRect {
    pub open spec fn spec_area(self) -> int {
        sat_area(self.width as int, self.height as int)
    }

    /// Width times height, saturated at `u32::MAX`.
    pub fn area(self) -> (a: u32)
        ensures a == self.spec_area(),
    {
        match self.width.checked_mul(self.height) {
            Some(a) => a,
            None => u32::MAX,
        }
    }
}

/// Height of bar `m` of a histogram; zero past its end.
pub open spec fn bar(h: Seq<u32>, m: int) -> int {
    if 0 <= m < h.len() { h[m] as int } else { 0 }
}

/// A rectangle of height `height` over bars `left .. left + width` lies under
/// the histogram.
pub open spec fn fits(h: Seq<u32>, left: int, width: int, height: int) -> bool {
    &&& 0 <= left
    &&& left + width <= h.len()
    &&& forall|m: int| left <= m < left + width ==> h[m] >= height
}

/// Bar `r` is the first bar right of bar `t` that is lower than it (the empty
/// bar just past the end counting as one).
pub open spec fn right_end(h: Seq<u32>, t: int, r: int) -> bool {
    &&& 0 <= t < r <= h.len()
    &&& bar(h, r) < bar(h, t)
    &&& forall|m: int| t < m < r ==> #[trigger] bar(h, m) >= bar(h, t)
}

/// Bar `l` is the last bar left of bar `t` that is no taller than it, or -1
/// when there is none.
pub open spec fn left_end(h: Seq<u32>, t: int, l: int) -> bool {
    &&& -1 <= l < t < h.len()
    &&& (l == -1 || bar(h, l) <= bar(h, t))
    &&& forall|m: int| l < m < t ==> #[trigger] bar(h, m) > bar(h, t)
}

/// The rectangle that bar `t` spans: as tall as the bar, over the bars
/// strictly between `l` and `r`, standing on the bottom row.
pub open spec fn bar_rect(h: Seq<u32>, bottom_y: u32, t: int, l: int, r: int) -> InteriorRect {
    InteriorRect {
        x: (l + 1) as u32,
        y: sat_sub(sat_add(bottom_y, 1), h[t]),
        width: (r - l - 1) as u32,
        height: h[t],
    }
}

/// Saturated area of the rectangle that bar `t` spans between `l` and `r`.
pub open spec fn bar_area(h: Seq<u32>, t: int, l: int, r: int) -> int {
    sat_area(r - l - 1, bar(h, t))
}

/// `b` is the rectangle that bar `t` spans, `l` and `r` being its ends.
pub open spec fn spanned_by(h: Seq<u32>, bottom_y: u32, b: InteriorRect, t: int, l: int, r: int) -> bool {
    left_end(h, t, l) && right_end(h, t, r) && b == bar_rect(h, bottom_y, t, l, r)
}

/// The rectangle of bar `t` ending at `r` comes before that of bar `t2`
/// ending at `r2` in the scan: it ends further left, or at the same place
/// with a bar further right.
pub open spec fn scanned_before(t: int, r: int, t2: int, r2: int) -> bool {
    r < r2 || (r == r2 && t > t2)
}

/// Among the rectangles of the bars whose right end lies before `i`, every
/// one other than bar `t`'s that has area `area` comes after bar `t`'s.
pub open spec fn first_of_area(h: Seq<u32>, t: int, r: int, area: int, i: int) -> bool {
    forall|t2: int, l2: int, r2: int| #![trigger left_end(h, t2, l2), right_end(h, t2, r2)]
        left_end(h, t2, l2) && right_end(h, t2, r2) && r2 < i && bar_area(h, t2, l2, r2) == area
            ==> t2 == t || scanned_before(t, r, t2, r2)
}

/// What `largest_histogram_rect` gives for bars `h` whose bottom row is
/// `bottom_y`: nothing when every bar is empty, else a rectangle under the
/// histogram, standing on the bottom row, of the largest saturated area.
/// Among rectangles of that area it is the one a left-to-right scan meets
/// first: the one spanned by a bar whose right end lies furthest left, and
/// of those the one of the rightmost bar.
pub open spec fn is_largest_histogram_rect(h: Seq<u32>, bottom_y: u32, r: Option<InteriorRect>) -> bool {
    match r {
        None => forall|m: int| 0 <= m < h.len() ==> h[m] == 0,
        Some(b) => {
            &&& b.width > 0
            &&& b.height > 0
            &&& fits(h, b.x as int, b.width as int, b.height as int)
            &&& b.y == sat_sub(sat_add(bottom_y, 1), b.height)
            &&& forall|left: int, width: int, height: int|
                #![trigger fits(h, left, width, height)]
                width > 0 && height > 0 && fits(h, left, width, height)
                    ==> sat_area(width, height) <= b.spec_area()
            &&& exists|t: int, l: int, r: int| #![trigger spanned_by(h, bottom_y, b, t, l, r)]
                spanned_by(h, bottom_y, b, t, l, r) && first_of_area(h, t, r, b.spec_area(), h.len() + 1int)
        },
    }
}

/// The stack index below `j`, or -1.
pub open spec fn below(s: Seq<usize>, j: int) -> int {
    if j == 0 { -1 } else { s[j - 1] as int }
}

/// Stack entries are increasing bar indices.
#[verifier::opaque]
pub open spec fn increasing(s: Seq<usize>) -> bool {
    forall|j1: int, j2: int| 0 <= j1 < j2 < s.len() ==> s[j1] < s[j2]
}

/// The bars of the stack entries do not decrease from bottom to top.
#[verifier::opaque]
pub open spec fn heights_rise(h: Seq<u32>, s: Seq<usize>) -> bool {
    forall|j1: int, j2: int| 0 <= j1 < j2 < s.len() ==> bar(h, s[j1] as int) <= bar(h, s[j2] as int)
}

/// Each entry's bar is no taller than any bar between the entry below it and
/// bar `i`.
#[verifier::opaque]
pub open spec fn lowest_since_below(h: Seq<u32>, s: Seq<usize>, i: int) -> bool {
    forall|j: int, m: int| #![trigger bar(h, m), s[j]] 0 <= j < s.len() && below(s, j) < m < i ==> bar(h, m) >= bar(h, s[j] as int)
}

/// The scan's stack at bar `i`: increasing bar indices below `i`, the last
/// being `i - 1`, whose heights do not decrease, each no taller than every bar
/// between the one below it and `i`.
pub open spec fn stack_ok(h: Seq<u32>, s: Seq<usize>, i: int) -> bool {
    &&& forall|j: int| 0 <= j < s.len() ==> s[j] < i
    &&& (i > 0 ==> s.len() > 0 && s[s.len() - 1] == i - 1)
    &&& increasing(s)
    &&& heights_rise(h, s)
    &&& lowest_since_below(h, s, i)
}

/// No bar between `t` and `i` is lower than bar `t`.
pub open spec fn stays(h: Seq<u32>, t: int, i: int) -> bool {
    forall|m: int| t < m < i ==> #[trigger] bar(h, m) >= bar(h, t)
}

/// Bar `t` is on the stack.
pub open spec fn on_stack(s: Seq<usize>, t: int) -> bool {
    exists|q: int| 0 <= q < s.len() && s[q] == t
}

/// Every bar before `i` that no later bar before `i` undercuts is still on
/// the stack.
#[verifier::opaque]
pub open spec fn stack_complete(h: Seq<u32>, s: Seq<usize>, i: int) -> bool {
    forall|t: int| #![trigger stays(h, t, i)] 0 <= t < i && stays(h, t, i) ==> on_stack(s, t)
}

/// The best rectangle so far is spanned by a bar whose right end lies before
/// `i`, and comes first in the scan among those of its area.
pub open spec fn tie_ok(h: Seq<u32>, bottom_y: u32, i: int, best: Option<InteriorRect>) -> bool {
    best matches Some(b) ==> exists|t: int, l: int, r: int| #![trigger spanned_by(h, bottom_y, b, t, l, r)]
        spanned_by(h, bottom_y, b, t, l, r) && r < i && first_of_area(h, t, r, b.spec_area(), i)
}

/// A bar has one left end and one right end.
proof fn lemma_ends_unique(h: Seq<u32>, t: int, l1: int, l2: int, r1: int, r2: int)
    requires
        left_end(h, t, l1),
        left_end(h, t, l2),
        right_end(h, t, r1),
        right_end(h, t, r2),
    ensures
        l1 == l2,
        r1 == r2,
{
    if l1 < l2 {
        assert(bar(h, l2) > bar(h, t));
    }
    if l2 < l1 {
        assert(bar(h, l1) > bar(h, t));
    }
    if r1 < r2 {
        assert(bar(h, r1) >= bar(h, t));
    }
    if r2 < r1 {
        assert(bar(h, r2) >= bar(h, t));
    }
}

/// The rectangle that bar `t` spans lies under the histogram; when its right
/// end lies before `i`, it is matched by any best that covers `i`.
proof fn lemma_bar_rect_covered(h: Seq<u32>, t: int, l: int, r: int, i: int, best: Option<InteriorRect>)
    requires
        left_end(h, t, l),
        right_end(h, t, r),
        r < i,
        covered(h, i, best),
    ensures
        bar_area(h, t, l, r) <= best_area(best),
{
    assert(fits(h, l + 1, r - l - 1, bar(h, t))) by {
        assert forall|m: int| l + 1 <= m < l + 1 + (r - l - 1) implies h[m] >= bar(h, t) by {
            if m < t {
                assert(bar(h, m) > bar(h, t));
            } else if m > t {
                assert(bar(h, m) >= bar(h, t));
            }
        }
    }
    assert(bar(h, r) < bar(h, t));
}

/// A stack entry popped at bar `i` spans its rectangle between the entry
/// below it and bar `i`.
proof fn lemma_popped_ends(h: Seq<u32>, s: Seq<usize>, i: int, p: int)
    requires
        i <= h.len(),
        stack_ok(h, s, i),
        stack_complete(h, s, i),
        0 <= p < s.len(),
        bar(h, s[p] as int) > bar(h, i),
    ensures
        left_end(h, s[p] as int, below(s, p)),
        right_end(h, s[p] as int, i),
{
    lemma_stack_entry(h, s, i, p);
    let t = s[p] as int;
    if p > 0 {
        lemma_rise_pair(h, s, p - 1, p);
    }
    assert forall|m: int| below(s, p) < m < t implies #[trigger] bar(h, m) > bar(h, t) by {
        assert(bar(h, m) >= bar(h, t));
        if bar(h, m) == bar(h, t) {
            assert forall|m2: int| m < m2 < i implies #[trigger] bar(h, m2) >= bar(h, m) by {
                assert(below(s, p) < m2 < i);
            }
            assert(stays(h, m, i));
            reveal(stack_complete);
            let q = choose|q: int| 0 <= q < s.len() && s[q] == m;
            reveal(increasing);
            if q >= p {
                assert(s[q] >= s[p]);
            } else {
                assert(s[q] <= s[p - 1]);
            }
        }
    }
}

/// The best rectangle found so far lies under the histogram on the bottom row.
pub open spec fn best_ok(h: Seq<u32>, bottom_y: u32, best: Option<InteriorRect>) -> bool {
    best matches Some(b) ==> {
        &&& b.width > 0
        &&& b.height > 0
        &&& fits(h, b.x as int, b.width as int, b.height as int)
        &&& b.y == sat_sub(sat_add(bottom_y, 1), b.height)
    }
}

/// Every rectangle under the histogram that ends before some bar `j < i`
/// lower than it has been matched by the best so far.
pub open spec fn covered(h: Seq<u32>, i: int, best: Option<InteriorRect>) -> bool {
    forall|left: int, width: int, height: int, j: int|
        #![trigger fits(h, left, width, height), bar(h, j)]
        width > 0 && height > 0 && fits(h, left, width, height) && left + width <= j < i
            && bar(h, j) < height
            ==> sat_area(width, height) <= best_area(best)
}

/// Saturated area of the best rectangle so far; zero when there is none.
pub open spec fn best_area(best: Option<InteriorRect>) -> int {
    match best {
        Some(b) => b.spec_area(),
        None => 0,
    }
}

/// Area of the rectangle recorded when stack entry `p` is popped at bar `i`.
pub open spec fn popped_area(h: Seq<u32>, s: Seq<usize>, p: int, i: int) -> int {
    sat_area(i - (below(s, p) + 1), bar(h, s[p] as int))
}

proof fn lemma_sat_area_mono(w1: int, h1: int, w2: int, h2: int)
    requires 0 <= w1 <= w2, 0 <= h1 <= h2,
    ensures sat_area(w1, h1) <= sat_area(w2, h2),
{
    assert(w1 * h1 <= w2 * h2) by (nonlinear_arith)
        requires 0 <= w1 <= w2, 0 <= h1 <= h2;
}

proof fn lemma_sat_area_pos(w: int, h: int)
    requires w > 0, h > 0,
    ensures sat_area(w, h) > 0,
{
    assert(w * h > 0) by (nonlinear_arith) requires w > 0, h > 0;
}

/// What the stack invariant says of entry `p`.
proof fn lemma_stack_entry(h: Seq<u32>, s: Seq<usize>, i: int, p: int)
    requires
        stack_ok(h, s, i),
        0 <= p < s.len(),
    ensures
        s[p] < i,
        below(s, p) < s[p],
        forall|m: int| below(s, p) < m < i ==> #[trigger] bar(h, m) >= bar(h, s[p] as int),
        forall|q: int| 0 <= q < p ==> bar(h, #[trigger] s[q] as int) <= bar(h, s[p] as int) && s[q] < s[p],
        s[s.len() - 1] == i - 1,
{
    reveal(increasing);
    reveal(heights_rise);
    reveal(lowest_since_below);
    assert forall|m: int| below(s, p) < m < i implies #[trigger] bar(h, m) >= bar(h, s[p] as int) by {
        assert(bar(h, m) >= bar(h, s[p] as int));
    }
    if p > 0 {
        assert(s[p - 1] < s[p]);
    }
}

/// The lowest stack entry at or right of bar `a`, given one such entry `r0`.
proof fn lemma_first_at_or_right(s: Seq<usize>, a: int, r0: int) -> (r: int)
    requires
        0 <= r0 < s.len(),
        s[r0] >= a,
    ensures
        0 <= r <= r0,
        s[r] >= a,
        r == 0 || s[r - 1] < a,
    decreases r0,
{
    if r0 == 0 || s[r0 - 1] < a {
        r0
    } else {
        lemma_first_at_or_right(s, a, r0 - 1)
    }
}

/// After the entries from `t` up of the stack `s` (taken at bar `i`) have been
/// popped, and the entry below them is no taller than bar `i`, every rectangle
/// ending before a lower bar `j <= i` is matched by the best.
proof fn lemma_covered_step(h: Seq<u32>, s: Seq<usize>, t: int, i: int, best: Option<InteriorRect>)
    requires
        0 <= i <= h.len(),
        stack_ok(h, s, i),
        0 <= t <= s.len(),
        t == 0 || bar(h, s[t - 1] as int) <= bar(h, i),
        forall|p: int| t <= p < s.len() ==> bar(h, s[p] as int) > bar(h, i),
        forall|p: int| t <= p < s.len() ==> #[trigger] popped_area(h, s, p, i) <= best_area(best),
        covered(h, i, best),
    ensures
        covered(h, i + 1, best),
{
    assert forall|left: int, width: int, height: int, j: int|
        #![trigger fits(h, left, width, height), bar(h, j)]
        width > 0 && height > 0 && fits(h, left, width, height) && left + width <= j < i + 1
            && bar(h, j) < height
        implies sat_area(width, height) <= best_area(best) by {
        if j == i {
            lemma_stack_entry(h, s, i, s.len() - 1);
            let r = lemma_first_at_or_right(s, left, s.len() - 1);
            let sr = s[r] as int;
            if bar(h, sr) >= height {
                // Entry r is popped: it is taller than bar i.
                if r < t {
                    lemma_stack_entry(h, s, i, t - 1);
                    assert(bar(h, s[t - 1] as int) >= bar(h, sr));
                    assert(false);
                }
                assert(popped_area(h, s, r, i) <= best_area(best));
                lemma_sat_area_mono(width, height, i - (below(s, r) + 1), bar(h, sr));
            } else {
                // Entry r lies right of the rectangle and is lower than it.
                if sr < left + width {
                    assert(h[sr] >= height);
                    assert(false);
                }
                assert(bar(h, sr) < height);
                assert(fits(h, left, width, height));
            }
        }
    }
}

proof fn lemma_rise_pair(h: Seq<u32>, s: Seq<usize>, j1: int, j2: int)
    requires
        heights_rise(h, s),
        0 <= j1 <= j2 < s.len(),
    ensures
        bar(h, s[j1] as int) <= bar(h, s[j2] as int),
{
    reveal(heights_rise);
}

proof fn lemma_lowest_at(h: Seq<u32>, s: Seq<usize>, i: int, j: int, m: int)
    requires
        lowest_since_below(h, s, i),
        0 <= j < s.len(),
        below(s, j) < m < i,
    ensures
        bar(h, m) >= bar(h, s[j] as int),
{
    reveal(lowest_since_below);
    assert(bar(h, m) >= bar(h, s[j] as int));
}

proof fn lemma_push_increasing(s: Seq<usize>, t: int, i: usize)
    requires
        increasing(s),
        0 <= t <= s.len(),
        forall|j: int| 0 <= j < s.len() ==> s[j] < i,
    ensures
        increasing(s.take(t).push(i)),
{
    reveal(increasing);
    let ns = s.take(t).push(i);
    assert forall|j1: int, j2: int| 0 <= j1 < j2 < ns.len() implies ns[j1] < ns[j2] by {
        assert(ns[j1] == s[j1]);
        if j2 < t {
            assert(ns[j2] == s[j2]);
        }
    }
}

proof fn lemma_push_heights_rise(h: Seq<u32>, s: Seq<usize>, t: int, i: usize)
    requires
        heights_rise(h, s),
        0 <= t <= s.len(),
        t == 0 || bar(h, s[t - 1] as int) <= bar(h, i as int),
    ensures
        heights_rise(h, s.take(t).push(i)),
{
    let ns = s.take(t).push(i);
    assert forall|j1: int, j2: int| 0 <= j1 < j2 < ns.len()
        implies bar(h, ns[j1] as int) <= bar(h, ns[j2] as int) by {
        assert(ns[j1] == s[j1]);
        if j2 == t {
            lemma_rise_pair(h, s, j1, t - 1);
        } else {
            assert(ns[j2] == s[j2]);
            lemma_rise_pair(h, s, j1, j2);
        }
    }
    reveal(heights_rise);
}

proof fn lemma_push_lowest(h: Seq<u32>, s: Seq<usize>, t: int, i: usize)
    requires
        i < h.len(),
        heights_rise(h, s),
        lowest_since_below(h, s, i as int),
        i > 0 ==> s.len() > 0 && s[s.len() - 1] == i - 1,
        0 <= t <= s.len(),
        t == 0 || bar(h, s[t - 1] as int) <= bar(h, i as int),
        forall|p: int| t <= p < s.len() ==> bar(h, s[p] as int) > bar(h, i as int),
    ensures
        lowest_since_below(h, s.take(t).push(i), i + 1),
{
    let ns = s.take(t).push(i);
    assert forall|j: int, m: int| #![trigger bar(h, m), ns[j]] 0 <= j < ns.len() && below(ns, j) < m < i + 1
        implies bar(h, m) >= bar(h, ns[j] as int) by {
        if j < t {
            assert(ns[j] == s[j]);
            assert(below(ns, j) == below(s, j));
            lemma_rise_pair(h, s, j, t - 1);
            if m < i {
                lemma_lowest_at(h, s, i as int, j, m);
            }
        } else if m < i {
            // m lies over the first popped entry, which is taller than bar i.
            assert(below(ns, j) == below(s, t));
            if t == s.len() {
                assert(s[s.len() - 1] == i - 1);
                assert(false);
            }
            lemma_lowest_at(h, s, i as int, t, m);
        }
    }
    reveal(lowest_since_below);
}

/// The stack after bar `i` has been scanned: the entries that were not
/// popped, then `i`, still satisfy the stack invariant at `i + 1`.
proof fn lemma_push_keeps_stack(h: Seq<u32>, s: Seq<usize>, t: int, i: usize)
    requires
        i < h.len(),
        stack_ok(h, s, i as int),
        0 <= t <= s.len(),
        t == 0 || bar(h, s[t - 1] as int) <= bar(h, i as int),
        forall|p: int| t <= p < s.len() ==> bar(h, s[p] as int) > bar(h, i as int),
    ensures
        stack_ok(h, s.take(t).push(i), i + 1),
{
    lemma_push_increasing(s, t, i);
    lemma_push_heights_rise(h, s, t, i);
    lemma_push_lowest(h, s, t, i);
    let ns = s.take(t).push(i);
    assert forall|j: int| 0 <= j < ns.len() implies ns[j] < i + 1 by {
        if j < t {
            assert(ns[j] == s[j]);
        }
    }
}

/// Scans bar `i` (bar `heights.len()` being an empty one past the end): pops
/// every stack entry taller than it, keeping in the best the largest
/// rectangle each of them bounds, then pushes `i`.
fn scan_bar(heights: &[u32], bottom_y: u32, i: usize, stack: &mut Vec<usize>, start: Option<InteriorRect>)
    -> (out: Option<InteriorRect>)
    requires
        heights.len() <= u32::MAX,
        i <= heights.len(),
        stack_ok(heights@, old(stack)@, i as int),
        stack_complete(heights@, old(stack)@, i as int),
        best_ok(heights@, bottom_y, start),
        covered(heights@, i as int, start),
        tie_ok(heights@, bottom_y, i as int, start),
    ensures
        best_ok(heights@, bottom_y, out),
        covered(heights@, i + 1, out),
        tie_ok(heights@, bottom_y, i + 1, out),
        i < heights.len() ==> stack_ok(heights@, final(stack)@, i + 1),
        i < heights.len() ==> stack_complete(heights@, final(stack)@, i + 1),
{
    let ghost h = heights@;
    let ghost s = stack@;
    let cur = if i < heights.len() { heights[i] } else { 0 };
    let mut best = start;
    let ghost mut tb: int = 0;
    let ghost mut lb: int = 0;
    let ghost mut rb: int = 0;
    let ghost mut pb: int = 0;
    proof {
        if let Some(b0) = start {
            let (t0, l0, r0) = choose|t: int, l: int, r: int| #![trigger spanned_by(h, bottom_y, b0, t, l, r)]
                spanned_by(h, bottom_y, b0, t, l, r) && r < i && first_of_area(h, t, r, b0.spec_area(), i as int);
            tb = t0;
            lb = l0;
            rb = r0;
        }
    }
    while stack.len() > 0 && cur < heights[stack[stack.len() - 1]]
        invariant
            heights@ == h,
            h.len() <= u32::MAX,
            i <= h.len(),
            cur == bar(h, i as int),
            stack_ok(h, s, i as int),
            stack_complete(h, s, i as int),
            stack@.len() <= s.len(),
            stack@ == s.take(stack@.len() as int),
            forall|p: int| stack@.len() <= p < s.len() ==> bar(h, s[p] as int) > cur,
            forall|p: int| stack@.len() <= p < s.len() ==>
                #[trigger] popped_area(h, s, p, i as int) <= best_area(best),
            best_ok(h, bottom_y, best),
            best_area(start) <= best_area(best),
            best matches Some(b) ==> spanned_by(h, bottom_y, b, tb, lb, rb) && rb <= i,
            best == start ==> (start matches Some(b) ==> rb < i && first_of_area(h, tb, rb, b.spec_area(), i as int)),
            best != start ==> best is Some && best_area(best) > best_area(start),
            best is Some && rb == i ==> stack@.len() <= pb < s.len() && tb == s[pb],
            forall|p: int| stack@.len() <= p < s.len() && #[trigger] popped_area(h, s, p, i as int) == best_area(best)
                ==> s[p] == tb || scanned_before(tb, rb, s[p] as int, i as int),
        decreases stack@.len(),
    {
        let p = stack.len() - 1;
        let top = stack[p];
        let height = heights[top];
        stack.pop();
        let left: usize = if stack.len() > 0 { stack[stack.len() - 1] + 1 } else { 0 };
        proof {
            assert(top == s[p as int]);
            lemma_stack_entry(h, s, i as int, p as int);
            assert(left as int == below(s, p as int) + 1);
            lemma_popped_ends(h, s, i as int, p as int);
        }
        let width = (i - left) as u32;
        let candidate = InteriorRect {
            x: left as u32,
            y: bottom_y.saturating_add(1).saturating_sub(height),
            width,
            height,
        };
        proof {
            assert forall|m: int| left <= m < left + width implies h[m] >= height by {
                assert(bar(h, m) >= bar(h, s[p as int] as int));
            }
            assert(fits(h, left as int, width as int, height as int));
            assert(candidate.spec_area() == popped_area(h, s, p as int, i as int));
            assert(candidate == bar_rect(h, bottom_y, s[p as int] as int, below(s, p as int), i as int));
            lemma_sat_area_pos(width as int, height as int);
            if best is Some && rb == i {
                lemma_stack_entry(h, s, i as int, pb);
                assert(s[p as int] < s[pb]);
            }
        }
        let replace = match best {
            None => true,
            Some(current) => current.area() < candidate.area(),
        };
        if replace {
            best = Some(candidate);
            proof {
                tb = s[p as int] as int;
                lb = below(s, p as int);
                rb = i as int;
                pb = p as int;
            }
        }
    }
    proof {
        let t = stack@.len() as int;
        if t > 0 {
            assert(stack@[t - 1] == s[t - 1]);
        }
        assert forall|left: int, width: int, height: int, j: int|
            #![trigger fits(h, left, width, height), bar(h, j)]
            width > 0 && height > 0 && fits(h, left, width, height) && left + width <= j < i
                && bar(h, j) < height
            implies sat_area(width, height) <= best_area(best) by {
            assert(sat_area(width, height) <= best_area(start));
        }
        lemma_covered_step(h, s, t, i as int, best);
        if let Some(b) = best {
            assert forall|t2: int, l2: int, r2: int| #![trigger left_end(h, t2, l2), right_end(h, t2, r2)]
                left_end(h, t2, l2) && right_end(h, t2, r2) && r2 < i + 1 && bar_area(h, t2, l2, r2) == b.spec_area()
                implies t2 == tb || scanned_before(tb, rb, t2, r2) by {
                if r2 == i {
                    assert(stays(h, t2, i as int));
                    reveal(stack_complete);
                    let q = choose|q: int| 0 <= q < s.len() && s[q] == t2;
                    if q < t {
                        lemma_rise_pair(h, s, q, t - 1);
                        assert(false);
                    }
                    lemma_popped_ends(h, s, i as int, q);
                    lemma_ends_unique(h, t2, l2, below(s, q), r2, i as int);
                    assert(popped_area(h, s, q, i as int) == bar_area(h, t2, l2, r2));
                } else {
                    lemma_bar_rect_covered(h, t2, l2, r2, i as int, start);
                }
            }
            assert(spanned_by(h, bottom_y, b, tb, lb, rb) && rb < i + 1
                && first_of_area(h, tb, rb, b.spec_area(), i + 1));
        }
        if i < h.len() {
            lemma_push_keeps_stack(h, s, t, i);
            let ns = s.take(t).push(i);
            assert(stack_complete(h, ns, i + 1)) by {
                reveal(stack_complete);
                assert forall|t2: int| #![trigger stays(h, t2, i + 1)] 0 <= t2 < i + 1 && stays(h, t2, i + 1)
                    implies on_stack(ns, t2) by {
                    if t2 == i {
                        assert(ns[t] == i);
                    } else {
                        assert forall|m: int| t2 < m < i implies #[trigger] bar(h, m) >= bar(h, t2) by {
                            assert(t2 < m < i + 1);
                        }
                        assert(stays(h, t2, i as int));
                        let q = choose|q: int| 0 <= q < s.len() && s[q] == t2;
                        assert(bar(h, i as int) >= bar(h, t2));
                        if q >= t {
                            assert(bar(h, s[q] as int) > cur);
                            assert(false);
                        }
                        assert(ns[q] == s[q]);
                    }
                }
            }
        }
    }
    stack.push(i);
    best
}

/// The largest rectangle under the histogram `heights` whose bottom row is
/// `bottom_y`, found with one left-to-right scan and a stack of bar indices
/// (`stack` is scratch space).
pub fn largest_histogram_rect(heights: &[u32], bottom_y: u32, stack: &mut Vec<usize>) -> (r: Option<InteriorRect>)
    requires
        heights.len() <= u32::MAX,
    ensures
        is_largest_histogram_rect(heights@, bottom_y, r),
{
    let ghost h = heights@;
    let n = heights.len();
    let mut best: Option<InteriorRect> = None;
    stack.clear();
    proof {
        reveal(increasing);
        reveal(heights_rise);
        reveal(lowest_since_below);
        reveal(stack_complete);
    }
    let mut i: usize = 0;
    while i < n
        invariant
            heights@ == h,
            n == h.len(),
            n <= u32::MAX,
            i <= n,
            stack_ok(h, stack@, i as int),
            stack_complete(h, stack@, i as int),
            best_ok(h, bottom_y, best),
            covered(h, i as int, best),
            tie_ok(h, bottom_y, i as int, best),
        decreases n - i,
    {
        best = scan_bar(heights, bottom_y, i, stack, best);
        i = i + 1;
    }
    best = scan_bar(heights, bottom_y, n, stack, best);
    proof {
        assert forall|left: int, width: int, height: int|
            #![trigger fits(h, left, width, height)]
            width > 0 && height > 0 && fits(h, left, width, height)
            implies sat_area(width, height) <= best_area(best) by {
            assert(bar(h, n as int) == 0);
        }
        if best is None {
            assert forall|m: int| 0 <= m < n implies h[m] == 0 by {
                if h[m] > 0 {
                    assert(fits(h, m, 1, h[m] as int));
                    assert(bar(h, n as int) == 0);
                    assert(best is Some);
                }
            }
        }
    }
    best
}

/// Settings of the clipped-exposure detector.
#[derive(Clone, Copy, Debug, PartialEq, Eq, Structural)]
pub struct ClippedExposureRoiConfig {
    /// A pixel at or above this value is clipped.
    pub threshold: u8,
    /// Fewer clipped pixels than this in the search region give no region.
    pub min_pixels: u32,
    /// Pixels added on every side of the rectangle found.
    pub padding: u32,
}

impl Default for ClippedExposureRoiConfig {
    fn default() -> (c: Self)
        ensures
            c.threshold == 250,
            c.min_pixels == 16,
            c.padding == 0,
    {
        ClippedExposureRoiConfig { threshold: 250, min_pixels: 16, padding: 0 }
    }
}

/// Pixel `(x, y)` of Gray8 data with rows every `stride` bytes is at or above
/// `threshold`.
pub open spec fn clipped_at(data: Seq<u8>, stride: int, threshold: u8, x: int, y: int) -> bool {
    data[y * stride + x] >= threshold
}

/// Number of clipped pixels straight up from `(x, y)`, not going above row
/// `top`.
pub open spec fn run_up(data: Seq<u8>, stride: int, threshold: u8, x: int, y: int, top: int) -> int
    decreases y - top + 1,
{
    if y < top {
        0
    } else if clipped_at(data, stride, threshold, x, y) {
        run_up(data, stride, threshold, x, y - 1, top) + 1
    } else {
        0
    }
}

/// The histogram of clipped runs ending on row `y`, one bar per column of
/// `search`.
pub open spec fn column_heights(data: Seq<u8>, stride: int, threshold: u8, search: Rect, y: int) -> Seq<u32> {
    Seq::new(search.size.width as nat, |xi: int| run_up(data, stride, threshold, search.x + xi, y, search.y as int) as u32)
}

/// Every pixel of `r` is clipped.
pub open spec fn all_clipped(data: Seq<u8>, stride: int, threshold: u8, r: Rect) -> bool {
    forall|x: int, y: int| #![trigger clipped_at(data, stride, threshold, x, y)]
        r.x <= x < r.x + r.size.width && r.y <= y < r.y + r.size.height ==> clipped_at(data, stride, threshold, x, y)
}

/// `r` lies inside `outer`.
pub open spec fn rect_within(r: Rect, outer: Rect) -> bool {
    &&& outer.x <= r.x
    &&& r.x + r.size.width <= outer.x + outer.size.width
    &&& outer.y <= r.y
    &&& r.y + r.size.height <= outer.y + outer.size.height
}

/// `b` is a largest (by area saturated at `u32::MAX`) non-empty rectangle of
/// clipped pixels inside `search`.
pub open spec fn is_largest_clipped(data: Seq<u8>, stride: int, threshold: u8, search: Rect, b: Rect) -> bool {
    &&& b.size.width > 0
    &&& b.size.height > 0
    &&& rect_within(b, search)
    &&& all_clipped(data, stride, threshold, b)
    &&& forall|r: Rect| #![trigger all_clipped(data, stride, threshold, r)]
        r.size.width > 0 && r.size.height > 0 && rect_within(r, search) && all_clipped(data, stride, threshold, r)
            ==> sat_area(r.size.width as int, r.size.height as int) <= sat_area(b.size.width as int, b.size.height as int)
}

/// Clipped pixels among the `n` pixels of row `y` from column `x0`.
pub open spec fn row_clipped(data: Seq<u8>, stride: int, threshold: u8, y: int, x0: int, n: nat) -> nat
    decreases n,
{
    if n == 0 {
        0
    } else {
        row_clipped(data, stride, threshold, y, x0, (n - 1) as nat)
            + if clipped_at(data, stride, threshold, x0 + n - 1, y) { 1nat } else { 0nat }
    }
}

/// Clipped pixels in the first `k` rows of `r`.
pub open spec fn area_clipped(data: Seq<u8>, stride: int, threshold: u8, r: Rect, k: nat) -> nat
    decreases k,
{
    if k == 0 {
        0
    } else {
        area_clipped(data, stride, threshold, r, (k - 1) as nat)
            + row_clipped(data, stride, threshold, r.y + k - 1, r.x as int, r.size.width as nat)
    }
}

/// Clipped pixels in `r`.
pub open spec fn clipped_count(data: Seq<u8>, stride: int, threshold: u8, r: Rect) -> nat {
    area_clipped(data, stride, threshold, r, r.size.height as nat)
}

/// Where the detector looks: the candidate cut to the frame, else the whole
/// frame.
pub open spec fn search_region(size: Size, candidate: Option<Rect>) -> Rect {
    match candidate {
        Some(r) => spec_clamp_rect(r, size),
        None => rect(0, 0, size.width, size.height),
    }
}

/// `c` is the rectangle picked on row `y` of the search region: the largest
/// under the histogram of clipped runs ending on that row.
pub open spec fn row_pick(data: Seq<u8>, stride: int, threshold: u8, search: Rect, y: int, c: InteriorRect) -> bool {
    is_largest_histogram_rect(column_heights(data, stride, threshold, search, y), y as u32, Some(c))
}

/// Row `y` is the first row of the search region whose pick, `c`, is as
/// large as it gets: every row above picks a smaller one, or none.
pub open spec fn first_best_row(data: Seq<u8>, stride: int, threshold: u8, search: Rect, y: int, c: InteriorRect) -> bool {
    &&& search.y <= y < search.y + search.size.height
    &&& row_pick(data, stride, threshold, search, y, c)
    &&& forall|y2: int, c2: InteriorRect| #![trigger row_pick(data, stride, threshold, search, y2, c2)]
        search.y <= y2 < y && row_pick(data, stride, threshold, search, y2, c2) ==> c2.spec_area() < c.spec_area()
}

/// The frame rectangle of a row pick, whose column is relative to the search
/// region.
pub open spec fn in_frame(search: Rect, c: InteriorRect) -> Rect {
    rect((search.x + c.x) as u32, c.y, c.width, c.height)
}

/// What `ClippedExposureRoiDetector::detect` gives for `frame`.
pub open spec fn detect_result(frame: Frame, candidate: Option<Rect>, config: ClippedExposureRoiConfig,
    r: Result<Option<Rect>, FrameError>) -> bool
{
    let size = frame.meta.size;
    let data = frame.data@;
    let stride = frame.stride as int;
    if frame.format != PixelFormat::Gray8 {
        r == Err::<Option<Rect>, FrameError>(FrameError::UnsupportedFormat)
    } else if !rows_in_data(data, size, stride, size.width as int) {
        r == Err::<Option<Rect>, FrameError>(FrameError::DataTooShort)
    } else {
        let search = search_region(size, candidate);
        let count = clipped_count(data, stride, config.threshold, search);
        if count < config.min_pixels || count == 0 {
            r == Ok::<Option<Rect>, FrameError>(None)
        } else {
            r matches Ok(Some(out)) && exists|y: int, c: InteriorRect|
                #![trigger first_best_row(data, stride, config.threshold, search, y, c)]
                first_best_row(data, stride, config.threshold, search, y, c)
                && is_largest_clipped(data, stride, config.threshold, search, in_frame(search, c))
                && out == spec_padded_rect(in_frame(search, c), config.padding, size)
        }
    }
}

proof fn lemma_run_up_bound(data: Seq<u8>, stride: int, threshold: u8, x: int, y: int, top: int)
    requires y >= top - 1,
    ensures
        0 <= run_up(data, stride, threshold, x, y, top) <= y - top + 1,
    decreases y - top + 1,
{
    if y >= top {
        lemma_run_up_bound(data, stride, threshold, x, y - 1, top);
    }
}

/// A run of at least `k` clipped pixels up from `(x, y)` is the same as the `k`
/// pixels up from it all being clipped.
proof fn lemma_run_up_at_least(data: Seq<u8>, stride: int, threshold: u8, x: int, y: int, top: int, k: int)
    requires
        1 <= k <= y - top + 1,
    ensures
        run_up(data, stride, threshold, x, y, top) >= k <==>
            forall|yy: int| y - k < yy <= y ==> #[trigger] clipped_at(data, stride, threshold, x, yy),
    decreases k,
{
    if k > 1 {
        lemma_run_up_at_least(data, stride, threshold, x, y - 1, top, k - 1);
        if run_up(data, stride, threshold, x, y, top) >= k {
            assert forall|yy: int| y - k < yy <= y implies #[trigger] clipped_at(data, stride, threshold, x, yy) by {
                if yy < y {
                    assert(y - 1 - (k - 1) < yy <= y - 1);
                }
            }
        }
        if forall|yy: int| y - k < yy <= y ==> #[trigger] clipped_at(data, stride, threshold, x, yy) {
            assert(clipped_at(data, stride, threshold, x, y));
            assert forall|yy: int| y - 1 - (k - 1) < yy <= y - 1 implies #[trigger] clipped_at(data, stride, threshold, x, yy) by {
                assert(y - k < yy <= y);
            }
        }
    } else {
        lemma_run_up_bound(data, stride, threshold, x, y - 1, top);
        if clipped_at(data, stride, threshold, x, y) {
            assert(run_up(data, stride, threshold, x, y, top) >= 1);
        }
    }
}

/// A rectangle under the histogram of row `y` is a rectangle of clipped
/// pixels whose bottom row is `y`, and the other way round.
proof fn lemma_fits_iff_clipped(data: Seq<u8>, stride: int, threshold: u8, search: Rect, y: int,
    left: int, width: int, height: int)
    requires
        search.y <= y,
        0 <= left,
        width > 0,
        left + width <= search.size.width,
        1 <= height <= y - search.y + 1,
        search.x + left + width <= u32::MAX,
        y - height + 1 + height <= u32::MAX,
        width <= u32::MAX,
        height <= u32::MAX,
    ensures
        fits(column_heights(data, stride, threshold, search, y), left, width, height) <==>
            all_clipped(data, stride, threshold,
                rect((search.x + left) as u32, (y - height + 1) as u32, width as u32, height as u32)),
{
    let hs = column_heights(data, stride, threshold, search, y);
    let r = rect((search.x + left) as u32, (y - height + 1) as u32, width as u32, height as u32);
    if fits(hs, left, width, height) {
        assert forall|x: int, yy: int| #![trigger clipped_at(data, stride, threshold, x, yy)]
            r.x <= x < r.x + r.size.width && r.y <= yy < r.y + r.size.height
            implies clipped_at(data, stride, threshold, x, yy) by {
            let xi = x - search.x;
            lemma_run_up_bound(data, stride, threshold, x, y, search.y as int);
            assert(hs[xi] >= height);
            lemma_run_up_at_least(data, stride, threshold, x, y, search.y as int, height);
        }
    }
    if all_clipped(data, stride, threshold, r) {
        assert forall|m: int| left <= m < left + width implies hs[m] >= height by {
            let x = search.x + m;
            lemma_run_up_bound(data, stride, threshold, x, y, search.y as int);
            lemma_run_up_at_least(data, stride, threshold, x, y, search.y as int, height);
            assert forall|yy: int| y - height < yy <= y implies #[trigger] clipped_at(data, stride, threshold, x, yy) by {
                assert(r.x <= x < r.x + r.size.width && r.y <= yy < r.y + r.size.height);
            }
        }
    }
}

proof fn lemma_row_clipped_bound(data: Seq<u8>, stride: int, threshold: u8, y: int, x0: int, n: nat)
    ensures row_clipped(data, stride, threshold, y, x0, n) <= n,
    decreases n,
{
    if n > 0 {
        lemma_row_clipped_bound(data, stride, threshold, y, x0, (n - 1) as nat);
    }
}

/// Some pixel of the first `n` of row `y` from `x0` is clipped exactly when
/// the count is not zero.
proof fn lemma_row_clipped_pos(data: Seq<u8>, stride: int, threshold: u8, y: int, x0: int, n: nat)
    ensures
        row_clipped(data, stride, threshold, y, x0, n) > 0 <==>
            exists|x: int| x0 <= x < x0 + n && #[trigger] clipped_at(data, stride, threshold, x, y),
    decreases n,
{
    if n > 0 {
        lemma_row_clipped_pos(data, stride, threshold, y, x0, (n - 1) as nat);
        if row_clipped(data, stride, threshold, y, x0, n) > 0 {
            if !clipped_at(data, stride, threshold, x0 + n - 1, y) {
                let x = choose|x: int| x0 <= x < x0 + n - 1 && #[trigger] clipped_at(data, stride, threshold, x, y);
                assert(x0 <= x < x0 + n);
            }
        }
        if exists|x: int| x0 <= x < x0 + n && #[trigger] clipped_at(data, stride, threshold, x, y) {
            let x = choose|x: int| x0 <= x < x0 + n && #[trigger] clipped_at(data, stride, threshold, x, y);
            if x < x0 + n - 1 {
                assert(x0 <= x < x0 + n - 1);
            }
        }
    }
}

/// Some pixel of the first `k` rows of `r` is clipped exactly when the count
/// is not zero.
proof fn lemma_area_clipped_pos(data: Seq<u8>, stride: int, threshold: u8, r: Rect, k: nat)
    ensures
        area_clipped(data, stride, threshold, r, k) > 0 <==>
            exists|x: int, y: int| r.x <= x < r.x + r.size.width && r.y <= y < r.y + k
                && #[trigger] clipped_at(data, stride, threshold, x, y),
    decreases k,
{
    if k > 0 {
        lemma_area_clipped_pos(data, stride, threshold, r, (k - 1) as nat);
        let yl = r.y + k - 1;
        lemma_row_clipped_pos(data, stride, threshold, yl, r.x as int, r.size.width as nat);
        if area_clipped(data, stride, threshold, r, k) > 0 {
            if row_clipped(data, stride, threshold, yl, r.x as int, r.size.width as nat) > 0 {
                let x = choose|x: int| r.x <= x < r.x + r.size.width && #[trigger] clipped_at(data, stride, threshold, x, yl);
                assert(r.x <= x < r.x + r.size.width && r.y <= yl < r.y + k);
            } else {
                let (x, y) = choose|x: int, y: int| r.x <= x < r.x + r.size.width && r.y <= y < r.y + k - 1
                    && #[trigger] clipped_at(data, stride, threshold, x, y);
                assert(r.x <= x < r.x + r.size.width && r.y <= y < r.y + k);
            }
        }
        if exists|x: int, y: int| r.x <= x < r.x + r.size.width && r.y <= y < r.y + k
            && #[trigger] clipped_at(data, stride, threshold, x, y) {
            let (x, y) = choose|x: int, y: int| r.x <= x < r.x + r.size.width && r.y <= y < r.y + k
                && #[trigger] clipped_at(data, stride, threshold, x, y);
            if y == yl {
                assert(r.x <= x < r.x + r.size.width && clipped_at(data, stride, threshold, x, yl));
            } else {
                assert(r.x <= x < r.x + r.size.width && r.y <= y < r.y + k - 1);
            }
        }
    }
}

proof fn lemma_area_clipped_bound(data: Seq<u8>, stride: int, threshold: u8, r: Rect, k: nat)
    ensures area_clipped(data, stride, threshold, r, k) <= k * r.size.width,
    decreases k,
{
    if k > 0 {
        lemma_area_clipped_bound(data, stride, threshold, r, (k - 1) as nat);
        lemma_row_clipped_bound(data, stride, threshold, r.y + k - 1, r.x as int, r.size.width as nat);
        assert((k - 1) * r.size.width + r.size.width == k * r.size.width) by (nonlinear_arith);
    }
}

/// The best rectangle of the scan so far, with its column relative to the
/// search region, lies inside it and is all clipped.
pub open spec fn scan_best_ok(data: Seq<u8>, stride: int, threshold: u8, search: Rect, best: Option<InteriorRect>) -> bool {
    best matches Some(b) ==> {
        &&& b.width > 0
        &&& b.height > 0
        &&& search.x + b.x <= u32::MAX
        &&& rect_within(rect((search.x + b.x) as u32, b.y, b.width, b.height), search)
        &&& all_clipped(data, stride, threshold, rect((search.x + b.x) as u32, b.y, b.width, b.height))
    }
}

/// Every non-empty rectangle of clipped pixels in the search region whose
/// bottom row is above row `y` is matched by the best so far.
pub open spec fn scan_covered(data: Seq<u8>, stride: int, threshold: u8, search: Rect, y: int, best: Option<InteriorRect>) -> bool {
    forall|r: Rect| #![trigger all_clipped(data, stride, threshold, r)]
        r.size.width > 0 && r.size.height > 0 && rect_within(r, search) && r.y + r.size.height <= y
            && all_clipped(data, stride, threshold, r)
            ==> sat_area(r.size.width as int, r.size.height as int) <= best_area(best)
}

/// Counts the clipped pixels of row `y` of the search region and brings the
/// column runs down to row `y`.
fn scan_row(frame: &Frame, search: Rect, threshold: u8, y: u32, heights: &mut Vec<u32>, clipped: u64) -> (out: u64)
    requires
        frame.format == PixelFormat::Gray8,
        rows_in_data(frame.data@, frame.meta.size, frame.stride as int, frame.meta.size.width as int),
        search.x + search.size.width <= frame.meta.size.width,
        search.y <= y < search.y + search.size.height,
        search.y + search.size.height <= frame.meta.size.height,
        old(heights)@ == column_heights(frame.data@, frame.stride as int, threshold, search, y - 1),
        clipped == area_clipped(frame.data@, frame.stride as int, threshold, search, (y - search.y) as nat),
        clipped <= (y - search.y) * search.size.width,
    ensures
        final(heights)@ == column_heights(frame.data@, frame.stride as int, threshold, search, y as int),
        out == area_clipped(frame.data@, frame.stride as int, threshold, search, (y + 1 - search.y) as nat),
        out <= (y + 1 - search.y) * search.size.width,
{
    let ghost data = frame.data@;
    let ghost stride = frame.stride as int;
    let width = search.size.width as usize;
    let mut clipped = clipped;
    let ghost before = clipped;
    let data_len = frame.data.len();
    proof {
        assert((y - search.y) * search.size.width <= u32::MAX * u32::MAX) by (nonlinear_arith)
            requires 0 <= y - search.y <= u32::MAX, search.size.width <= u32::MAX;
        assert(y as int * stride <= (frame.meta.size.height - 1) * stride) by (nonlinear_arith)
            requires 0 <= y <= frame.meta.size.height - 1, stride >= 0;
    }
    let row_start = y as usize * frame.stride;
    proof {
        assert forall|k: int| 0 <= k < width implies heights@[k] == run_up(data, stride, threshold, search.x + k, y - 1, search.y as int) by {
            lemma_run_up_bound(data, stride, threshold, search.x + k, y - 1, search.y as int);
        }
    }
    let mut xi: usize = 0;
    while xi < width
        invariant
            data == frame.data@,
            stride == frame.stride as int,
            frame.format == PixelFormat::Gray8,
            rows_in_data(data, frame.meta.size, stride, frame.meta.size.width as int),
            search.x + search.size.width <= frame.meta.size.width,
            search.y <= y < search.y + search.size.height,
            search.y + search.size.height <= frame.meta.size.height,
            width == search.size.width,
            row_start == y * stride,
            y * stride <= (frame.meta.size.height - 1) * stride,
            data_len == data.len(),
            xi <= width,
            heights@.len() == width,
            forall|k: int| 0 <= k < xi ==> heights@[k] == run_up(data, stride, threshold, search.x + k, y as int, search.y as int),
            forall|k: int| xi <= k < width ==> heights@[k] == run_up(data, stride, threshold, search.x + k, y - 1, search.y as int),
            before == area_clipped(data, stride, threshold, search, (y - search.y) as nat),
            before <= (y - search.y) * search.size.width,
            (y - search.y) * search.size.width <= u32::MAX * u32::MAX,
            clipped == before + row_clipped(data, stride, threshold, y as int, search.x as int, xi as nat),
            clipped <= before + xi,
        decreases width - xi,
    {
        let x = search.x as usize + xi;
        let idx = row_start + x;
        proof {
            lemma_run_up_bound(data, stride, threshold, x as int, y - 1, search.y as int);
        }
        let old_h = heights[xi];
        if frame.data[idx] >= threshold {
            clipped = clipped + 1;
            heights.set(xi, old_h.saturating_add(1));
        } else {
            heights.set(xi, 0);
        }
        xi = xi + 1;
    }
    proof {
        assert(heights@ =~= column_heights(data, stride, threshold, search, y as int)) by {
            assert forall|k: int| 0 <= k < width implies heights@[k] == column_heights(data, stride, threshold, search, y as int)[k] by {
                lemma_run_up_bound(data, stride, threshold, search.x + k, y as int, search.y as int);
            }
        }
        assert((y - search.y) * search.size.width + search.size.width == (y + 1 - search.y) * search.size.width) by (nonlinear_arith);
    }
    clipped
}

/// Scans the rows of the search region: the number of clipped pixels, and the
/// largest rectangle of clipped pixels (column relative to the region).
fn scan_region(frame: &Frame, search: Rect, threshold: u8, heights: &mut Vec<u32>, stack: &mut Vec<usize>)
    -> (out: (u64, Option<InteriorRect>))
    requires
        frame.format == PixelFormat::Gray8,
        rows_in_data(frame.data@, frame.meta.size, frame.stride as int, frame.meta.size.width as int),
        search.x + search.size.width <= frame.meta.size.width,
        search.y + search.size.height <= frame.meta.size.height,
    ensures
        out.0 == clipped_count(frame.data@, frame.stride as int, threshold, search),
        scan_best_ok(frame.data@, frame.stride as int, threshold, search, out.1),
        scan_covered(frame.data@, frame.stride as int, threshold, search, search.y + search.size.height, out.1),
        out.1 matches Some(b) ==> exists|yb: int| #![trigger first_best_row(frame.data@, frame.stride as int, threshold, search, yb, b)]
            first_best_row(frame.data@, frame.stride as int, threshold, search, yb, b),
{
    let ghost data = frame.data@;
    let ghost stride = frame.stride as int;
    let width = search.size.width as usize;
    heights.clear();
    while heights.len() < width
        invariant
            heights@.len() <= width,
            forall|k: int| 0 <= k < heights@.len() ==> heights@[k] == 0,
        decreases width - heights@.len(),
    {
        heights.push(0);
    }
    stack.clear();
    let y_end = search.y + search.size.height;
    let mut clipped: u64 = 0;
    let mut best: Option<InteriorRect> = None;
    let mut y = search.y;
    proof {
        assert(heights@ =~= column_heights(data, stride, threshold, search, search.y - 1));
    }
    while y < y_end
        invariant
            data == frame.data@,
            stride == frame.stride as int,
            frame.format == PixelFormat::Gray8,
            rows_in_data(data, frame.meta.size, stride, frame.meta.size.width as int),
            search.x + search.size.width <= frame.meta.size.width,
            search.y + search.size.height <= frame.meta.size.height,
            y_end == search.y + search.size.height,
            search.y <= y <= y_end,
            heights@ == column_heights(data, stride, threshold, search, y - 1),
            clipped == area_clipped(data, stride, threshold, search, (y - search.y) as nat),
            clipped <= (y - search.y) * search.size.width,
            scan_best_ok(data, stride, threshold, search, best),
            scan_covered(data, stride, threshold, search, y as int, best),
            best matches Some(b) ==> exists|yb: int| #![trigger first_best_row(data, stride, threshold, search, yb, b)]
                yb < y && first_best_row(data, stride, threshold, search, yb, b),
            best is None ==> forall|y2: int, c2: InteriorRect| #![trigger row_pick(data, stride, threshold, search, y2, c2)]
                search.y <= y2 < y ==> !row_pick(data, stride, threshold, search, y2, c2),
        decreases y_end - y,
    {
        clipped = scan_row(frame, search, threshold, y, heights, clipped);
        let row_best = largest_histogram_rect(heights.as_slice(), y, stack);
        let ghost hs = heights@;
        assert(is_largest_histogram_rect(hs, y, row_best));
        let ghost prev = best;
        match row_best {
            Some(candidate) => {
                let replace = match best {
                    None => true,
                    Some(current) => current.area() < candidate.area(),
                };
                if replace {
                    best = Some(candidate);
                }
            },
            None => {},
        }
        proof {
            assert(best_area(best) >= best_area(prev) && best_area(best) >= best_area(row_best));
            // The row's best is a rectangle of clipped pixels ending on row y.
            if let Some(c) = row_best {
                lemma_run_up_bound(data, stride, threshold, search.x + c.x, y as int, search.y as int);
                assert(hs[c.x as int] >= c.height);
                assert(c.y == y + 1 - c.height);
                lemma_fits_iff_clipped(data, stride, threshold, search, y as int, c.x as int, c.width as int, c.height as int);
            }
            assert forall|r: Rect| #![trigger all_clipped(data, stride, threshold, r)]
                r.size.width > 0 && r.size.height > 0 && rect_within(r, search) && r.y + r.size.height <= y + 1
                    && all_clipped(data, stride, threshold, r)
                implies sat_area(r.size.width as int, r.size.height as int) <= best_area(best) by {
                if r.y + r.size.height == y + 1 {
                    lemma_fits_iff_clipped(data, stride, threshold, search, y as int,
                        r.x - search.x, r.size.width as int, r.size.height as int);
                    assert(rect((search.x + (r.x - search.x)) as u32, (y - r.size.height + 1) as u32,
                        r.size.width, r.size.height) == r);
                    assert(fits(hs, r.x - search.x, r.size.width as int, r.size.height as int));
                    match row_best {
                        None => {
                            assert(hs[r.x - search.x] >= r.size.height);
                        },
                        Some(c) => {
                            assert(sat_area(r.size.width as int, r.size.height as int) <= c.spec_area());
                        },
                    }
                } else {
                    assert(sat_area(r.size.width as int, r.size.height as int) <= best_area(prev));
                }
            }
            // Every earlier row picked something no larger than the best before.
            assert forall|y2: int, c2: InteriorRect| search.y <= y2 < y && #[trigger] row_pick(data, stride, threshold, search, y2, c2)
                implies c2.spec_area() <= best_area(prev) by {
                lemma_row_pick_clipped(data, stride, threshold, search, y2, c2);
                assert(all_clipped(data, stride, threshold, in_frame(search, c2)));
            }
            match row_best {
                None => {
                    assert forall|c2: InteriorRect| !#[trigger] row_pick(data, stride, threshold, search, y as int, c2) by {
                        if row_pick(data, stride, threshold, search, y as int, c2) {
                            assert(hs =~= column_heights(data, stride, threshold, search, y as int));
                            assert(fits(hs, c2.x as int, c2.width as int, c2.height as int));
                            assert(hs[c2.x as int] >= c2.height);
                        }
                    }
                    if let Some(b) = best {
                        let yb = choose|yb: int| #![trigger first_best_row(data, stride, threshold, search, yb, b)]
                            yb < y && first_best_row(data, stride, threshold, search, yb, b);
                        assert(yb < y + 1 && first_best_row(data, stride, threshold, search, yb, b));
                    }
                },
                Some(c) => {
                    assert(hs =~= column_heights(data, stride, threshold, search, y as int));
                    assert(row_pick(data, stride, threshold, search, y as int, c));
                    if best == Some(c) && prev != Some(c) {
                        assert(first_best_row(data, stride, threshold, search, y as int, c));
                    } else if let Some(b) = best {
                        let yb = choose|yb: int| #![trigger first_best_row(data, stride, threshold, search, yb, b)]
                            yb < y && first_best_row(data, stride, threshold, search, yb, b);
                        assert(yb < y + 1 && first_best_row(data, stride, threshold, search, yb, b));
                    }
                },
            }
        }
        y = y + 1;
    }
    (clipped, best)
}

/// The pick of row `y` is a non-empty rectangle of clipped pixels inside the
/// search region whose bottom row is `y`.
proof fn lemma_row_pick_clipped(data: Seq<u8>, stride: int, threshold: u8, search: Rect, y: int, c: InteriorRect)
    requires
        row_pick(data, stride, threshold, search, y, c),
        search.y <= y < search.y + search.size.height,
        search.x + search.size.width <= u32::MAX,
        search.y + search.size.height <= u32::MAX,
    ensures
        c.width > 0,
        c.height > 0,
        in_frame(search, c).y + c.height == y + 1,
        rect_within(in_frame(search, c), search),
        all_clipped(data, stride, threshold, in_frame(search, c)),
{
    let hs = column_heights(data, stride, threshold, search, y);
    lemma_run_up_bound(data, stride, threshold, search.x + c.x, y, search.y as int);
    assert(hs[c.x as int] >= c.height);
    assert(c.y == y + 1 - c.height);
    lemma_fits_iff_clipped(data, stride, threshold, search, y, c.x as int, c.width as int, c.height as int);
    assert(in_frame(search, c) == rect((search.x + c.x) as u32, (y - c.height + 1) as u32, c.width, c.height));
}

/// Finds the largest rectangle of clipped pixels in Gray8 frames, inside a
/// candidate region when one is given. It keeps scratch buffers between
/// frames.
pub struct ClippedExposureRoiDetector {
    config: ClippedExposureRoiConfig,
    heights: Vec<u32>,
    stack: Vec<usize>,
}

impl ClippedExposureRoiDetector {
    pub closed spec fn config(&self) -> ClippedExposureRoiConfig {
        self.config
    }

    pub fn new(config: ClippedExposureRoiConfig) -> (d: Self)
        ensures d.config() == config,
    {
        ClippedExposureRoiDetector { config, heights: Vec::new(), stack: Vec::new() }
    }

    /// The largest rectangle of clipped pixels inside `candidate` cut to the
    /// frame (or inside the whole frame), grown by the padding; nothing when
    /// the region holds fewer clipped pixels than the minimum, or none. Of
    /// equally large rectangles it takes the one picked on the first row
    /// whose pick is that large.
    pub fn detect(&mut self, frame: &Frame, candidate: Option<Rect>) -> (r: Result<Option<Rect>, FrameError>)
        ensures
            final(self).config() == old(self).config(),
            detect_result(*frame, candidate, old(self).config(), r),
    {
        if frame.format != PixelFormat::Gray8 {
            return Err(FrameError::UnsupportedFormat);
        }
        let bounds = frame.meta.size;
        let search = match candidate {
            Some(c) => clamp_rect(c, bounds),
            None => Rect { x: 0, y: 0, size: bounds },
        };
        if !rows_fit(frame.data.as_slice(), bounds, frame.stride, bounds.width as usize) {
            return Err(FrameError::DataTooShort);
        }
        let ghost data = frame.data@;
        let ghost stride = frame.stride as int;
        let threshold = self.config.threshold;
        let (clipped, best) = scan_region(frame, search, threshold, &mut self.heights, &mut self.stack);
        proof {
            lemma_area_clipped_pos(data, stride, threshold, search, search.size.height as nat);
            if clipped > 0 {
                let (x, y) = choose|x: int, y: int| search.x <= x < search.x + search.size.width
                    && search.y <= y < search.y + search.size.height
                    && #[trigger] clipped_at(data, stride, threshold, x, y);
                let one = rect(x as u32, y as u32, 1, 1);
                assert(all_clipped(data, stride, threshold, one));
                lemma_sat_area_pos(1, 1);
            }
            if let Some(b) = best {
                let ab = rect((search.x + b.x) as u32, b.y, b.width, b.height);
                assert(clipped_at(data, stride, threshold, ab.x as int, ab.y as int));
            }
        }
        if clipped < self.config.min_pixels as u64 {
            return Ok(None);
        }
        match best {
            None => Ok(None),
            Some(b) => {
                let found = Rect { x: search.x + b.x, y: b.y, size: Size { width: b.width, height: b.height } };
                let out = padded_rect(found, self.config.padding, bounds);
                proof {
                    assert(is_largest_clipped(data, stride, threshold, search, found));
                }
                Ok(Some(out))
            },
        }
    }
}

} // verus!
