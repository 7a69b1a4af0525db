//! The anchor grid of the palm detector: for each stride, a square grid of
//! cells over the input, two anchors a cell.

use vstd::prelude::*;

verus! {

/// An anchor: cell `(x, y)` of a `grid` by `grid` layer. Its centre is at
/// `((x + 0.5) / grid, (y + 0.5) / grid)` of the input, its size the whole
/// input.
#[derive(Clone, Copy, Debug, PartialEq, Eq, Structural)]
pub struct AnchorCell {
    pub x: usize,
    pub y: usize,
    pub grid: usize,
}

/// `a / b` rounded up.
pub open spec fn ceil_div(a: int, b: int) -> int {
    (a + b - 1) / b
}

/// The anchors of one layer of `grid` by `grid` cells, row by row, two a
/// cell.
pub open spec fn layer(grid: int) -> Seq<AnchorCell> {
    Seq::new((grid * grid * 2) as nat, |i: int| AnchorCell {
        x: ((i / 2) % grid) as usize,
        y: ((i / 2) / grid) as usize,
        grid: grid as usize,
    })
}

/// The anchors of the layers of the given strides, in order.
pub open spec fn anchors_for(input_size: int, strides: Seq<usize>) -> Seq<AnchorCell>
    decreases strides.len(),
{
    if strides.len() == 0 {
        Seq::empty()
    } else {
        anchors_for(input_size, strides.drop_last()) + layer(ceil_div(input_size, strides.last() as int))
    }
}

/// The number of anchors of the layers of the given strides.
pub open spec fn anchor_total(input_size: int, strides: Seq<usize>) -> int
    decreases strides.len(),
{
    if strides.len() == 0 {
        0
    } else {
        let g = ceil_div(input_size, strides.last() as int);
        anchor_total(input_size, strides.drop_last()) + g * g * 2
    }
}

proof fn lemma_anchor_total(input_size: int, strides: Seq<usize>)
    requires
        input_size >= 0,
        forall|i: int| 0 <= i < strides.len() ==> strides[i] > 0,
    ensures
        anchors_for(input_size, strides).len() == anchor_total(input_size, strides),
        anchor_total(input_size, strides) >= 0,
    decreases strides.len(),
{
    if strides.len() > 0 {
        lemma_anchor_total(input_size, strides.drop_last());
        let g = ceil_div(input_size, strides.last() as int);
        assert(g >= 0) by (nonlinear_arith)
            requires input_size >= 0, strides.last() > 0, g == (input_size + strides.last() - 1) / (strides.last() as int);
        assert(g * g * 2 >= 0) by (nonlinear_arith) requires g >= 0;
    }
}

/// Appends the anchors of a `grid` by `grid` layer.
fn push_layer(out: &mut Vec<AnchorCell>, grid: usize)
    requires
        old(out)@.len() + grid * grid * 2 <= usize::MAX,
    ensures
        final(out)@ == old(out)@ + layer(grid as int),
{
    let ghost start = out@;
    let ghost l = layer(grid as int);
    let mut y: usize = 0;
    proof {
        assert(grid * grid * 2 >= 0) by (nonlinear_arith);
    }
    while y < grid
        invariant
            y <= grid,
            start.len() + grid * grid * 2 <= usize::MAX,
            l == layer(grid as int),
            out@ == start + l.take(y * grid * 2),
        decreases grid - y,
    {
        let mut x: usize = 0;
        proof {
            assert((y + 1) * grid * 2 <= grid * grid * 2) by (nonlinear_arith)
                requires y < grid;
            assert((y + 1) * grid * 2 == y * grid * 2 + grid * 2) by (nonlinear_arith);
        }
        while x < grid
            invariant
                y < grid,
                x <= grid,
                start.len() + grid * grid * 2 <= usize::MAX,
                (y + 1) * grid * 2 <= grid * grid * 2,
                l == layer(grid as int),
                out@ == start + l.take(y * grid * 2 + x * 2),
            decreases grid - x,
        {
            let cell = AnchorCell { x, y, grid };
            proof {
                let i0 = y * grid * 2 + x * 2;
                assert(i0 + 2 <= grid * grid * 2) by (nonlinear_arith)
                    requires x < grid, (y + 1) * grid * 2 <= grid * grid * 2, i0 == y * grid * 2 + x * 2;
                vstd::arithmetic::div_mod::lemma_fundamental_div_mod_converse(i0 / 2, grid as int, y as int, x as int);
                assert(i0 / 2 == y * grid + x) by (nonlinear_arith) requires i0 == y * grid * 2 + x * 2;
                assert((i0 + 1) / 2 == y * grid + x) by (nonlinear_arith) requires i0 == y * grid * 2 + x * 2;
                assert(l[i0] == cell);
                assert(l[i0 + 1] == cell);
                assert(l.take(i0 + 2) =~= l.take(i0).push(cell).push(cell));
            }
            out.push(cell);
            out.push(cell);
            x = x + 1;
        }
        y = y + 1;
    }
    assert(l.take(grid * grid * 2) =~= l);
}

/// The anchors of the layers of `strides` over an input of `input_size`
/// pixels a side.
pub fn generate_palm_anchors_for_strides(input_size: usize, strides: &[usize]) -> (out: Vec<AnchorCell>)
    requires
        forall|i: int| 0 <= i < strides@.len() ==> strides@[i] > 0,
        anchor_total(input_size as int, strides@) <= usize::MAX,
    ensures
        out@ == anchors_for(input_size as int, strides@),
{
    let mut out: Vec<AnchorCell> = Vec::new();
    let mut k: usize = 0;
    assert(strides@.take(0) =~= Seq::<usize>::empty());
    proof {
        lemma_prefix_totals(input_size as int, strides@);
    }
    while k < strides.len()
        invariant
            k <= strides@.len(),
            forall|i: int| 0 <= i < strides@.len() ==> strides@[i] > 0,
            forall|j: int| 0 <= j <= strides@.len() ==> #[trigger] anchor_total(input_size as int, strides@.take(j)) <= usize::MAX,
            out@ == anchors_for(input_size as int, strides@.take(k as int)),
        decreases strides@.len() - k,
    {
        let stride = strides[k];
        proof {
            assert(strides@.take(k + 1).drop_last() =~= strides@.take(k as int));
            assert(forall|i: int| 0 <= i < strides@.take(k as int).len() ==> strides@.take(k as int)[i] > 0);
            lemma_anchor_total(input_size as int, strides@.take(k as int));
            assert(anchor_total(input_size as int, strides@.take(k + 1)) <= usize::MAX);
        }
        proof {
            if input_size % stride != 0 {
                assert(stride >= 2);
                assert(input_size / stride <= input_size / 2) by (nonlinear_arith)
                    requires stride >= 2, input_size >= 0;
            }
        }
        let grid = if input_size % stride == 0 { input_size / stride } else { input_size / stride + 1 };
        proof {
            vstd::arithmetic::div_mod::lemma_fundamental_div_mod(input_size as int, stride as int);
            assert(grid as int == ceil_div(input_size as int, stride as int)) by (nonlinear_arith)
                requires
                    stride > 0,
                    input_size == stride * (input_size / stride) + input_size % stride,
                    0 <= input_size % stride < stride,
                    input_size % stride == 0 ==> grid == input_size / stride,
                    input_size % stride != 0 ==> grid == input_size / stride + 1;
        }
        push_layer(&mut out, grid);
        k = k + 1;
    }
    assert(strides@.take(strides@.len() as int) =~= strides@);
    out
}

/// The strides of the palm detector models, tried in order.
pub open spec fn full_strides() -> Seq<usize> {
    seq![8usize, 16, 32, 32, 32]
}

pub open spec fn lite_strides() -> Seq<usize> {
    seq![8usize, 16, 16, 16]
}

/// The anchors of the first stride set that gives the model's anchor count,
/// else those of the first set.
pub open spec fn spec_palm_anchors(input_size: int, anchor_count: int) -> Seq<AnchorCell> {
    let full = anchors_for(input_size, full_strides());
    let lite = anchors_for(input_size, lite_strides());
    if full.len() == anchor_count { full } else if lite.len() == anchor_count { lite } else { full }
}

/// The anchors for a detector of `input_size` pixels a side whose model has
/// `anchor_count` anchors.
pub fn generate_palm_anchors(input_size: usize, anchor_count: usize) -> (out: Vec<AnchorCell>)
    requires
        anchor_total(input_size as int, full_strides()) <= usize::MAX,
        anchor_total(input_size as int, lite_strides()) <= usize::MAX,
    ensures
        out@ == spec_palm_anchors(input_size as int, anchor_count as int),
{
    let full: [usize; 5] = [8, 16, 32, 32, 32];
    let lite: [usize; 4] = [8, 16, 16, 16];
    proof {
        assert(full@ =~= full_strides());
        assert(lite@ =~= lite_strides());
    }
    let a = generate_palm_anchors_for_strides(input_size, &full);
    if a.len() == anchor_count {
        return a;
    }
    let b = generate_palm_anchors_for_strides(input_size, &lite);
    if b.len() == anchor_count {
        return b;
    }
    a
}

/// The anchor count of a prefix of the strides is at most that of all of
/// them.
proof fn lemma_prefix_totals(input_size: int, strides: Seq<usize>)
    requires
        input_size >= 0,
        forall|i: int| 0 <= i < strides.len() ==> strides[i] > 0,
    ensures
        forall|k: int| 0 <= k <= strides.len() ==> #[trigger] anchor_total(input_size, strides.take(k)) <= anchor_total(input_size, strides),
    decreases strides.len(),
{
    if strides.len() > 0 {
        let p = strides.drop_last();
        lemma_prefix_totals(input_size, p);
        lemma_anchor_total(input_size, strides);
        assert forall|k: int| 0 <= k <= strides.len() implies #[trigger] anchor_total(input_size, strides.take(k)) <= anchor_total(input_size, strides) by {
            if k < strides.len() {
                assert(strides.take(k) =~= p.take(k));
                let g = ceil_div(input_size, strides.last() as int);
                assert(g >= 0) by (nonlinear_arith)
                    requires input_size >= 0, strides.last() > 0, g == (input_size + strides.last() - 1) / (strides.last() as int);
                assert(g * g * 2 >= 0) by (nonlinear_arith) requires g >= 0;
            } else {
                assert(strides.take(k) =~= strides);
            }
        }
    }
}

/// The anchor at index `i` of a layer of `grid` by `grid` cells: cells go
/// row by row, two anchors a cell.
pub open spec fn cell_at(grid: int, i: int) -> AnchorCell {
    AnchorCell { x: ((i / 2) % grid) as usize, y: ((i / 2) / grid) as usize, grid: grid as usize }
}

proof fn lemma_layer_len(g: int)
    requires g >= 0,
    ensures layer(g).len() == g * g * 2, g * g * 2 >= 0,
{
    assert(g * g * 2 >= 0) by (nonlinear_arith) requires g >= 0;
}

/// The palm anchors for an input of `n` pixels a side, with `a`, `b` and `c`
/// its cells a side at strides 8, 16 and 32. A model with
/// `2a² + 2b² + 6c²` anchors gets a layer of stride 8, one of stride 16, then
/// three of stride 32; otherwise a model with `2a² + 6b²` anchors gets a layer
/// of stride 8, then three of stride 16; any other model gets the first
/// layout. Each layer lists its cells row by row, two anchors a cell.
pub proof fn lemma_palm_anchor_layout(n: int, count: int, i: int)
    requires
        n >= 0,
    ensures ({
        let a = (n + 7) / 8;
        let b = (n + 15) / 16;
        let c = (n + 31) / 32;
        let full = a * a * 2 + b * b * 2 + 3 * (c * c * 2);
        let lite = a * a * 2 + 3 * (b * b * 2);
        let out = spec_palm_anchors(n, count);
        if count != full && count == lite {
            &&& out.len() == lite
            &&& 0 <= i < a * a * 2 ==> out[i] == cell_at(a, i)
            &&& a * a * 2 <= i < lite ==> out[i] == cell_at(b, (i - a * a * 2) % (b * b * 2))
        } else {
            &&& out.len() == full
            &&& 0 <= i < a * a * 2 ==> out[i] == cell_at(a, i)
            &&& a * a * 2 <= i < a * a * 2 + b * b * 2 ==> out[i] == cell_at(b, i - a * a * 2)
            &&& a * a * 2 + b * b * 2 <= i < full ==> out[i] == cell_at(c, (i - a * a * 2 - b * b * 2) % (c * c * 2))
        }
    }),
{
    let a = (n + 7) / 8;
    let b = (n + 15) / 16;
    let c = (n + 31) / 32;
    assert(a >= 0 && b >= 0 && c >= 0);
    lemma_layer_len(a);
    lemma_layer_len(b);
    lemma_layer_len(c);
    let la = layer(a);
    let lb = layer(b);
    let lc = layer(c);
    let fs = full_strides();
    let ls = lite_strides();
    assert(fs.drop_last() =~= seq![8usize, 16, 32, 32]);
    assert(fs.drop_last().drop_last() =~= seq![8usize, 16, 32]);
    assert(fs.drop_last().drop_last().drop_last() =~= seq![8usize, 16]);
    assert(fs.drop_last().drop_last().drop_last().drop_last() =~= seq![8usize]);
    assert(seq![8usize].drop_last() =~= Seq::<usize>::empty());
    assert(ls.drop_last() =~= seq![8usize, 16, 16]);
    assert(ls.drop_last().drop_last() =~= seq![8usize, 16]);
    assert(ls.drop_last().drop_last().drop_last() =~= seq![8usize]);
    reveal_with_fuel(anchors_for, 6);
    assert(ceil_div(n, 8) == a && ceil_div(n, 16) == b && ceil_div(n, 32) == c);
    let full_seq = anchors_for(n, fs);
    let lite_seq = anchors_for(n, ls);
    assert(anchors_for(n, seq![8usize]) =~= la);
    assert(anchors_for(n, seq![8usize, 16]) =~= la + lb);
    assert(full_seq =~= la + lb + lc + lc + lc);
    assert(lite_seq =~= la + lb + lb + lb);
    let na = a * a * 2;
    let nb = b * b * 2;
    let nc = c * c * 2;
    // Indices into the repeated layers.
    if na <= i < na + 3 * nb {
        let j = i - na;
        if j < nb {
            vstd::arithmetic::div_mod::lemma_fundamental_div_mod_converse(j, nb, 0, j);
        } else if j < 2 * nb {
            vstd::arithmetic::div_mod::lemma_fundamental_div_mod_converse(j, nb, 1, j - nb);
        } else {
            vstd::arithmetic::div_mod::lemma_fundamental_div_mod_converse(j, nb, 2, j - 2 * nb);
        }
    }
    if na + nb <= i < na + nb + 3 * nc {
        let j = i - na - nb;
        if j < nc {
            vstd::arithmetic::div_mod::lemma_fundamental_div_mod_converse(j, nc, 0, j);
        } else if j < 2 * nc {
            vstd::arithmetic::div_mod::lemma_fundamental_div_mod_converse(j, nc, 1, j - nc);
        } else {
            vstd::arithmetic::div_mod::lemma_fundamental_div_mod_converse(j, nc, 2, j - 2 * nc);
        }
    }
}

} // verus!
