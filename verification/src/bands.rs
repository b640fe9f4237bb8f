use vstd::prelude::*;
use vstd::arithmetic::div_mod::lemma_fundamental_div_mod;
use vstd::arithmetic::div_mod::lemma_mod_bound;
use vstd::arithmetic::mul::lemma_mul_inequality;

verus! {

/// One horizontal band of the image: `height` full rows starting at row
/// `top`. A worker renders exactly one band.
#[derive(Clone, Copy, PartialEq, Eq, Structural, Debug)]
pub struct Band {
    pub top: usize,
    pub height: usize,
}

/// Row `row` lies in band `b`.
pub open spec fn band_contains(b: Band, row: nat) -> bool {
    b.top <= row < b.top + b.height
}

/// The bands partition the rows [0, height): all non-empty, the first at
/// row 0, each starting where the one before it ends, the last ending
/// exactly at `height`.
pub open spec fn is_row_partition(bands: Seq<Band>, height: nat) -> bool {
    &&& bands.len() > 0
    &&& bands[0].top == 0
    &&& forall|i: int| 0 <= i < bands.len() ==> (#[trigger] bands[i].height) > 0
    &&& forall|i: int|
        0 <= i < bands.len() - 1 ==> bands[i + 1].top == (#[trigger] bands[i].top) + bands[i].height
    &&& bands.last().top + bands.last().height == height
}

/// Splits `height` rows into contiguous bands of `height / (workers + 1)`
/// rows each, the last band holding what remains, exactly as cutting the
/// row-major buffer into chunks of that many rows does.
pub fn band_layout(height: usize, workers: usize) -> (bands: Vec<Band>)
    requires
        workers < usize::MAX,
        workers + 1 <= height,
    ensures
        is_row_partition(bands@, height as nat),
        forall|i: int|
            0 <= i < bands@.len() ==> (#[trigger] bands@[i].top) == i * (
            height as int / (workers + 1) as int),
        forall|i: int|
            0 <= i < bands@.len() - 1 ==> (#[trigger] bands@[i].height) == height as int / (
            workers + 1) as int,
        bands@.last().height <= height as int / (workers + 1) as int,
{
    let rpb = height / (workers + 1);
    proof {
        assert(1 <= height as int / (workers + 1) as int <= height as int) by (nonlinear_arith)
            requires
                workers + 1 <= height,
                0 < workers + 1,
        ;
    }
    let mut bands: Vec<Band> = Vec::new();
    let mut top: usize = 0;
    while top < height
        invariant
            rpb == height as int / (workers + 1) as int,
            1 <= rpb <= height,
            top <= height,
            bands@.len() == 0 ==> top == 0,
            top < height ==> top == bands@.len() * rpb,
            forall|i: int|
                0 <= i < bands@.len() - 1 ==> bands@[i + 1].top == (#[trigger] bands@[i].top)
                    + bands@[i].height,
            bands@.len() > 0 ==> bands@.last().top + bands@.last().height == top,
            bands@.len() > 0 ==> bands@.last().height <= rpb,
            forall|i: int| 0 <= i < bands@.len() ==> (#[trigger] bands@[i].top) == i * rpb,
            forall|i: int| 0 <= i < bands@.len() ==> (#[trigger] bands@[i].height) > 0,
            forall|i: int| 0 <= i < bands@.len() - 1 ==> (#[trigger] bands@[i].height) == rpb,
        decreases height - top,
    {
        let remaining = height - top;
        let h = if remaining < rpb {
            remaining
        } else {
            rpb
        };
        proof {
            let l = bands@.len() as int;
            assert((l + 1) * rpb == l * rpb + rpb) by (nonlinear_arith);
            assert(l * rpb == (l - 1) * rpb + rpb) by (nonlinear_arith);
        }
        bands.push(Band { top, height: h });
        top = top + h;
    }
    bands
}

/// Bands later in a partition lie at or above the end of earlier ones.
proof fn lemma_band_order(bands: Seq<Band>, i: int, j: int)
    requires
        forall|k: int|
            0 <= k < bands.len() - 1 ==> bands[k + 1].top == (#[trigger] bands[k].top)
                + bands[k].height,
        forall|k: int| 0 <= k < bands.len() ==> (#[trigger] bands[k].height) > 0,
        0 <= i < j < bands.len(),
    ensures
        bands[i].top + bands[i].height <= bands[j].top,
    decreases j - i,
{
    if j > i + 1 {
        lemma_band_order(bands, i, j - 1);
    }
}

/// A row below `height` that lies at or past the start of band `k` lies
/// in some band of the partition.
proof fn lemma_band_exists_from(bands: Seq<Band>, height: nat, row: nat, k: int)
    requires
        is_row_partition(bands, height),
        row < height,
        0 <= k < bands.len(),
        bands[k].top <= row,
    ensures
        exists|i: int| 0 <= i < bands.len() && #[trigger] band_contains(bands[i], row),
    decreases bands.len() - k,
{
    if row < bands[k].top + bands[k].height {
        assert(band_contains(bands[k], row));
    } else {
        assert(k < bands.len() - 1);
        lemma_band_exists_from(bands, height, row, k + 1);
    }
}

/// Partition completeness: in any partition of the rows [0, height),
/// every such row lies in exactly one band — the union of the bands
/// covers the image with no gap and no overlap.
pub proof fn lemma_row_partition_complete(bands: Seq<Band>, height: nat, row: nat)
    requires
        is_row_partition(bands, height),
        row < height,
    ensures
        exists|i: int| 0 <= i < bands.len() && #[trigger] band_contains(bands[i], row),
        forall|i: int, j: int|
            0 <= i < bands.len() && 0 <= j < bands.len() && #[trigger] band_contains(bands[i], row)
                && #[trigger] band_contains(bands[j], row) ==> i == j,
{
    lemma_band_exists_from(bands, height, row, 0);
    assert forall|i: int, j: int|
        0 <= i < bands.len() && 0 <= j < bands.len() && #[trigger] band_contains(bands[i], row)
            && #[trigger] band_contains(bands[j], row) implies i == j by {
        if i < j {
            lemma_band_order(bands, i, j);
        }
        if j < i {
            lemma_band_order(bands, j, i);
        }
    }
}

/// The bytes of band `b` in a row-major buffer whose rows are `width`
/// bytes long: one contiguous chunk.
pub open spec fn band_contains_byte(b: Band, width: nat, k: nat) -> bool {
    b.top * width <= k < (b.top + b.height) * width
}

/// A byte of the row-major buffer lies in a band's chunk of it exactly
/// when the row the byte belongs to lies in the band. With partition
/// completeness this cuts the buffer into disjoint contiguous chunks
/// that cover it, which is what lets each worker own one chunk.
pub proof fn lemma_band_bytes(b: Band, width: nat, k: nat)
    requires
        width > 0,
    ensures
        band_contains_byte(b, width, k) <==> band_contains(b, k / width),
{
    let wi = width as int;
    let ki = k as int;
    let r = ki / wi;
    lemma_fundamental_div_mod(ki, wi);
    lemma_mod_bound(ki, wi);
    assert(wi * r + wi == (r + 1) * wi) by (nonlinear_arith);
    assert(wi * r == r * wi) by (nonlinear_arith);
    if b.top <= r < b.top + b.height {
        lemma_mul_inequality(b.top as int, r, wi);
        lemma_mul_inequality(r + 1, b.top + b.height, wi);
    }
    if r < b.top {
        lemma_mul_inequality(r + 1, b.top as int, wi);
    }
    if r >= b.top + b.height {
        lemma_mul_inequality(b.top + b.height, r, wi);
    }
}

/// Every band of a partition lies within the image: no band reaches at or
/// past `height`.
pub proof fn lemma_row_partition_bounded(bands: Seq<Band>, height: nat, i: int)
    requires
        is_row_partition(bands, height),
        0 <= i < bands.len(),
    ensures
        bands[i].top + bands[i].height <= height,
{
    if i < bands.len() - 1 {
        lemma_band_order(bands, i, bands.len() - 1);
    }
}

} // verus!
