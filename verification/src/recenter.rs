//! Recentring: the whole cloud of coordinates is moved so that its centroid
//! lies at the origin. This is what keeps the coordinates from drifting.

use vstd::prelude::*;

use crate::aggregate::coords;
use crate::embedding::shorter;
use crate::fixed::{clamp, lemma_quot_remainder, minus, quot, quotient, saturate, spec_minus};
use crate::table::Table;

verus! {

/// The sum of component `c` over the first `n` vectors.
pub open spec fn column_sum(vecs: Seq<Seq<i64>>, c: int, n: nat) -> int
    decreases n,
{
    if n == 0 {
        0
    } else {
        column_sum(vecs, c, (n - 1) as nat) + vecs[n - 1][c]
    }
}

/// The centroid of the vectors: in each of `dim` components, the sum over
/// all vectors divided by their number.
pub open spec fn spec_centroid(vecs: Seq<Seq<i64>>, dim: nat) -> Seq<i64> {
    Seq::new(
        dim,
        |c: int| clamp(quot(column_sum(vecs, c, vecs.len()), vecs.len() as int)) as i64,
    )
}

/// A vector moved by `-center`.
pub open spec fn spec_shifted(v: Seq<i64>, center: Seq<i64>) -> Seq<i64> {
    Seq::new(shorter(v.len(), center.len()), |c: int| spec_minus(v[c], center[c]))
}

/// The vectors, each moved by minus their centroid.
pub open spec fn spec_recentered(vecs: Seq<Seq<i64>>, dim: nat) -> Seq<Seq<i64>> {
    Seq::new(vecs.len(), |j: int| spec_shifted(vecs[j], spec_centroid(vecs, dim)))
}

/// The squared length of the sum of all vectors, over the first `d`
/// components.
pub open spec fn sum_norm_square(vecs: Seq<Seq<i64>>, d: nat) -> int
    decreases d,
{
    if d == 0 {
        0
    } else {
        sum_norm_square(vecs, (d - 1) as nat) + column_sum(vecs, d - 1, vecs.len()) * column_sum(
            vecs,
            d - 1,
            vecs.len(),
        )
    }
}

/// A column sum over `n` vectors lies within `n` times the bound of the
/// components.
pub proof fn lemma_column_sum_bound(vecs: Seq<Seq<i64>>, c: int, n: nat, bound: int)
    requires
        n <= vecs.len(),
        bound >= 0,
        forall|j: int| 0 <= j < vecs.len() ==> -bound <= (#[trigger] vecs[j])[c] <= bound,
    ensures
        -(n * bound) <= column_sum(vecs, c, n) <= n * bound,
    decreases n,
{
    if n > 0 {
        lemma_column_sum_bound(vecs, c, (n - 1) as nat, bound);
        assert(-bound <= vecs[n - 1][c] <= bound);
        assert(n * bound == (n - 1) * bound + bound) by (nonlinear_arith);
    }
}

/// The centroid of this node's coordinate table.
pub fn centroid(resolved: &Table<Vec<i64>>, dim: usize) -> (r: Vec<i64>)
    requires
        resolved.wf(),
        forall|i: int| 0 <= i < resolved.vals().len() ==> (#[trigger] resolved.vals()[i])@.len() == dim,
    ensures
        r@ == spec_centroid(coords(resolved), dim as nat),
{
    let n: usize = resolved.len();
    let ghost vecs = coords(resolved);
    let mut r: Vec<i64> = Vec::new();
    let mut c: usize = 0;
    while c < dim
        invariant
            c <= dim,
            n == resolved.ids().len(),
            resolved.wf(),
            vecs == coords(resolved),
            forall|i: int| 0 <= i < resolved.vals().len() ==> (#[trigger] resolved.vals()[i])@.len() == dim,
            r@.len() == c,
            forall|k: int|
                0 <= k < c ==> r@[k] == clamp(quot(column_sum(vecs, k, vecs.len()), vecs.len() as int)),
        decreases dim - c,
    {
        let mut sum: i128 = 0;
        let mut j: usize = 0;
        while j < n
            invariant
                j <= n,
                c < dim,
                n == resolved.ids().len(),
                resolved.wf(),
                vecs == coords(resolved),
                forall|i: int|
                    0 <= i < resolved.vals().len() ==> (#[trigger] resolved.vals()[i])@.len() == dim,
                sum == column_sum(vecs, c as int, j as nat),
                -(j * 0x8000_0000_0000_0000) <= sum <= j * 0x8000_0000_0000_0000,
            decreases n - j,
        {
            let v: &Vec<i64> = resolved.value(j);
            assert(vecs[j as int] == resolved.vals()[j as int]@);
            sum = sum + v[c] as i128;
            j += 1;
        }
        r.push(saturate(quotient(sum, n as i128)));
        c += 1;
    }
    assert(r@ =~= spec_centroid(vecs, dim as nat));
    r
}

/// A vector moved by `-center`.
pub fn shifted(v: &Vec<i64>, center: &Vec<i64>) -> (r: Vec<i64>)
    ensures
        r@ == spec_shifted(v@, center@),
{
    let len: usize = if v.len() <= center.len() {
        v.len()
    } else {
        center.len()
    };
    let mut r: Vec<i64> = Vec::new();
    let mut i: usize = 0;
    while i < len
        invariant
            i <= len,
            len == shorter(v@.len(), center@.len()),
            r@.len() == i,
            forall|j: int| 0 <= j < i ==> r@[j] == spec_minus(v@[j], center@[j]),
        decreases len - i,
    {
        r.push(minus(v[i], center[i]));
        i += 1;
    }
    assert(r@ =~= spec_shifted(v@, center@));
    r
}

/// Moves every coordinate by minus the centroid of them all.
pub fn recenter(resolved: &mut Table<Vec<i64>>, dim: usize)
    requires
        old(resolved).wf(),
        forall|i: int|
            0 <= i < old(resolved).vals().len() ==> (#[trigger] old(resolved).vals()[i])@.len() == dim,
    ensures
        final(resolved).wf(),
        final(resolved).ids() == old(resolved).ids(),
        coords(final(resolved)) == spec_recentered(coords(old(resolved)), dim as nat),
        forall|i: int|
            0 <= i < final(resolved).vals().len() ==> (#[trigger] final(resolved).vals()[i])@.len()
                == dim,
{
    let center: Vec<i64> = centroid(resolved, dim);
    let ghost vecs = coords(resolved);
    let n: usize = resolved.len();
    let mut j: usize = 0;
    while j < n
        invariant
            j <= n,
            n == resolved.ids().len(),
            resolved.wf(),
            resolved.ids() == old(resolved).ids(),
            vecs == coords(old(resolved)),
            vecs.len() == n,
            center@ == spec_centroid(vecs, dim as nat),
            coords(resolved).len() == n,
            forall|i: int| 0 <= i < j ==> coords(resolved)[i] == spec_shifted(vecs[i], center@),
            forall|i: int| j <= i < n ==> coords(resolved)[i] == vecs[i],
            forall|i: int| 0 <= i < n ==> (#[trigger] resolved.vals()[i])@.len() == dim,
        decreases n - j,
    {
        let ghost held = coords(resolved);
        assert(held[j as int] == resolved.vals()[j as int]@);
        let moved: Vec<i64> = shifted(resolved.value(j), &center);
        resolved.set(j, moved);
        proof {
            assert(coords(resolved) =~= held.update(j as int, moved@));
            assert forall|i: int| 0 <= i < n implies (#[trigger] resolved.vals()[i])@.len() == dim by {
                if i != j {
                    assert(coords(resolved)[i] == resolved.vals()[i]@);
                    assert(held[i] == coords(resolved)[i]);
                }
            }
        }
        j += 1;
    }
    assert(coords(resolved) =~= spec_recentered(vecs, dim as nat));
}

/// Half of the largest real: components within it can be recentred without
/// leaving the representable range.
pub const HALF_RANGE: i64 = 0x3fff_ffff_ffff_ffff;

/// Whether every one of the first `dim` components of every vector lies
/// within `bound` of zero.
pub open spec fn within(vecs: Seq<Seq<i64>>, dim: nat, bound: int) -> bool {
    forall|j: int, c: int|
        0 <= j < vecs.len() && 0 <= c < dim ==> -bound <= #[trigger] vecs[j][c] <= bound
}

/// A component of the centroid is the exact quotient, lies within the bound
/// of the components, and leaves a remainder smaller than the number of
/// vectors.
proof fn lemma_centroid_component(vecs: Seq<Seq<i64>>, dim: nat, c: int)
    requires
        vecs.len() >= 1,
        0 <= c < dim,
        within(vecs, dim, HALF_RANGE as int),
    ensures
        spec_centroid(vecs, dim)[c] == quot(column_sum(vecs, c, vecs.len()), vecs.len() as int),
        -HALF_RANGE <= spec_centroid(vecs, dim)[c] <= HALF_RANGE,
        -vecs.len() < column_sum(vecs, c, vecs.len()) - vecs.len() * spec_centroid(vecs, dim)[c]
            < vecs.len(),
{
    let n = vecs.len() as int;
    let total = column_sum(vecs, c, vecs.len());
    let q = quot(total, n);
    assert forall|j: int| 0 <= j < vecs.len() implies -HALF_RANGE <= (#[trigger] vecs[j])[c]
        <= HALF_RANGE by {
        assert(-HALF_RANGE <= vecs[j][c] <= HALF_RANGE);
    }
    lemma_column_sum_bound(vecs, c, vecs.len(), HALF_RANGE as int);
    lemma_quot_remainder(total, n);
    let h = HALF_RANGE as int;
    assert(-h <= q <= h) by (nonlinear_arith)
        requires
            n >= 1,
            h >= 0,
            -(n * h) <= total <= n * h,
            -n < total - n * q < n,
            total >= 0 ==> 0 <= q <= total,
            total <= 0 ==> total <= q <= 0,
    ;
}

/// Moving every vector by minus the centroid lowers each column sum by the
/// centroid's component times the number of vectors summed.
proof fn lemma_shifted_column(vecs: Seq<Seq<i64>>, dim: nat, c: int, k: nat)
    requires
        vecs.len() >= 1,
        k <= vecs.len(),
        0 <= c < dim,
        forall|j: int| 0 <= j < vecs.len() ==> (#[trigger] vecs[j]).len() == dim,
        within(vecs, dim, HALF_RANGE as int),
    ensures
        column_sum(spec_recentered(vecs, dim), c, k) == column_sum(vecs, c, k) - k * spec_centroid(
            vecs,
            dim,
        )[c],
    decreases k,
{
    if k > 0 {
        lemma_shifted_column(vecs, dim, c, (k - 1) as nat);
        lemma_centroid_component(vecs, dim, c);
        let q = spec_centroid(vecs, dim)[c];
        let v = vecs[k - 1];
        assert(v.len() == dim);
        assert(-HALF_RANGE <= vecs[k - 1][c] <= HALF_RANGE);
        assert(spec_recentered(vecs, dim)[k - 1][c] == spec_minus(v[c], q));
        assert(spec_minus(v[c], q) == v[c] - q);
        assert(k * q == (k - 1) * q + q) by (nonlinear_arith);
        assert(column_sum(spec_recentered(vecs, dim), c, k) == column_sum(
            spec_recentered(vecs, dim),
            c,
            (k - 1) as nat,
        ) + spec_recentered(vecs, dim)[k - 1][c]);
        assert(column_sum(vecs, c, k) == column_sum(vecs, c, (k - 1) as nat) + vecs[k - 1][c]);
    } else {
        let q = spec_centroid(vecs, dim)[c];
        assert(0 * q == 0) by (nonlinear_arith);
    }
}

/// Where every column sum is smaller in size than `n`, the squared length
/// of the sum of all vectors over `d` components is at most `d` times the
/// square of `n - 1`.
proof fn lemma_norm_bound(vecs: Seq<Seq<i64>>, d: nat, n: int)
    requires
        n >= 1,
        forall|c: int| 0 <= c < d ==> -n < #[trigger] column_sum(vecs, c, vecs.len()) < n,
    ensures
        0 <= sum_norm_square(vecs, d) <= d * ((n - 1) * (n - 1)),
    decreases d,
{
    if d > 0 {
        lemma_norm_bound(vecs, (d - 1) as nat, n);
        let x = column_sum(vecs, d - 1, vecs.len());
        assert(-n < x < n);
        assert(0 <= x * x <= (n - 1) * (n - 1)) by (nonlinear_arith)
            requires
                -n < x < n,
        ;
        assert(d * ((n - 1) * (n - 1)) == (d - 1) * ((n - 1) * (n - 1)) + (n - 1) * (n - 1))
            by (nonlinear_arith);
    }
}

/// Whether the centroid of the vectors lies at the origin up to rounding: in
/// each of `dim` components the vectors sum to less than their number, and
/// the sum of all vectors, squared, is below a million times the squared
/// number of vectors. In billionths that is a centroid shorter than one
/// millionth.
pub open spec fn is_centred(vecs: Seq<Seq<i64>>, dim: nat) -> bool {
    &&& forall|c: int|
        0 <= c < dim ==> -vecs.len() < #[trigger] column_sum(vecs, c, vecs.len()) < vecs.len()
    &&& sum_norm_square(vecs, dim) < 1_000_000 * (vecs.len() * vecs.len())
}

/// After recentring, the centroid lies at the origin up to rounding: in each
/// component the coordinates sum to less than their number, in billionths,
/// and with at most a million components the length of the centroid is below
/// one millionth (the sum of all vectors, squared, is below a million times
/// the squared number of vectors, in billionths squared). This holds where
/// no component is beyond half of the representable range.
pub proof fn law_recentered_centroid(vecs: Seq<Seq<i64>>, dim: nat)
    requires
        vecs.len() >= 1,
        dim <= 1_000_000,
        forall|j: int| 0 <= j < vecs.len() ==> (#[trigger] vecs[j]).len() == dim,
        within(vecs, dim, HALF_RANGE as int),
    ensures
        forall|c: int|
            0 <= c < dim ==> -vecs.len() < #[trigger] column_sum(
                spec_recentered(vecs, dim),
                c,
                vecs.len(),
            ) < vecs.len(),
        sum_norm_square(spec_recentered(vecs, dim), dim) < 1_000_000 * (vecs.len() * vecs.len()),
        is_centred(spec_recentered(vecs, dim), dim),
{
    let n = vecs.len() as int;
    let moved = spec_recentered(vecs, dim);
    assert forall|c: int| 0 <= c < dim implies -n < #[trigger] column_sum(moved, c, vecs.len())
        < n by {
        lemma_shifted_column(vecs, dim, c, vecs.len());
        lemma_centroid_component(vecs, dim, c);
    }
    assert(moved.len() == vecs.len());
    lemma_norm_bound(moved, dim, n);
    assert(dim * ((n - 1) * (n - 1)) < 1_000_000 * (n * n)) by (nonlinear_arith)
        requires
            n >= 1,
            0 <= dim <= 1_000_000,
    ;
}

} // verus!
