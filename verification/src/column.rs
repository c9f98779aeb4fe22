//! Collision and integration over one grid column (a vector of cell
//! buckets), and between two adjacent columns.

use vstd::prelude::*;
use crate::accel::Accelerator;
use crate::bounds::{BoundingBox, contain_spec};
use crate::fixed::{DT_MAX, FP_ONE, imax, imin};
use crate::particle::{Particle, verlet_spec};
use crate::sets::{
    all_wf, resolve_set, resolve_set_spec, resolve_set_to_set, resolve_set_to_set_spec,
};

verus! {

/// The mathematical value of a column: a sequence of cell contents.
pub open spec fn view2(c: Vec<Vec<Particle>>) -> Seq<Seq<Particle>> {
    c@.map_values(|cell: Vec<Particle>| cell@)
}

/// Every particle of every cell is well-formed.
pub open spec fn all_wf2(c: Seq<Seq<Particle>>) -> bool {
    forall|r: int| 0 <= r < c.len() ==> all_wf(#[trigger] c[r])
}

/// Each cell keeps its particle count.
pub open spec fn same_shape2(a: Seq<Seq<Particle>>, b: Seq<Seq<Particle>>) -> bool {
    &&& a.len() == b.len()
    &&& forall|r: int| 0 <= r < a.len() ==> #[trigger] a[r].len() == b[r].len()
}

/// Unfold column well-formedness to the underlying vector's cells.
proof fn lemma_wf_pointwise(col: Vec<Vec<Particle>>)
    requires
        all_wf2(view2(col)),
    ensures
        forall|q: int| 0 <= q < col@.len() ==> all_wf(#[trigger] col@[q]@),
{
    assert forall|q: int| 0 <= q < col@.len() implies all_wf(#[trigger] col@[q]@) by {
        assert(all_wf(view2(col)[q]));
    }
}

/// Fold cell-level well-formedness back into the column view.
proof fn lemma_wf_pack(col: Vec<Vec<Particle>>)
    requires
        forall|q: int| 0 <= q < col@.len() ==> all_wf(#[trigger] col@[q]@),
    ensures
        all_wf2(view2(col)),
{
    assert forall|q: int| 0 <= q < view2(col).len() implies all_wf(#[trigger] view2(col)[q]) by {
        assert(view2(col)[q] == col@[q]@);
    }
}

/// Fold cell-level length preservation back into the column view.
proof fn lemma_shape_pack(col: Vec<Vec<Particle>>, c0: Seq<Seq<Particle>>)
    requires
        col@.len() == c0.len(),
        forall|q: int| 0 <= q < col@.len() ==> #[trigger] col@[q]@.len() == c0[q].len(),
    ensures
        same_shape2(view2(col), c0),
{
    assert forall|r: int| 0 <= r < view2(col).len() implies #[trigger] view2(col)[r].len()
        == c0[r].len() by {
        assert(view2(col)[r] == col@[r]@);
    }
}

/// Intra-cell resolution applied to every cell of the column.
pub open spec fn column_intra_spec(c: Seq<Seq<Particle>>, dt: int, pres: int) -> Seq<
    Seq<Particle>,
> {
    c.map_values(|cell: Seq<Particle>| resolve_set_spec(cell, dt, pres))
}

/// How many disjoint adjacent row pairs fit from `start` on.
pub open spec fn pairs_count(len: int, start: int) -> int {
    if len <= start {
        0
    } else {
        (len - start) / 2
    }
}

/// The first `k` adjacent row pairs from `start` on, resolved in order:
/// rows `(start, start+1)`, `(start+2, start+3)`, and so on.
pub open spec fn column_pairs_upto(
    c: Seq<Seq<Particle>>,
    start: int,
    k: int,
    dt: int,
    pres: int,
) -> Seq<Seq<Particle>>
    decreases k,
{
    if k <= 0 {
        c
    } else {
        let prev = column_pairs_upto(c, start, k - 1, dt, pres);
        let r = start + 2 * (k - 1);
        let (x, y) = resolve_set_to_set_spec(prev[r], prev[r + 1], dt, pres);
        prev.update(r, x).update(r + 1, y)
    }
}

/// All disjoint adjacent row pairs from `start` on, resolved in order.
pub open spec fn column_pairs_spec(c: Seq<Seq<Particle>>, start: int, dt: int, pres: int) -> Seq<
    Seq<Particle>,
> {
    column_pairs_upto(c, start, pairs_count(c.len() as int, start), dt, pres)
}

/// The whole intra-column pass: every cell against itself, then adjacent
/// row pairs at offset 0, then at offset 1.
pub open spec fn column_collide_spec(c: Seq<Seq<Particle>>, dt: int, pres: int) -> Seq<
    Seq<Particle>,
> {
    column_pairs_spec(column_pairs_spec(column_intra_spec(c, dt, pres), 0, dt, pres), 1, dt, pres)
}

/// The first `k` aligned cell pairs of two columns, rows shifted by
/// `loff` on the left and `roff` on the right, resolved in order.
pub open spec fn cross_skew_upto(
    l: Seq<Seq<Particle>>,
    r: Seq<Seq<Particle>>,
    loff: int,
    roff: int,
    k: int,
    dt: int,
    pres: int,
) -> (Seq<Seq<Particle>>, Seq<Seq<Particle>>)
    decreases k,
{
    if k <= 0 {
        (l, r)
    } else {
        let (pl, pright) = cross_skew_upto(l, r, loff, roff, k - 1, dt, pres);
        let i = k - 1;
        let (x, y) = resolve_set_to_set_spec(pl[loff + i], pright[roff + i], dt, pres);
        (pl.update(loff + i, x), pright.update(roff + i, y))
    }
}

/// The inter-column pass: three skewed row alignments (shift -1, 0, +1),
/// covering every diagonal and horizontal neighbor across the boundary.
pub open spec fn column_cross_spec(
    l: Seq<Seq<Particle>>,
    r: Seq<Seq<Particle>>,
    dt: int,
    pres: int,
) -> (Seq<Seq<Particle>>, Seq<Seq<Particle>>) {
    let k1 = imax(imin(l.len() - 1, r.len() as int), 0);
    let (l1, r1) = cross_skew_upto(l, r, 1, 0, k1, dt, pres);
    let k2 = imin(l.len() as int, r.len() as int);
    let (l2, r2) = cross_skew_upto(l1, r1, 0, 0, k2, dt, pres);
    let k3 = imax(imin(l.len() as int, r.len() - 1), 0);
    cross_skew_upto(l2, r2, 0, 1, k3, dt, pres)
}

/// One particle integrated and contained.
pub open spec fn integrate_particle_spec<A: Accelerator>(
    fld: A,
    bb: BoundingBox,
    dt: int,
    p: Particle,
) -> Particle {
    contain_spec(bb, verlet_spec(p, dt, fld.accel_spec(p)))
}

/// A whole cell integrated and contained, particle by particle.
pub open spec fn integrate_cell_spec<A: Accelerator>(
    fld: A,
    bb: BoundingBox,
    dt: int,
    cell: Seq<Particle>,
) -> Seq<Particle> {
    cell.map_values(|p: Particle| integrate_particle_spec(fld, bb, dt, p))
}

/// A whole column integrated and contained.
pub open spec fn integrate_column_spec<A: Accelerator>(
    fld: A,
    bb: BoundingBox,
    dt: int,
    c: Seq<Seq<Particle>>,
) -> Seq<Seq<Particle>> {
    c.map_values(|cell: Seq<Particle>| integrate_cell_spec(fld, bb, dt, cell))
}

/// Verlet-integrate and contain every particle of the column.
pub fn integrate_column<A: Accelerator>(
    fld: &A,
    bb: &BoundingBox,
    dt: i64,
    col: &mut Vec<Vec<Particle>>,
)
    requires
        bb.wf(),
        all_wf2(view2(*old(col))),
        1 <= dt <= DT_MAX,
    ensures
        view2(*final(col)) == integrate_column_spec(*fld, *bb, dt as int, view2(*old(col))),
        all_wf2(view2(*final(col))),
        same_shape2(view2(*final(col)), view2(*old(col))),
{
    let ghost c0 = view2(*col);
    let n = col.len();
    proof {
        lemma_wf_pointwise(*col);
    }
    for r in 0..n
        invariant
            col@.len() == n == c0.len(),
            forall|q: int|
                0 <= q < r ==> #[trigger] col@[q]@ == integrate_cell_spec(
                    *fld,
                    *bb,
                    dt as int,
                    c0[q],
                ),
            forall|q: int| r <= q < n ==> #[trigger] col@[q]@ == c0[q],
            forall|q: int| 0 <= q < n ==> all_wf(#[trigger] col@[q]@),
            forall|q: int| 0 <= q < n ==> #[trigger] col@[q]@.len() == c0[q].len(),
            bb.wf(),
            1 <= dt <= DT_MAX,
    {
        let mut cell: Vec<Particle> = Vec::new();
        core::mem::swap(&mut cell, &mut col[r]);
        let ghost cell0 = cell@;
        let m = cell.len();
        for k in 0..m
            invariant
                cell@.len() == m == cell0.len(),
                forall|q: int|
                    0 <= q < k ==> #[trigger] cell@[q] == integrate_particle_spec(
                        *fld,
                        *bb,
                        dt as int,
                        cell0[q],
                    ),
                forall|q: int| k <= q < m ==> #[trigger] cell@[q] == cell0[q],
                all_wf(cell0),
                forall|q: int| 0 <= q < m ==> (#[trigger] cell@[q]).wf(),
                bb.wf(),
                1 <= dt <= DT_MAX,
        {
            let mut p = cell[k];
            let a = fld.accel(&p);
            p.update_verlet(dt, a);
            bb.update_bounds(&mut p);
            cell[k] = p;
        }
        proof {
            assert(cell@ =~= integrate_cell_spec(*fld, *bb, dt as int, c0[r as int]));
        }
        core::mem::swap(&mut cell, &mut col[r]);
    }
    proof {
        assert(view2(*col) =~= integrate_column_spec(*fld, *bb, dt as int, c0));
        lemma_wf_pack(*col);
        lemma_shape_pack(*col, c0);
    }
}

/// Resolve collisions within the column: inside every cell, then between
/// adjacent row pairs in two interleaved passes, so that no row belongs to
/// two overlapping pairs within one pass.
pub fn collide_column(dt: i64, pressure: i64, col: &mut Vec<Vec<Particle>>)
    requires
        all_wf2(view2(*old(col))),
        1 <= dt <= DT_MAX,
        0 <= pressure <= FP_ONE,
    ensures
        view2(*final(col)) == column_collide_spec(view2(*old(col)), dt as int, pressure as int),
        all_wf2(view2(*final(col))),
        same_shape2(view2(*final(col)), view2(*old(col))),
{
    let ghost c0 = view2(*col);
    let n = col.len();
    proof {
        lemma_wf_pointwise(*col);
    }
    for r in 0..n
        invariant
            col@.len() == n == c0.len(),
            forall|q: int|
                0 <= q < r ==> #[trigger] col@[q]@ == resolve_set_spec(
                    c0[q],
                    dt as int,
                    pressure as int,
                ),
            forall|q: int| r <= q < n ==> #[trigger] col@[q]@ == c0[q],
            forall|q: int| 0 <= q < n ==> all_wf(#[trigger] col@[q]@),
            forall|q: int| 0 <= q < n ==> #[trigger] col@[q]@.len() == c0[q].len(),
            1 <= dt <= DT_MAX,
            0 <= pressure <= FP_ONE,
    {
        let mut cell: Vec<Particle> = Vec::new();
        core::mem::swap(&mut cell, &mut col[r]);
        resolve_set(dt, pressure, &mut cell);
        core::mem::swap(&mut cell, &mut col[r]);
    }
    proof {
        assert(view2(*col) =~= column_intra_spec(c0, dt as int, pressure as int));
        lemma_wf_pack(*col);
        lemma_shape_pack(*col, c0);
    }
    collide_column_pairs(dt, pressure, col, 0);
    collide_column_pairs(dt, pressure, col, 1);
}

/// Resolve the disjoint adjacent row pairs starting at `start`.
fn collide_column_pairs(dt: i64, pressure: i64, col: &mut Vec<Vec<Particle>>, start: usize)
    requires
        all_wf2(view2(*old(col))),
        1 <= dt <= DT_MAX,
        0 <= pressure <= FP_ONE,
        start <= 1,
    ensures
        view2(*final(col)) == column_pairs_spec(
            view2(*old(col)),
            start as int,
            dt as int,
            pressure as int,
        ),
        all_wf2(view2(*final(col))),
        same_shape2(view2(*final(col)), view2(*old(col))),
{
    let ghost c0 = view2(*col);
    let n = col.len();
    proof {
        lemma_wf_pointwise(*col);
    }
    let mut r = start;
    let ghost mut k: int = 0;
    while r < n && r + 1 < n
        invariant
            col@.len() == n == c0.len(),
            r == start + 2 * k,
            0 <= k,
            n > start ==> r <= n,
            n <= start ==> k == 0,
            view2(*col) == column_pairs_upto(c0, start as int, k, dt as int, pressure as int),
            forall|q: int| 0 <= q < n ==> all_wf(#[trigger] col@[q]@),
            forall|q: int| 0 <= q < n ==> #[trigger] col@[q]@.len() == c0[q].len(),
            1 <= dt <= DT_MAX,
            0 <= pressure <= FP_ONE,
            start <= 1,
        decreases n - r,
    {
        let mut a_cell: Vec<Particle> = Vec::new();
        let mut b_cell: Vec<Particle> = Vec::new();
        core::mem::swap(&mut a_cell, &mut col[r]);
        core::mem::swap(&mut b_cell, &mut col[r + 1]);
        resolve_set_to_set(dt, pressure, &mut a_cell, &mut b_cell);
        core::mem::swap(&mut a_cell, &mut col[r]);
        core::mem::swap(&mut b_cell, &mut col[r + 1]);
        proof {
            assert(view2(*col) =~= column_pairs_upto(
                c0,
                start as int,
                k + 1,
                dt as int,
                pressure as int,
            ));
            k = k + 1;
        }
        r = r + 2;
    }
    proof {
        if n > start {
            assert((n - start) / 2 == k) by (nonlinear_arith)
                requires
                    n - start == 2 * k + (n - start - 2 * k),
                    0 <= n - start - 2 * k < 2,
            ;
        }
        assert(k == pairs_count(n as int, start as int));
        lemma_wf_pack(*col);
        lemma_shape_pack(*col, c0);
    }
}

/// Resolve collisions between two adjacent columns: three skewed row
/// alignments cover the horizontal and both diagonal neighbor directions.
pub fn collide_column_with_column(
    dt: i64,
    pressure: i64,
    left: &mut Vec<Vec<Particle>>,
    right: &mut Vec<Vec<Particle>>,
)
    requires
        all_wf2(view2(*old(left))),
        all_wf2(view2(*old(right))),
        1 <= dt <= DT_MAX,
        0 <= pressure <= FP_ONE,
    ensures
        (view2(*final(left)), view2(*final(right))) == column_cross_spec(
            view2(*old(left)),
            view2(*old(right)),
            dt as int,
            pressure as int,
        ),
        all_wf2(view2(*final(left))),
        all_wf2(view2(*final(right))),
        same_shape2(view2(*final(left)), view2(*old(left))),
        same_shape2(view2(*final(right)), view2(*old(right))),
{
    let ll = left.len();
    let rl = right.len();
    let k1 = if ll == 0 {
        0
    } else if ll - 1 <= rl {
        ll - 1
    } else {
        rl
    };
    cross_skew(dt, pressure, left, right, 1, 0, k1);
    let k2 = if ll <= rl {
        ll
    } else {
        rl
    };
    cross_skew(dt, pressure, left, right, 0, 0, k2);
    let k3 = if rl == 0 {
        0
    } else if ll <= rl - 1 {
        ll
    } else {
        rl - 1
    };
    cross_skew(dt, pressure, left, right, 0, 1, k3);
}

/// Resolve `k` aligned cell pairs of two columns, with the given row
/// offsets.
fn cross_skew(
    dt: i64,
    pressure: i64,
    left: &mut Vec<Vec<Particle>>,
    right: &mut Vec<Vec<Particle>>,
    loff: usize,
    roff: usize,
    k: usize,
)
    requires
        all_wf2(view2(*old(left))),
        all_wf2(view2(*old(right))),
        1 <= dt <= DT_MAX,
        0 <= pressure <= FP_ONE,
        k > 0 ==> loff + k <= old(left)@.len(),
        k > 0 ==> roff + k <= old(right)@.len(),
    ensures
        (view2(*final(left)), view2(*final(right))) == cross_skew_upto(
            view2(*old(left)),
            view2(*old(right)),
            loff as int,
            roff as int,
            k as int,
            dt as int,
            pressure as int,
        ),
        all_wf2(view2(*final(left))),
        all_wf2(view2(*final(right))),
        same_shape2(view2(*final(left)), view2(*old(left))),
        same_shape2(view2(*final(right)), view2(*old(right))),
{
    let ghost l0 = view2(*left);
    let ghost r0 = view2(*right);
    let llen = left.len();
    let rlen = right.len();
    proof {
        lemma_wf_pointwise(*left);
        lemma_wf_pointwise(*right);
    }
    for i in 0..k
        invariant
            left@.len() == llen == l0.len(),
            right@.len() == rlen == r0.len(),
            k > 0 ==> loff + k <= llen,
            k > 0 ==> roff + k <= rlen,
            (view2(*left), view2(*right)) == cross_skew_upto(
                l0,
                r0,
                loff as int,
                roff as int,
                i as int,
                dt as int,
                pressure as int,
            ),
            forall|q: int| 0 <= q < llen ==> all_wf(#[trigger] left@[q]@),
            forall|q: int| 0 <= q < rlen ==> all_wf(#[trigger] right@[q]@),
            forall|q: int| 0 <= q < llen ==> #[trigger] left@[q]@.len() == l0[q].len(),
            forall|q: int| 0 <= q < rlen ==> #[trigger] right@[q]@.len() == r0[q].len(),
            1 <= dt <= DT_MAX,
            0 <= pressure <= FP_ONE,
    {
        let li = loff + i;
        let ri = roff + i;
        let mut a_cell: Vec<Particle> = Vec::new();
        let mut b_cell: Vec<Particle> = Vec::new();
        core::mem::swap(&mut a_cell, &mut left[li]);
        core::mem::swap(&mut b_cell, &mut right[ri]);
        resolve_set_to_set(dt, pressure, &mut a_cell, &mut b_cell);
        core::mem::swap(&mut a_cell, &mut left[li]);
        core::mem::swap(&mut b_cell, &mut right[ri]);
        proof {
            assert((view2(*left), view2(*right)) =~= cross_skew_upto(
                l0,
                r0,
                loff as int,
                roff as int,
                i + 1,
                dt as int,
                pressure as int,
            ));
        }
    }
    proof {
        lemma_wf_pack(*left);
        lemma_wf_pack(*right);
        lemma_shape_pack(*left, l0);
        lemma_shape_pack(*right, r0);
    }
}

} // verus!
