//! The partition grid: a fixed-shape 2D array of cell buckets, and the
//! migration step that moves every particle to the cell its position maps
//! to.

use vstd::prelude::*;
use vstd::multiset::Multiset;
use crate::bounds::{BoundingBox, cell_of};
use crate::column::view2;
use crate::particle::Particle;
use crate::sets::all_wf;

verus! {

broadcast use vstd::seq_lib::group_to_multiset_ensures, vstd::multiset::group_multiset_axioms, vstd::multiset::group_multiset_properties;

/// The mathematical value of a grid: a sequence of columns of cells.
pub open spec fn view3(g: Vec<Vec<Vec<Particle>>>) -> Seq<Seq<Seq<Particle>>> {
    g@.map_values(|col: Vec<Vec<Particle>>| view2(col))
}

/// The grid has `sx` columns of `sy` cells each, all particles well-formed.
pub open spec fn grid_wf(g: Seq<Seq<Seq<Particle>>>, sx: int, sy: int) -> bool {
    &&& g.len() == sx
    &&& forall|c: int| 0 <= c < sx ==> (#[trigger] g[c]).len() == sy
    &&& forall|c: int, r: int| 0 <= c < sx && 0 <= r < sy ==> all_wf(#[trigger] g[c][r])
}

/// Every particle of the cell belongs to grid cell `(c, r)`.
pub open spec fn cell_ok(
    bb: BoundingBox,
    sx: int,
    sy: int,
    c: int,
    r: int,
    s: Seq<Particle>,
) -> bool {
    forall|k: int| 0 <= k < s.len() ==> #[trigger] cell_of(bb, sx, sy, s[k].pos) == (c, r)
}

/// Every particle of every cell sits in the cell its position maps to.
pub open spec fn placed_ok(bb: BoundingBox, sx: int, sy: int, g: Seq<Seq<Seq<Particle>>>) -> bool {
    forall|c: int, r: int|
        0 <= c < sx && 0 <= r < sy ==> cell_ok(bb, sx, sy, c, r, #[trigger] g[c][r])
}

/// The bag of particles one column holds.
pub open spec fn col_mset(c: Seq<Seq<Particle>>) -> Multiset<Particle>
    decreases c.len(),
{
    if c.len() == 0 {
        Multiset::empty()
    } else {
        col_mset(c.drop_last()).add(c.last().to_multiset())
    }
}

/// The bag of particles the whole grid holds.
pub open spec fn grid_mset(g: Seq<Seq<Seq<Particle>>>) -> Multiset<Particle>
    decreases g.len(),
{
    if g.len() == 0 {
        Multiset::empty()
    } else {
        grid_mset(g.drop_last()).add(col_mset(g.last()))
    }
}

/// Replacing one cell exchanges exactly its contents in the column's bag.
pub proof fn lemma_col_mset_update(c: Seq<Seq<Particle>>, r: int, s: Seq<Particle>)
    requires
        0 <= r < c.len(),
    ensures
        col_mset(c.update(r, s)).add(c[r].to_multiset()) == col_mset(c).add(s.to_multiset()),
    decreases c.len(),
{
    let cu = c.update(r, s);
    if r == c.len() - 1 {
        assert(cu.drop_last() =~= c.drop_last());
        assert(cu.last() == s);
        assert(col_mset(cu).add(c[r].to_multiset()) =~= col_mset(c).add(s.to_multiset()));
    } else {
        assert(cu.drop_last() =~= c.drop_last().update(r, s));
        assert(cu.last() == c.last());
        lemma_col_mset_update(c.drop_last(), r, s);
        assert(c.drop_last()[r] == c[r]);
        assert(col_mset(cu) == col_mset(c.drop_last().update(r, s)).add(c.last().to_multiset()));
        assert(col_mset(c) == col_mset(c.drop_last()).add(c.last().to_multiset()));
        assert forall|t: Particle|
            col_mset(cu).add(c[r].to_multiset()).count(t) == col_mset(c).add(
                s.to_multiset(),
            ).count(t) by {
            assert(col_mset(cu).count(t) == col_mset(c.drop_last().update(r, s)).count(t)
                + c.last().to_multiset().count(t));
            assert(col_mset(c).count(t) == col_mset(c.drop_last()).count(t)
                + c.last().to_multiset().count(t));
            assert(col_mset(c.drop_last().update(r, s)).add(c.drop_last()[r].to_multiset()).count(
                t,
            ) == col_mset(c.drop_last()).add(s.to_multiset()).count(t));
        }
        assert(col_mset(cu).add(c[r].to_multiset()) =~= col_mset(c).add(s.to_multiset()));
    }
}

/// Replacing one column exchanges exactly its contents in the grid's bag.
pub proof fn lemma_grid_mset_update(g: Seq<Seq<Seq<Particle>>>, c: int, col: Seq<Seq<Particle>>)
    requires
        0 <= c < g.len(),
    ensures
        grid_mset(g.update(c, col)).add(col_mset(g[c])) == grid_mset(g).add(col_mset(col)),
    decreases g.len(),
{
    let gu = g.update(c, col);
    if c == g.len() - 1 {
        assert(gu.drop_last() =~= g.drop_last());
        assert(gu.last() == col);
        assert(grid_mset(gu).add(col_mset(g[c])) =~= grid_mset(g).add(col_mset(col)));
    } else {
        assert(gu.drop_last() =~= g.drop_last().update(c, col));
        assert(gu.last() == g.last());
        lemma_grid_mset_update(g.drop_last(), c, col);
        assert(g.drop_last()[c] == g[c]);
        assert(grid_mset(gu) == grid_mset(g.drop_last().update(c, col)).add(col_mset(g.last())));
        assert(grid_mset(g) == grid_mset(g.drop_last()).add(col_mset(g.last())));
        assert forall|t: Particle|
            grid_mset(gu).add(col_mset(g[c])).count(t) == grid_mset(g).add(
                col_mset(col),
            ).count(t) by {
            assert(grid_mset(gu).count(t) == grid_mset(g.drop_last().update(c, col)).count(t)
                + col_mset(g.last()).count(t));
            assert(grid_mset(g).count(t) == grid_mset(g.drop_last()).count(t)
                + col_mset(g.last()).count(t));
            assert(grid_mset(g.drop_last().update(c, col)).add(col_mset(g.drop_last()[c])).count(
                t,
            ) == grid_mset(g.drop_last()).add(col_mset(col)).count(t));
        }
        assert(grid_mset(gu).add(col_mset(g[c])) =~= grid_mset(g).add(col_mset(col)));
    }
}

/// Replacing one cell exchanges exactly its contents in the grid's bag.
pub proof fn lemma_grid_mset_cell_update(
    g: Seq<Seq<Seq<Particle>>>,
    c: int,
    r: int,
    s: Seq<Particle>,
)
    requires
        0 <= c < g.len(),
        0 <= r < g[c].len(),
    ensures
        grid_mset(g.update(c, g[c].update(r, s))).add(g[c][r].to_multiset()) == grid_mset(g).add(
            s.to_multiset(),
        ),
{
    lemma_grid_mset_update(g, c, g[c].update(r, s));
    lemma_col_mset_update(g[c], r, s);
    assert forall|t: Particle|
        grid_mset(g.update(c, g[c].update(r, s))).add(g[c][r].to_multiset()).count(t)
            == grid_mset(g).add(s.to_multiset()).count(t) by {
        assert(grid_mset(g.update(c, g[c].update(r, s))).add(col_mset(g[c])).count(t)
            == grid_mset(g).add(col_mset(g[c].update(r, s))).count(t));
        assert(col_mset(g[c].update(r, s)).add(g[c][r].to_multiset()).count(t)
            == col_mset(g[c]).add(s.to_multiset()).count(t));
    }
    assert(grid_mset(g.update(c, g[c].update(r, s))).add(g[c][r].to_multiset()) =~= grid_mset(
        g,
    ).add(s.to_multiset()));
}

/// Pushing the same particle on matching sides keeps two bags balanced.
proof fn lemma_push_mset_shift(a: Seq<Particle>, b: Seq<Particle>, c: Seq<Particle>, d: Seq<Particle>, p: Particle)
    requires
        a.to_multiset().add(b.to_multiset()) == c.to_multiset().add(d.to_multiset()),
    ensures
        a.push(p).to_multiset().add(b.to_multiset()) == c.push(p).to_multiset().add(d.to_multiset()),
{
    assert forall|t: Particle|
        a.push(p).to_multiset().add(b.to_multiset()).count(t) == c.push(p).to_multiset().add(
            d.to_multiset(),
        ).count(t) by {
        assert(a.to_multiset().add(b.to_multiset()).count(t) == c.to_multiset().add(
            d.to_multiset(),
        ).count(t));
        assert(a.push(p).to_multiset().count(t) == a.to_multiset().insert(p).count(t));
        assert(c.push(p).to_multiset().count(t) == c.to_multiset().insert(p).count(t));
        if t == p {
            assert(a.to_multiset().insert(p).count(t) == a.to_multiset().count(t) + 1);
            assert(c.to_multiset().insert(p).count(t) == c.to_multiset().count(t) + 1);
        } else {
            assert(a.to_multiset().insert(p).count(t) == a.to_multiset().count(t));
            assert(c.to_multiset().insert(p).count(t) == c.to_multiset().count(t));
        }
        assert(a.push(p).to_multiset().add(b.to_multiset()).count(t) == a.push(
            p,
        ).to_multiset().count(t) + b.to_multiset().count(t));
        assert(c.push(p).to_multiset().add(d.to_multiset()).count(t) == c.push(
            p,
        ).to_multiset().count(t) + d.to_multiset().count(t));
        assert(a.to_multiset().add(b.to_multiset()).count(t) == a.to_multiset().count(t)
            + b.to_multiset().count(t));
        assert(c.to_multiset().add(d.to_multiset()).count(t) == c.to_multiset().count(t)
            + d.to_multiset().count(t));
    }
    assert(a.push(p).to_multiset().add(b.to_multiset()) =~= c.push(p).to_multiset().add(
        d.to_multiset(),
    ));
}

/// The same, with the push landing on the second bag of the left side.
proof fn lemma_push_mset_shift_right(a: Seq<Particle>, b: Seq<Particle>, c: Seq<Particle>, d: Seq<Particle>, p: Particle)
    requires
        a.to_multiset().add(b.to_multiset()) == c.to_multiset().add(d.to_multiset()),
    ensures
        a.to_multiset().add(b.push(p).to_multiset()) == c.push(p).to_multiset().add(d.to_multiset()),
{
    assert forall|t: Particle|
        a.to_multiset().add(b.push(p).to_multiset()).count(t) == c.push(p).to_multiset().add(
            d.to_multiset(),
        ).count(t) by {
        assert(a.to_multiset().add(b.to_multiset()).count(t) == c.to_multiset().add(
            d.to_multiset(),
        ).count(t));
        assert(b.push(p).to_multiset().count(t) == b.to_multiset().insert(p).count(t));
        assert(c.push(p).to_multiset().count(t) == c.to_multiset().insert(p).count(t));
        if t == p {
            assert(b.to_multiset().insert(p).count(t) == b.to_multiset().count(t) + 1);
            assert(c.to_multiset().insert(p).count(t) == c.to_multiset().count(t) + 1);
        } else {
            assert(b.to_multiset().insert(p).count(t) == b.to_multiset().count(t));
            assert(c.to_multiset().insert(p).count(t) == c.to_multiset().count(t));
        }
        assert(a.to_multiset().add(b.push(p).to_multiset()).count(t) == a.to_multiset().count(t)
            + b.push(p).to_multiset().count(t));
        assert(c.push(p).to_multiset().add(d.to_multiset()).count(t) == c.push(
            p,
        ).to_multiset().count(t) + d.to_multiset().count(t));
        assert(a.to_multiset().add(b.to_multiset()).count(t) == a.to_multiset().count(t)
            + b.to_multiset().count(t));
        assert(c.to_multiset().add(d.to_multiset()).count(t) == c.to_multiset().count(t)
            + d.to_multiset().count(t));
    }
    assert(a.to_multiset().add(b.push(p).to_multiset()) =~= c.push(p).to_multiset().add(
        d.to_multiset(),
    ));
}

/// Bridge from the vector level to the grid view after one cell changed.
proof fn lemma_view3_cell_update(
    gnew: Vec<Vec<Vec<Particle>>>,
    gold_v: Seq<Seq<Seq<Particle>>>,
    cx: int,
    cy: int,
    cellv: Seq<Particle>,
)
    requires
        gnew@.len() == gold_v.len(),
        0 <= cx < gold_v.len(),
        0 <= cy < gold_v[cx].len(),
        forall|c: int| 0 <= c < gold_v.len() && c != cx ==> view2(#[trigger] gnew@[c]) == gold_v[c],
        view2(gnew@[cx]).len() == gold_v[cx].len(),
        forall|r: int|
            0 <= r < gold_v[cx].len() && r != cy ==> #[trigger] view2(gnew@[cx])[r]
                == gold_v[cx][r],
        view2(gnew@[cx])[cy] == cellv,
    ensures
        view3(gnew) == gold_v.update(cx, gold_v[cx].update(cy, cellv)),
{
    let target = gold_v.update(cx, gold_v[cx].update(cy, cellv));
    assert forall|c: int| 0 <= c < gold_v.len() implies #[trigger] view3(gnew)[c] == target[c] by {
        assert(view3(gnew)[c] == view2(gnew@[c]));
        if c == cx {
            assert(view2(gnew@[cx]) =~= gold_v[cx].update(cy, cellv));
        }
    }
    assert(view3(gnew) =~= target);
}

/// Re-establish grid well-formedness after one cell was replaced.
proof fn lemma_grid_wf_after_cell(
    gold_v: Seq<Seq<Seq<Particle>>>,
    sx: int,
    sy: int,
    cx: int,
    cy: int,
    cellv: Seq<Particle>,
)
    requires
        grid_wf(gold_v, sx, sy),
        0 <= cx < sx,
        0 <= cy < sy,
        all_wf(cellv),
    ensures
        grid_wf(gold_v.update(cx, gold_v[cx].update(cy, cellv)), sx, sy),
{
    let gnew = gold_v.update(cx, gold_v[cx].update(cy, cellv));
    assert forall|c: int| 0 <= c < sx implies (#[trigger] gnew[c]).len() == sy by {
        assert(gold_v[c].len() == sy);
    }
    assert forall|c: int, r: int| 0 <= c < sx && 0 <= r < sy implies all_wf(
        #[trigger] gnew[c][r],
    ) by {
        assert(all_wf(gold_v[c][r]));
    }
}

/// Scan one cell: keep the particles that belong to it, hand every other
/// particle to `moved` for reinsertion.
#[verifier::rlimit(100)]
fn migrate_cell(
    bb: &BoundingBox,
    sx: usize,
    sy: usize,
    cx: usize,
    cy: usize,
    g: &mut Vec<Vec<Vec<Particle>>>,
    moved: &mut Vec<Particle>,
)
    requires
        bb.wf(),
        bb.nondegenerate(),
        1 <= sx,
        1 <= sy,
        cx < sx,
        cy < sy,
        grid_wf(view3(*old(g)), sx as int, sy as int),
        all_wf(old(moved)@),
    ensures
        grid_wf(view3(*final(g)), sx as int, sy as int),
        all_wf(final(moved)@),
        view3(*final(g)) == view3(*old(g)).update(
            cx as int,
            view3(*old(g))[cx as int].update(cy as int, view3(*final(g))[cx as int][cy as int]),
        ),
        cell_ok(*bb, sx as int, sy as int, cx as int, cy as int, view3(*final(g))[cx as int][cy as int]),
        grid_mset(view3(*final(g))).add(final(moved)@.to_multiset()) == grid_mset(
            view3(*old(g)),
        ).add(old(moved)@.to_multiset()),
        cell_ok(*bb, sx as int, sy as int, cx as int, cy as int, view3(*old(g))[cx as int][cy as int])
            ==> view3(*final(g)) == view3(*old(g)) && final(moved)@ == old(moved)@,
{
    let ghost g0v = view3(*g);
    let ghost sxi = sx as int;
    let ghost syi = sy as int;
    let ghost cxi = cx as int;
    let ghost cyi = cy as int;
    let mut tcol: Vec<Vec<Particle>> = Vec::new();
    core::mem::swap(&mut tcol, &mut g[cx]);
    let ghost colvec0 = tcol@;
    proof {
        assert(g0v[cxi] == view2(old(g)@[cxi]));
        assert(g0v[cxi].len() == syi);
        assert(view2(old(g)@[cxi]).len() == old(g)@[cxi]@.len());
    }
    let mut tcell: Vec<Particle> = Vec::new();
    core::mem::swap(&mut tcell, &mut tcol[cy]);
    let ghost s_cur = tcell@;
    proof {
        assert(g0v[cxi] == view2(old(g)@[cxi]));
        assert(view2(old(g)@[cxi])[cyi] == old(g)@[cxi]@[cyi]@);
        assert(s_cur == g0v[cxi][cyi]);
        assert(all_wf(s_cur));
    }
    let ghost mv0 = moved@;
    let mut keep: Vec<Particle> = Vec::new();
    let m = tcell.len();
    for k in 0..m
        invariant
            tcell@ == s_cur,
            m == s_cur.len(),
            all_wf(s_cur),
            keep@.to_multiset().add(moved@.to_multiset()) == s_cur.take(k as int).to_multiset().add(
                mv0.to_multiset(),
            ),
            forall|j: int|
                0 <= j < keep@.len() ==> cell_of(*bb, sxi, syi, (#[trigger] keep@[j]).pos) == (
                    cxi,
                    cyi,
                ),
            all_wf(keep@),
            all_wf(moved@),
            cell_ok(*bb, sxi, syi, cxi, cyi, s_cur) ==> keep@ == s_cur.take(k as int) && moved@
                == mv0,
            bb.wf(),
            bb.nondegenerate(),
            1 <= sx,
            1 <= sy,
            cx < sx,
            cy < sy,
            sxi == sx as int,
            syi == sy as int,
            cxi == cx as int,
            cyi == cy as int,
    {
        let p = tcell[k];
        let (x, y) = bb.get_partition(&p, (sx, sy));
        proof {
            assert(s_cur.take(k as int).push(s_cur[k as int]) =~= s_cur.take(k as int + 1));
        }
        if x == cx && y == cy {
            let ghost kpre = keep@;
            keep.push(p);
            proof {
                lemma_push_mset_shift(kpre, moved@, s_cur.take(k as int), mv0, p);
                assert(keep@ == kpre.push(p));
                assert(keep@.to_multiset().add(moved@.to_multiset()) == s_cur.take(
                    k as int + 1,
                ).to_multiset().add(mv0.to_multiset()));
            }
        } else {
            let ghost mpre = moved@;
            moved.push(p);
            proof {
                lemma_push_mset_shift_right(keep@, mpre, s_cur.take(k as int), mv0, p);
                assert(moved@ == mpre.push(p));
                assert(keep@.to_multiset().add(moved@.to_multiset()) == s_cur.take(
                    k as int + 1,
                ).to_multiset().add(mv0.to_multiset()));
                if cell_ok(*bb, sxi, syi, cxi, cyi, s_cur) {
                    assert(p == s_cur[k as int]);
                    assert(cell_of(*bb, sxi, syi, s_cur[k as int].pos) == (cxi, cyi));
                    assert(false);
                }
            }
        }
    }
    proof {
        assert(s_cur.take(m as int) =~= s_cur);
    }
    let ghost kv = keep@;
    core::mem::swap(&mut keep, &mut tcol[cy]);
    core::mem::swap(&mut tcol, &mut g[cx]);
    proof {
        assert forall|c: int| 0 <= c < g0v.len() && c != cxi implies view2(#[trigger] g@[c])
            == g0v[c] by {
            assert(g@[c] == old(g)@[c]);
            assert(g0v[c] == view2(old(g)@[c]));
        }
        assert(view2(g@[cxi]).len() == view2(old(g)@[cxi]).update(cyi, kv).len());
        assert forall|r: int| 0 <= r < view2(g@[cxi]).len() implies #[trigger] view2(g@[cxi])[r]
            == view2(old(g)@[cxi]).update(cyi, kv)[r] by {
            assert(view2(g@[cxi])[r] == g@[cxi]@[r]@);
            assert(view2(old(g)@[cxi])[r] == old(g)@[cxi]@[r]@);
        }
        assert(view2(g@[cxi]) =~= view2(old(g)@[cxi]).update(cyi, kv));
        lemma_view3_cell_update(*g, g0v, cxi, cyi, kv);
        lemma_grid_wf_after_cell(g0v, sxi, syi, cxi, cyi, kv);
        lemma_grid_mset_cell_update(g0v, cxi, cyi, kv);
        assert forall|t: Particle|
            grid_mset(view3(*g)).add(moved@.to_multiset()).count(t) == grid_mset(g0v).add(
                mv0.to_multiset(),
            ).count(t) by {
            assert(grid_mset(view3(*g)).add(g0v[cxi][cyi].to_multiset()).count(t) == grid_mset(
                g0v,
            ).add(kv.to_multiset()).count(t));
            assert(kv.to_multiset().add(moved@.to_multiset()).count(t) == s_cur.to_multiset().add(
                mv0.to_multiset(),
            ).count(t));
        }
        assert(grid_mset(view3(*g)).add(moved@.to_multiset()) =~= grid_mset(g0v).add(
            mv0.to_multiset(),
        ));
        if cell_ok(*bb, sxi, syi, cxi, cyi, g0v[cxi][cyi]) {
            assert(kv == s_cur);
            assert(view3(*g) =~~= g0v);
        }
    }
}

/// Push one particle into the cell its position maps to.
pub(crate) fn insert_particle(
    bb: &BoundingBox,
    sx: usize,
    sy: usize,
    g: &mut Vec<Vec<Vec<Particle>>>,
    p: Particle,
)
    requires
        bb.wf(),
        bb.nondegenerate(),
        1 <= sx,
        1 <= sy,
        grid_wf(view3(*old(g)), sx as int, sy as int),
        p.wf(),
    ensures
        grid_wf(view3(*final(g)), sx as int, sy as int),
        ({
            let (tx, ty) = cell_of(*bb, sx as int, sy as int, p.pos);
            view3(*final(g)) == view3(*old(g)).update(
                tx,
                view3(*old(g))[tx].update(ty, view3(*old(g))[tx][ty].push(p)),
            )
        }),
        grid_mset(view3(*final(g))) == grid_mset(view3(*old(g))).insert(p),
{
    let ghost g0v = view3(*g);
    let ghost sxi = sx as int;
    let ghost syi = sy as int;
    let (tx, ty) = bb.get_partition(&p, (sx, sy));
    let ghost txi = tx as int;
    let ghost tyi = ty as int;
    let mut tcol: Vec<Vec<Particle>> = Vec::new();
    core::mem::swap(&mut tcol, &mut g[tx]);
    proof {
        assert(g0v[txi] == view2(old(g)@[txi]));
        assert(g0v[txi].len() == syi);
        assert(view2(old(g)@[txi]).len() == old(g)@[txi]@.len());
    }
    let mut tcell: Vec<Particle> = Vec::new();
    core::mem::swap(&mut tcell, &mut tcol[ty]);
    let ghost s_cur = tcell@;
    proof {
        assert(view2(old(g)@[txi])[tyi] == old(g)@[txi]@[tyi]@);
        assert(s_cur == g0v[txi][tyi]);
    }
    tcell.push(p);
    core::mem::swap(&mut tcell, &mut tcol[ty]);
    core::mem::swap(&mut tcol, &mut g[tx]);
    proof {
        let kv = s_cur.push(p);
        assert forall|c: int| 0 <= c < g0v.len() && c != txi implies view2(#[trigger] g@[c])
            == g0v[c] by {
            assert(g@[c] == old(g)@[c]);
            assert(g0v[c] == view2(old(g)@[c]));
        }
        assert(view2(g@[txi]).len() == view2(old(g)@[txi]).update(tyi, kv).len());
        assert forall|r: int| 0 <= r < view2(g@[txi]).len() implies #[trigger] view2(g@[txi])[r]
            == view2(old(g)@[txi]).update(tyi, kv)[r] by {
            assert(view2(g@[txi])[r] == g@[txi]@[r]@);
            assert(view2(old(g)@[txi])[r] == old(g)@[txi]@[r]@);
        }
        assert(view2(g@[txi]) =~= view2(old(g)@[txi]).update(tyi, kv));
        lemma_view3_cell_update(*g, g0v, txi, tyi, kv);
        assert(all_wf(kv)) by {
            assert(all_wf(g0v[txi][tyi]));
            assert forall|j: int| 0 <= j < kv.len() implies (#[trigger] kv[j]).wf() by {
                if j < s_cur.len() {
                    assert(kv[j] == s_cur[j]);
                }
            }
        }
        lemma_grid_wf_after_cell(g0v, sxi, syi, txi, tyi, kv);
        lemma_grid_mset_cell_update(g0v, txi, tyi, kv);
        s_cur.to_multiset_ensures();
        assert forall|t: Particle|
            grid_mset(view3(*g)).count(t) == grid_mset(g0v).insert(p).count(t) by {
            assert(grid_mset(view3(*g)).add(g0v[txi][tyi].to_multiset()).count(t) == grid_mset(
                g0v,
            ).add(kv.to_multiset()).count(t));
            assert(grid_mset(view3(*g)).add(s_cur.to_multiset()).count(t) == grid_mset(
                view3(*g),
            ).count(t) + s_cur.to_multiset().count(t));
            assert(grid_mset(g0v).add(kv.to_multiset()).count(t) == grid_mset(g0v).count(t)
                + kv.to_multiset().count(t));
            assert(kv.to_multiset().count(t) == s_cur.to_multiset().insert(p).count(t));
            if t == p {
                assert(s_cur.to_multiset().insert(p).count(t) == s_cur.to_multiset().count(t) + 1);
                assert(grid_mset(g0v).insert(p).count(t) == grid_mset(g0v).count(t) + 1);
            } else {
                assert(s_cur.to_multiset().insert(p).count(t) == s_cur.to_multiset().count(t));
                assert(grid_mset(g0v).insert(p).count(t) == grid_mset(g0v).count(t));
            }
        }
        assert(grid_mset(view3(*g)) =~= grid_mset(g0v).insert(p));
    }
}

/// Migration: move every particle whose position maps to a different cell
/// into that cell. Never drops or duplicates a particle; a grid whose
/// particles all sit in their correct cells is left exactly as it was.
pub fn migrate(bb: &BoundingBox, sx: usize, sy: usize, g: &mut Vec<Vec<Vec<Particle>>>)
    requires
        bb.wf(),
        bb.nondegenerate(),
        1 <= sx,
        1 <= sy,
        grid_wf(view3(*old(g)), sx as int, sy as int),
    ensures
        grid_wf(view3(*final(g)), sx as int, sy as int),
        grid_mset(view3(*final(g))) == grid_mset(view3(*old(g))),
        placed_ok(*bb, sx as int, sy as int, view3(*final(g))),
        placed_ok(*bb, sx as int, sy as int, view3(*old(g))) ==> view3(*final(g)) == view3(
            *old(g),
        ),
{
    let ghost g0v = view3(*g);
    let ghost sxi = sx as int;
    let ghost syi = sy as int;
    let mut moved: Vec<Particle> = Vec::new();
    for cx in 0..sx
        invariant
            sxi == sx as int,
            syi == sy as int,
            bb.wf(),
            bb.nondegenerate(),
            1 <= sx,
            1 <= sy,
            grid_wf(view3(*g), sxi, syi),
            g0v.len() == sxi,
            all_wf(moved@),
            grid_mset(view3(*g)).add(moved@.to_multiset()) == grid_mset(g0v).add(
                Seq::<Particle>::empty().to_multiset(),
            ),
            forall|c: int, r: int|
                0 <= c < cx && 0 <= r < syi ==> #[trigger] cell_ok(
                    *bb,
                    sxi,
                    syi,
                    c,
                    r,
                    view3(*g)[c][r],
                ),
            placed_ok(*bb, sxi, syi, g0v) ==> view3(*g) == g0v && moved@ == Seq::<
                Particle,
            >::empty(),
    {
        for cy in 0..sy
            invariant
                sxi == sx as int,
                syi == sy as int,
                cx < sx,
                bb.wf(),
                bb.nondegenerate(),
                1 <= sx,
                1 <= sy,
                grid_wf(view3(*g), sxi, syi),
                g0v.len() == sxi,
                all_wf(moved@),
                grid_mset(view3(*g)).add(moved@.to_multiset()) == grid_mset(g0v).add(
                    Seq::<Particle>::empty().to_multiset(),
                ),
                forall|c: int, r: int|
                    0 <= c < sxi && 0 <= r < syi && (c < cx || (c == cx as int && r < cy)) ==> #[trigger] cell_ok(
                        *bb,
                        sxi,
                        syi,
                        c,
                        r,
                        view3(*g)[c][r],
                    ),
                placed_ok(*bb, sxi, syi, g0v) ==> view3(*g) == g0v && moved@ == Seq::<
                    Particle,
                >::empty(),
        {
            let ghost gpre = view3(*g);
            migrate_cell(bb, sx, sy, cx, cy, g, &mut moved);
            proof {
                assert forall|c: int, r: int|
                    0 <= c < sxi && 0 <= r < syi && (c < cx || (c == cx as int && r < cy + 1))
                        implies #[trigger] cell_ok(*bb, sxi, syi, c, r, view3(*g)[c][r]) by {
                    if c == cx as int && r == cy as int {
                        assert(cell_ok(*bb, sxi, syi, c, r, view3(*g)[c][r]));
                    } else {
                        assert(view3(*g)[c][r] == gpre[c][r]);
                        assert(cell_ok(*bb, sxi, syi, c, r, gpre[c][r]));
                    }
                }
                if placed_ok(*bb, sxi, syi, g0v) {
                    assert(cell_ok(*bb, sxi, syi, cx as int, cy as int, g0v[cx as int][cy as int]));
                    assert(gpre == g0v);
                }
            }
        }
    }
    proof {
        assert forall|c: int, r: int| 0 <= c < sxi && 0 <= r < syi implies cell_ok(
            *bb,
            sxi,
            syi,
            c,
            r,
            #[trigger] view3(*g)[c][r],
        ) by {
            assert(cell_ok(*bb, sxi, syi, c, r, view3(*g)[c][r]));
        }
        assert(placed_ok(*bb, sxi, syi, view3(*g)));
    }
    let ghost mseq = moved@;
    proof {
        assert(mseq.skip(0) =~= mseq);
    }
    let n = moved.len();
    for i in 0..n
        invariant
            sxi == sx as int,
            syi == sy as int,
            bb.wf(),
            bb.nondegenerate(),
            1 <= sx,
            1 <= sy,
            grid_wf(view3(*g), sxi, syi),
            moved@ == mseq,
            n == mseq.len(),
            all_wf(mseq),
            placed_ok(*bb, sxi, syi, view3(*g)),
            grid_mset(view3(*g)).add(mseq.skip(i as int).to_multiset()) == grid_mset(g0v).add(
                Seq::<Particle>::empty().to_multiset(),
            ),
            placed_ok(*bb, sxi, syi, g0v) ==> view3(*g) == g0v && mseq == Seq::<
                Particle,
            >::empty(),
    {
        let p = moved[i];
        let ghost gpre = view3(*g);
        insert_particle(bb, sx, sy, g, p);
        proof {
            let tx = cell_of(*bb, sxi, syi, p.pos).0;
            let ty = cell_of(*bb, sxi, syi, p.pos).1;
            assert forall|c: int, r: int| 0 <= c < sxi && 0 <= r < syi implies cell_ok(
                *bb,
                sxi,
                syi,
                c,
                r,
                #[trigger] view3(*g)[c][r],
            ) by {
                if c == tx && r == ty {
                    assert(cell_ok(*bb, sxi, syi, c, r, gpre[c][r]));
                    assert(view3(*g)[c][r] == gpre[c][r].push(p));
                    assert forall|j: int| 0 <= j < view3(*g)[c][r].len() implies #[trigger] cell_of(
                        *bb,
                        sxi,
                        syi,
                        view3(*g)[c][r][j].pos,
                    ) == (c, r) by {
                        if j < gpre[c][r].len() {
                            assert(view3(*g)[c][r][j] == gpre[c][r][j]);
                        } else {
                            assert(view3(*g)[c][r][j] == p);
                        }
                    }
                } else {
                    assert(view3(*g)[c][r] == gpre[c][r]);
                    assert(cell_ok(*bb, sxi, syi, c, r, gpre[c][r]));
                }
            }
            mseq.skip(i as int).to_multiset_ensures();
            assert(mseq.skip(i as int).remove(0) =~= mseq.skip(i as int + 1));
            assert(mseq.skip(i as int)[0] == p);
            assert(mseq.skip(i as int + 1).to_multiset() == mseq.skip(
                i as int,
            ).to_multiset().remove(p));
            assert(mseq.skip(i as int).to_multiset().count(p) > 0) by {
                assert(mseq.skip(i as int).contains(p));
            }
            assert forall|t: Particle|
                grid_mset(view3(*g)).add(mseq.skip(i as int + 1).to_multiset()).count(t)
                    == grid_mset(g0v).add(Seq::<Particle>::empty().to_multiset()).count(t) by {
                assert(grid_mset(gpre).add(mseq.skip(i as int).to_multiset()).count(t)
                    == grid_mset(g0v).add(Seq::<Particle>::empty().to_multiset()).count(t));
                assert(grid_mset(view3(*g)).count(t) == grid_mset(gpre).insert(p).count(t));
                if t == p {
                    assert(grid_mset(gpre).insert(p).count(t) == grid_mset(gpre).count(t) + 1);
                } else {
                    assert(grid_mset(gpre).insert(p).count(t) == grid_mset(gpre).count(t));
                }
                if t == p {
                    assert(mseq.skip(i as int + 1).to_multiset().count(t) == mseq.skip(
                        i as int,
                    ).to_multiset().count(t) - 1);
                } else {
                    assert(mseq.skip(i as int + 1).to_multiset().count(t) == mseq.skip(
                        i as int,
                    ).to_multiset().count(t));
                }
                assert(grid_mset(view3(*g)).add(mseq.skip(i as int + 1).to_multiset()).count(t)
                    == grid_mset(view3(*g)).count(t) + mseq.skip(i as int + 1).to_multiset().count(
                    t,
                ));
                assert(grid_mset(gpre).add(mseq.skip(i as int).to_multiset()).count(t)
                    == grid_mset(gpre).count(t) + mseq.skip(i as int).to_multiset().count(t));
            }
            assert(grid_mset(view3(*g)).add(mseq.skip(i as int + 1).to_multiset()) =~= grid_mset(
                g0v,
            ).add(Seq::<Particle>::empty().to_multiset()));
            if placed_ok(*bb, sxi, syi, g0v) {
                assert(mseq.len() == 0);
                assert(false);
            }
        }
    }
    proof {
        assert(mseq.skip(n as int) =~= Seq::<Particle>::empty());
        Seq::<Particle>::empty().to_multiset_ensures();
        assert(Seq::<Particle>::empty().to_multiset().len() == 0);
        assert forall|t: Particle| grid_mset(view3(*g)).count(t) == grid_mset(g0v).count(t) by {
            assert(grid_mset(view3(*g)).add(Seq::<Particle>::empty().to_multiset()).count(t)
                == grid_mset(g0v).add(Seq::<Particle>::empty().to_multiset()).count(t));
            assert(Seq::<Particle>::empty().to_multiset().count(t) == 0) by {
                vstd::multiset::axiom_count_le_len(Seq::<Particle>::empty().to_multiset(), t);
            }
        }
        assert(grid_mset(view3(*g)) =~= grid_mset(g0v));
    }
}

} // verus!
