//! The simulator: a partition grid of particles inside a bounding box,
//! advanced by migration, Verlet integration and two-phase collision
//! passes.

use vstd::prelude::*;
use vstd::multiset::Multiset;
use crate::accel::Accelerator;
use crate::bounds::{BoundingBox, bbox_spec, cell_of};
use crate::column::{
    all_wf2, collide_column, collide_column_with_column, column_collide_spec, column_cross_spec,
    integrate_column, integrate_column_spec, pairs_count, same_shape2, view2,
};
use crate::fixed::{COORD_LIMIT, DT_MAX, FP_ONE, imin, sat, tdiv, div_trunc, sat_i64};
use crate::grid::{col_mset, grid_mset, grid_wf, insert_particle, migrate, placed_ok, view3};
use crate::particle::Particle;
use crate::sets::all_wf;
use crate::vec2::Vec2;

verus! {

broadcast use vstd::seq_lib::group_to_multiset_ensures, vstd::multiset::group_multiset_axioms;

/// Largest number of grid cells along one axis.
pub const SHAPE_MAX: usize = 65536;

/// What the simulator needs to know at construction.
#[derive(Clone, Copy, Debug, PartialEq, Eq, Structural)]
pub struct SimConfig {
    /// Domain extent: the domain spans `(0, 0)` to `size`.
    pub size: Vec2,
    /// Edge length of one partition cell.
    pub cell_length: i64,
    /// Wall thickness of the domain boundary.
    pub wall: i64,
    /// Collision-pressure coefficient; clamped into `[0, FP_ONE]`.
    pub pressure: i64,
}

/// Why a configuration was rejected.
#[derive(Clone, Copy, Debug, PartialEq, Eq, Structural)]
pub enum ConfigError {
    /// The domain extent is not positive on some axis.
    NonPositiveDomain,
    /// The cell length is not positive.
    NonPositiveCellLength,
    /// The domain holds less than one whole cell on some axis, so the
    /// grid would have zero shape.
    ZeroShape,
}

/// The number of cells along one axis: extent over cell length, rounded
/// down and capped.
pub open spec fn shape_axis(extent: i64, cell: i64) -> int {
    imin(tdiv(sat(extent as int), cell as int), SHAPE_MAX as int)
}

/// The pressure coefficient a configuration yields, clamped into range.
pub open spec fn pressure_norm(p: i64) -> int {
    if p < 0 {
        0
    } else if p > FP_ONE {
        FP_ONE as int
    } else {
        p as int
    }
}

/// The 2D particle simulator.
pub struct Simulator<A: Accelerator> {
    cells: Vec<Vec<Vec<Particle>>>,
    shape_x: usize,
    shape_y: usize,
    bounds: BoundingBox,
    accelerator: A,
    pressure: i64,
    count: usize,
}

/// A grid in which every cell is empty holds the empty bag.
proof fn lemma_empty_col_mset(c: Seq<Seq<Particle>>)
    requires
        forall|r: int| 0 <= r < c.len() ==> (#[trigger] c[r]).len() == 0,
    ensures
        col_mset(c).len() == 0,
    decreases c.len(),
{
    if c.len() > 0 {
        lemma_empty_col_mset(c.drop_last());
        assert(c.last() =~= Seq::<Particle>::empty());
        Seq::<Particle>::empty().to_multiset_ensures();
    }
}

/// A grid in which every cell is empty holds the empty bag.
proof fn lemma_empty_grid_mset(g: Seq<Seq<Seq<Particle>>>)
    requires
        forall|c: int, r: int|
            0 <= c < g.len() && 0 <= r < g[c].len() ==> (#[trigger] g[c][r]).len() == 0,
    ensures
        grid_mset(g).len() == 0,
    decreases g.len(),
{
    if g.len() > 0 {
        lemma_empty_grid_mset(g.drop_last());
        lemma_empty_col_mset(g.last());
    }
}

/// Build a grid of `sx` columns of `sy` empty cells.
fn empty_grid(sx: usize, sy: usize) -> (g: Vec<Vec<Vec<Particle>>>)
    ensures
        view3(g).len() == sx,
        forall|c: int| 0 <= c < sx ==> (#[trigger] view3(g)[c]).len() == sy,
        forall|c: int, r: int|
            0 <= c < sx && 0 <= r < sy ==> (#[trigger] view3(g)[c][r]).len() == 0,
        grid_wf(view3(g), sx as int, sy as int),
{
    let mut g: Vec<Vec<Vec<Particle>>> = Vec::new();
    for c in 0..sx
        invariant
            g@.len() == c,
            forall|i: int| 0 <= i < c ==> (#[trigger] g@[i]@).len() == sy,
            forall|i: int, r: int| 0 <= i < c && 0 <= r < sy ==> (#[trigger] g@[i]@[r]@).len() == 0,
    {
        let mut col: Vec<Vec<Particle>> = Vec::new();
        for r in 0..sy
            invariant
                col@.len() == r,
                forall|j: int| 0 <= j < r ==> (#[trigger] col@[j]@).len() == 0,
        {
            col.push(Vec::new());
        }
        g.push(col);
    }
    proof {
        assert forall|c: int| 0 <= c < sx implies (#[trigger] view3(g)[c]).len() == sy by {
            assert(view3(g)[c] == view2(g@[c]));
        }
        assert forall|c: int, r: int| 0 <= c < sx && 0 <= r < sy implies (
        #[trigger] view3(g)[c][r]).len() == 0 by {
            assert(view3(g)[c] == view2(g@[c]));
            assert(view2(g@[c])[r] == g@[c]@[r]@);
        }
        assert forall|c: int, r: int| 0 <= c < sx && 0 <= r < sy implies all_wf(
            #[trigger] view3(g)[c][r],
        ) by {
            assert(view3(g)[c][r].len() == 0);
        }
    }
    g
}

impl<A: Accelerator> Simulator<A> {
    /// Well-formedness: the grid has its fixed shape, every particle is
    /// sane, and the stored count equals the number of particles held.
    pub closed spec fn wf(self) -> bool {
        &&& grid_wf(view3(self.cells), self.shape_x as int, self.shape_y as int)
        &&& self.bounds.wf()
        &&& self.bounds.nondegenerate()
        &&& 1 <= self.shape_x <= SHAPE_MAX
        &&& 1 <= self.shape_y <= SHAPE_MAX
        &&& 0 <= self.pressure <= FP_ONE
        &&& self.count == grid_mset(view3(self.cells)).len()
    }

    /// The grid contents, as a mathematical value.
    pub closed spec fn grid(self) -> Seq<Seq<Seq<Particle>>> {
        view3(self.cells)
    }

    /// The bag of all particles the simulator holds.
    pub closed spec fn particles(self) -> Multiset<Particle> {
        grid_mset(view3(self.cells))
    }

    /// The domain box.
    pub closed spec fn spec_bounds(self) -> BoundingBox {
        self.bounds
    }

    /// The grid shape.
    pub closed spec fn spec_shape(self) -> (int, int) {
        (self.shape_x as int, self.shape_y as int)
    }

    /// The clamped collision-pressure coefficient.
    pub closed spec fn spec_pressure(self) -> int {
        self.pressure as int
    }

    /// Build a simulator over the domain `(0,0)..config.size`. A
    /// non-positive domain extent or cell length, or a domain smaller than
    /// one cell, is rejected.
    pub fn new(config: SimConfig, accelerator: A) -> (r: Result<Simulator<A>, ConfigError>)
        ensures
            (config.size.x <= 0 || config.size.y <= 0) <==> r == Err::<Simulator<A>, ConfigError>(
                ConfigError::NonPositiveDomain,
            ),
            (config.size.x > 0 && config.size.y > 0 && config.cell_length <= 0) <==> r == Err::<
                Simulator<A>,
                ConfigError,
            >(ConfigError::NonPositiveCellLength),
            (config.size.x > 0 && config.size.y > 0 && config.cell_length > 0 && (shape_axis(
                config.size.x,
                config.cell_length,
            ) == 0 || shape_axis(config.size.y, config.cell_length) == 0)) <==> r == Err::<
                Simulator<A>,
                ConfigError,
            >(ConfigError::ZeroShape),
            r is Ok ==> ({
                let s = r->Ok_0;
                &&& s.wf()
                &&& s.spec_shape() == (
                    shape_axis(config.size.x, config.cell_length),
                    shape_axis(config.size.y, config.cell_length),
                )
                &&& s.spec_bounds() == bbox_spec(Vec2 { x: 0, y: 0 }, config.size, config.wall)
                &&& s.spec_pressure() == pressure_norm(config.pressure)
                &&& s.particles().len() == 0
                &&& forall|c: int, r2: int|
                    0 <= c < s.spec_shape().0 && 0 <= r2 < s.spec_shape().1 ==> (
                    #[trigger] s.grid()[c][r2]).len() == 0
            }),
    {
        if config.size.x <= 0 || config.size.y <= 0 {
            return Err(ConfigError::NonPositiveDomain);
        }
        if config.cell_length <= 0 {
            return Err(ConfigError::NonPositiveCellLength);
        }
        let sxw: i128 = div_trunc(
            sat_i64(config.size.x as i128) as i128,
            config.cell_length as i128,
        );
        let syw: i128 = div_trunc(
            sat_i64(config.size.y as i128) as i128,
            config.cell_length as i128,
        );
        proof {
            crate::fixed::lemma_tdiv_bound(
                sat(config.size.x as int),
                config.cell_length as int,
                COORD_LIMIT as int,
            );
            crate::fixed::lemma_tdiv_bound(
                sat(config.size.y as int),
                config.cell_length as int,
                COORD_LIMIT as int,
            );
        }
        if sxw == 0 || syw == 0 {
            return Err(ConfigError::ZeroShape);
        }
        let sx: usize = if sxw >= SHAPE_MAX as i128 {
            SHAPE_MAX
        } else {
            sxw as usize
        };
        let sy: usize = if syw >= SHAPE_MAX as i128 {
            SHAPE_MAX
        } else {
            syw as usize
        };
        let bounds = BoundingBox::new(Vec2::new(0, 0), config.size, config.wall);
        let pressure = if config.pressure < 0 {
            0
        } else if config.pressure > FP_ONE {
            FP_ONE
        } else {
            config.pressure
        };
        let cells = empty_grid(sx, sy);
        proof {
            lemma_empty_grid_mset(view3(cells));
            assert(bounds.max.x == sat(config.size.x as int));
            assert(bounds.min.x == 0);
            assert(sat(config.size.x as int) >= 1);
            assert(sat(config.size.y as int) >= 1);
        }
        Ok(
            Simulator {
                cells,
                shape_x: sx,
                shape_y: sy,
                bounds,
                accelerator,
                pressure,
                count: 0,
            },
        )
    }

    /// How many particles the simulator holds.
    pub fn particle_count(&self) -> (n: usize)
        requires
            self.wf(),
        ensures
            n == self.particles().len(),
    {
        self.count
    }

    /// The domain box.
    pub fn bounds(&self) -> (b: BoundingBox)
        ensures
            b == self.spec_bounds(),
    {
        self.bounds
    }

    /// The grid shape, in cells.
    pub fn shape(&self) -> (s: (usize, usize))
        ensures
            (s.0 as int, s.1 as int) == self.spec_shape(),
    {
        (self.shape_x, self.shape_y)
    }

    /// Read-only access to one cell bucket, for rendering.
    pub fn cell(&self, x: usize, y: usize) -> (c: &Vec<Particle>)
        requires
            self.wf(),
            x < self.spec_shape().0,
            y < self.spec_shape().1,
        ensures
            c@ == self.grid()[x as int][y as int],
    {
        let col = &self.cells[x];
        proof {
            assert(self.grid()[x as int] == view2(self.cells@[x as int]));
            assert(self.grid()[x as int].len() == self.shape_y);
            assert(view2(self.cells@[x as int])[y as int] == self.cells@[x as int]@[y as int]@);
        }
        &col[y]
    }

    /// Insert a particle into the cell its position maps to.
    pub fn add(&mut self, p: Particle)
        requires
            old(self).wf(),
            p.wf(),
            old(self).particles().len() < usize::MAX,
        ensures
            final(self).wf(),
            final(self).particles() == old(self).particles().insert(p),
            final(self).particles().len() == old(self).particles().len() + 1,
            ({
                let (tx, ty) = cell_of(
                    old(self).spec_bounds(),
                    old(self).spec_shape().0,
                    old(self).spec_shape().1,
                    p.pos,
                );
                final(self).grid() == old(self).grid().update(
                    tx,
                    old(self).grid()[tx].update(ty, old(self).grid()[tx][ty].push(p)),
                )
            }),
            final(self).spec_shape() == old(self).spec_shape(),
            final(self).spec_bounds() == old(self).spec_bounds(),
            final(self).spec_pressure() == old(self).spec_pressure(),
            final(self).spec_accel() == old(self).spec_accel(),
    {
        insert_particle(&self.bounds, self.shape_x, self.shape_y, &mut self.cells, p);
        self.count = self.count + 1;
    }

    /// Migration: move every particle to the cell its position maps to.
    /// Never drops or duplicates a particle, and leaves an already
    /// consistent grid exactly as it was.
    pub fn migrate(&mut self)
        requires
            old(self).wf(),
        ensures
            final(self).wf(),
            final(self).particles() == old(self).particles(),
            placed_ok(
                old(self).spec_bounds(),
                old(self).spec_shape().0,
                old(self).spec_shape().1,
                final(self).grid(),
            ),
            placed_ok(
                old(self).spec_bounds(),
                old(self).spec_shape().0,
                old(self).spec_shape().1,
                old(self).grid(),
            ) ==> final(self).grid() == old(self).grid(),
            final(self).spec_shape() == old(self).spec_shape(),
            final(self).spec_bounds() == old(self).spec_bounds(),
            final(self).spec_pressure() == old(self).spec_pressure(),
            final(self).spec_accel() == old(self).spec_accel(),
    {
        migrate(&self.bounds, self.shape_x, self.shape_y, &mut self.cells);
    }

    /// Discard every particle, leaving a consistent empty grid of the
    /// same shape.
    pub fn clear(&mut self)
        requires
            old(self).wf(),
        ensures
            final(self).wf(),
            final(self).particles().len() == 0,
            final(self).spec_shape() == old(self).spec_shape(),
            final(self).spec_bounds() == old(self).spec_bounds(),
            final(self).spec_pressure() == old(self).spec_pressure(),
            final(self).spec_accel() == old(self).spec_accel(),
    {
        self.cells = empty_grid(self.shape_x, self.shape_y);
        self.count = 0;
        proof {
            lemma_empty_grid_mset(view3(self.cells));
        }
    }
}

/// Every column keeps its cell count, cell by cell.
pub open spec fn same_shape3(a: Seq<Seq<Seq<Particle>>>, b: Seq<Seq<Seq<Particle>>>) -> bool {
    &&& a.len() == b.len()
    &&& forall|c: int| 0 <= c < a.len() ==> same_shape2(#[trigger] a[c], #[trigger] b[c])
}

/// Columns of equal shape hold bags of equal size.
proof fn lemma_col_mset_len(a: Seq<Seq<Particle>>, b: Seq<Seq<Particle>>)
    requires
        same_shape2(a, b),
    ensures
        col_mset(a).len() == col_mset(b).len(),
    decreases a.len(),
{
    if a.len() > 0 {
        assert(same_shape2(a.drop_last(), b.drop_last())) by {
            assert forall|r: int| 0 <= r < a.drop_last().len() implies #[trigger] a.drop_last(
            )[r].len() == b.drop_last()[r].len() by {
                assert(a[r].len() == b[r].len());
            }
        }
        lemma_col_mset_len(a.drop_last(), b.drop_last());
        a.last().to_multiset_ensures();
        b.last().to_multiset_ensures();
        assert(a.last().len() == b.last().len()) by {
            assert(a[a.len() - 1].len() == b[a.len() - 1].len());
        }
    }
}

/// Grids of equal shape hold bags of equal size.
proof fn lemma_grid_mset_len(a: Seq<Seq<Seq<Particle>>>, b: Seq<Seq<Seq<Particle>>>)
    requires
        same_shape3(a, b),
    ensures
        grid_mset(a).len() == grid_mset(b).len(),
    decreases a.len(),
{
    if a.len() > 0 {
        assert(same_shape3(a.drop_last(), b.drop_last())) by {
            assert forall|c: int| 0 <= c < a.drop_last().len() implies same_shape2(
                #[trigger] a.drop_last()[c],
                #[trigger] b.drop_last()[c],
            ) by {
                assert(same_shape2(a[c], b[c]));
            }
        }
        lemma_grid_mset_len(a.drop_last(), b.drop_last());
        assert(same_shape2(a[a.len() - 1], b[a.len() - 1]));
        lemma_col_mset_len(a.last(), b.last());
    }
}

/// Verlet integration and containment applied to every column.
pub open spec fn integrate_pass_spec<A: Accelerator>(
    fld: A,
    bb: BoundingBox,
    dt: int,
    g: Seq<Seq<Seq<Particle>>>,
) -> Seq<Seq<Seq<Particle>>> {
    g.map_values(|col: Seq<Seq<Particle>>| integrate_column_spec(fld, bb, dt, col))
}

/// The intra-column collision pass applied to every column.
pub open spec fn intra_pass_spec(g: Seq<Seq<Seq<Particle>>>, dt: int, pres: int) -> Seq<
    Seq<Seq<Particle>>,
> {
    g.map_values(|col: Seq<Seq<Particle>>| column_collide_spec(col, dt, pres))
}

/// The first `k` disjoint adjacent column pairs from `start` on, resolved
/// against each other in order.
pub open spec fn cross_pass_upto(
    g: Seq<Seq<Seq<Particle>>>,
    start: int,
    k: int,
    dt: int,
    pres: int,
) -> Seq<Seq<Seq<Particle>>>
    decreases k,
{
    if k <= 0 {
        g
    } else {
        let prev = cross_pass_upto(g, start, k - 1, dt, pres);
        let c = start + 2 * (k - 1);
        let (l, r) = column_cross_spec(prev[c], prev[c + 1], dt, pres);
        prev.update(c, l).update(c + 1, r)
    }
}

/// All disjoint adjacent column pairs from `start` on, resolved against
/// each other in order.
pub open spec fn cross_pass_spec(g: Seq<Seq<Seq<Particle>>>, start: int, dt: int, pres: int) -> Seq<
    Seq<Seq<Particle>>,
> {
    cross_pass_upto(g, start, pairs_count(g.len() as int, start), dt, pres)
}

/// One whole physics substep on the grid: integrate and contain every
/// particle, resolve collisions within every column, then across column
/// boundaries in two interleaved passes.
pub open spec fn physics_spec<A: Accelerator>(
    fld: A,
    bb: BoundingBox,
    dt: int,
    pres: int,
    g: Seq<Seq<Seq<Particle>>>,
) -> Seq<Seq<Seq<Particle>>> {
    cross_pass_spec(
        cross_pass_spec(
            intra_pass_spec(integrate_pass_spec(fld, bb, dt, g), dt, pres),
            0,
            dt,
            pres,
        ),
        1,
        dt,
        pres,
    )
}

/// Every particle of every cell of every column is well-formed.
pub open spec fn all_wf3(g: Seq<Seq<Seq<Particle>>>) -> bool {
    forall|c: int| 0 <= c < g.len() ==> all_wf2(#[trigger] g[c])
}

/// A well-formed grid is well-formed column by column.
proof fn lemma_grid_wf_unpack(g: Seq<Seq<Seq<Particle>>>, sx: int, sy: int)
    requires
        grid_wf(g, sx, sy),
    ensures
        all_wf3(g),
    decreases g.len(),
{
    assert forall|c: int| 0 <= c < g.len() implies all_wf2(#[trigger] g[c]) by {
        assert(g[c].len() == sy);
        assert forall|r: int| 0 <= r < g[c].len() implies all_wf(#[trigger] g[c][r]) by {
            assert(all_wf(g[c][r]));
        }
    }
}

/// A grid that kept its shape keeps its well-formed dimensions.
proof fn lemma_grid_wf_repack(
    gnew: Seq<Seq<Seq<Particle>>>,
    gold: Seq<Seq<Seq<Particle>>>,
    sx: int,
    sy: int,
)
    requires
        grid_wf(gold, sx, sy),
        same_shape3(gnew, gold),
        all_wf3(gnew),
    ensures
        grid_wf(gnew, sx, sy),
{
    assert forall|c: int| 0 <= c < sx implies (#[trigger] gnew[c]).len() == sy by {
        assert(same_shape2(gnew[c], gold[c]));
        assert(gold[c].len() == sy);
    }
    assert forall|c: int, r: int| 0 <= c < sx && 0 <= r < sy implies all_wf(
        #[trigger] gnew[c][r],
    ) by {
        assert(all_wf2(gnew[c]));
        assert(same_shape2(gnew[c], gold[c]));
        assert(all_wf(gnew[c][r]));
    }
}

/// Shape preservation composes.
proof fn lemma_shape3_trans(
    a: Seq<Seq<Seq<Particle>>>,
    b: Seq<Seq<Seq<Particle>>>,
    c: Seq<Seq<Seq<Particle>>>,
)
    requires
        same_shape3(a, b),
        same_shape3(b, c),
    ensures
        same_shape3(a, c),
{
    assert forall|i: int| 0 <= i < a.len() implies same_shape2(#[trigger] a[i], #[trigger] c[i]) by {
        assert(same_shape2(a[i], b[i]));
        assert(same_shape2(b[i], c[i]));
        assert forall|r: int| 0 <= r < a[i].len() implies #[trigger] a[i][r].len()
            == c[i][r].len() by {
            assert(a[i][r].len() == b[i][r].len());
        }
    }
}

/// Verlet-integrate and contain every particle, column by column.
fn integrate_pass<A: Accelerator>(
    fld: &A,
    bb: &BoundingBox,
    dt: i64,
    g: &mut Vec<Vec<Vec<Particle>>>,
)
    requires
        bb.wf(),
        all_wf3(view3(*old(g))),
        1 <= dt <= DT_MAX,
    ensures
        view3(*final(g)) == integrate_pass_spec(*fld, *bb, dt as int, view3(*old(g))),
        all_wf3(view3(*final(g))),
        same_shape3(view3(*final(g)), view3(*old(g))),
{
    let ghost g0v = view3(*g);
    let n = g.len();
    proof {
        assert forall|q: int| 0 <= q < n implies all_wf2(view2(#[trigger] g@[q])) by {
            assert(all_wf2(g0v[q]));
            assert(g0v[q] == view2(g@[q]));
        }
    }
    for c in 0..n
        invariant
            g@.len() == n == g0v.len(),
            forall|q: int|
                0 <= q < c ==> view2(#[trigger] g@[q]) == integrate_column_spec(
                    *fld,
                    *bb,
                    dt as int,
                    g0v[q],
                ),
            forall|q: int| c <= q < n ==> view2(#[trigger] g@[q]) == g0v[q],
            forall|q: int| 0 <= q < n ==> all_wf2(view2(#[trigger] g@[q])),
            forall|q: int| 0 <= q < n ==> same_shape2(view2(#[trigger] g@[q]), g0v[q]),
            bb.wf(),
            1 <= dt <= DT_MAX,
    {
        let mut col: Vec<Vec<Particle>> = Vec::new();
        core::mem::swap(&mut col, &mut g[c]);
        integrate_column(fld, bb, dt, &mut col);
        core::mem::swap(&mut col, &mut g[c]);
    }
    proof {
        assert forall|q: int| 0 <= q < n implies #[trigger] view3(*g)[q] == integrate_pass_spec(
            *fld,
            *bb,
            dt as int,
            g0v,
        )[q] by {
            assert(view3(*g)[q] == view2(g@[q]));
        }
        assert(view3(*g) =~= integrate_pass_spec(*fld, *bb, dt as int, g0v));
        assert forall|q: int| 0 <= q < view3(*g).len() implies all_wf2(#[trigger] view3(*g)[q]) by {
            assert(view3(*g)[q] == view2(g@[q]));
        }
        assert forall|q: int| 0 <= q < view3(*g).len() implies same_shape2(
            #[trigger] view3(*g)[q],
            #[trigger] g0v[q],
        ) by {
            assert(view3(*g)[q] == view2(g@[q]));
        }
    }
}

/// Resolve collisions within every column.
fn intra_pass(dt: i64, pressure: i64, g: &mut Vec<Vec<Vec<Particle>>>)
    requires
        all_wf3(view3(*old(g))),
        1 <= dt <= DT_MAX,
        0 <= pressure <= FP_ONE,
    ensures
        view3(*final(g)) == intra_pass_spec(view3(*old(g)), dt as int, pressure as int),
        all_wf3(view3(*final(g))),
        same_shape3(view3(*final(g)), view3(*old(g))),
{
    let ghost g0v = view3(*g);
    let n = g.len();
    proof {
        assert forall|q: int| 0 <= q < n implies all_wf2(view2(#[trigger] g@[q])) by {
            assert(all_wf2(g0v[q]));
            assert(g0v[q] == view2(g@[q]));
        }
    }
    for c in 0..n
        invariant
            g@.len() == n == g0v.len(),
            forall|q: int|
                0 <= q < c ==> view2(#[trigger] g@[q]) == column_collide_spec(
                    g0v[q],
                    dt as int,
                    pressure as int,
                ),
            forall|q: int| c <= q < n ==> view2(#[trigger] g@[q]) == g0v[q],
            forall|q: int| 0 <= q < n ==> all_wf2(view2(#[trigger] g@[q])),
            forall|q: int| 0 <= q < n ==> same_shape2(view2(#[trigger] g@[q]), g0v[q]),
            1 <= dt <= DT_MAX,
            0 <= pressure <= FP_ONE,
    {
        let mut col: Vec<Vec<Particle>> = Vec::new();
        core::mem::swap(&mut col, &mut g[c]);
        collide_column(dt, pressure, &mut col);
        core::mem::swap(&mut col, &mut g[c]);
    }
    proof {
        assert forall|q: int| 0 <= q < n implies #[trigger] view3(*g)[q] == intra_pass_spec(
            g0v,
            dt as int,
            pressure as int,
        )[q] by {
            assert(view3(*g)[q] == view2(g@[q]));
        }
        assert(view3(*g) =~= intra_pass_spec(g0v, dt as int, pressure as int));
        assert forall|q: int| 0 <= q < view3(*g).len() implies all_wf2(#[trigger] view3(*g)[q]) by {
            assert(view3(*g)[q] == view2(g@[q]));
        }
        assert forall|q: int| 0 <= q < view3(*g).len() implies same_shape2(
            #[trigger] view3(*g)[q],
            #[trigger] g0v[q],
        ) by {
            assert(view3(*g)[q] == view2(g@[q]));
        }
    }
}

/// Resolve collisions between the disjoint adjacent column pairs starting
/// at `start`.
fn cross_pass(dt: i64, pressure: i64, g: &mut Vec<Vec<Vec<Particle>>>, start: usize)
    requires
        all_wf3(view3(*old(g))),
        1 <= dt <= DT_MAX,
        0 <= pressure <= FP_ONE,
        start <= 1,
    ensures
        view3(*final(g)) == cross_pass_spec(
            view3(*old(g)),
            start as int,
            dt as int,
            pressure as int,
        ),
        all_wf3(view3(*final(g))),
        same_shape3(view3(*final(g)), view3(*old(g))),
{
    let ghost g0v = view3(*g);
    let n = g.len();
    proof {
        assert forall|q: int| 0 <= q < n implies all_wf2(view2(#[trigger] g@[q])) by {
            assert(all_wf2(g0v[q]));
            assert(g0v[q] == view2(g@[q]));
        }
    }
    let mut c = start;
    let ghost mut k: int = 0;
    while c < n && c + 1 < n
        invariant
            g@.len() == n == g0v.len(),
            c == start + 2 * k,
            0 <= k,
            n > start ==> c <= n,
            n <= start ==> k == 0,
            start <= 1,
            view3(*g) == cross_pass_upto(g0v, start as int, k, dt as int, pressure as int),
            forall|q: int| 0 <= q < n ==> all_wf2(view2(#[trigger] g@[q])),
            forall|q: int| 0 <= q < n ==> same_shape2(view2(#[trigger] g@[q]), g0v[q]),
            1 <= dt <= DT_MAX,
            0 <= pressure <= FP_ONE,
        decreases n - c,
    {
        let mut left: Vec<Vec<Particle>> = Vec::new();
        let mut right: Vec<Vec<Particle>> = Vec::new();
        core::mem::swap(&mut left, &mut g[c]);
        core::mem::swap(&mut right, &mut g[c + 1]);
        collide_column_with_column(dt, pressure, &mut left, &mut right);
        core::mem::swap(&mut left, &mut g[c]);
        core::mem::swap(&mut right, &mut g[c + 1]);
        proof {
            assert forall|q: int|
                0 <= q < n implies #[trigger] view3(*g)[q] == cross_pass_upto(
                g0v,
                start as int,
                k + 1,
                dt as int,
                pressure as int,
            )[q] by {
                assert(view3(*g)[q] == view2(g@[q]));
            }
            assert(view3(*g) =~= cross_pass_upto(
                g0v,
                start as int,
                k + 1,
                dt as int,
                pressure as int,
            ));
            k = k + 1;
        }
        c = c + 2;
    }
    proof {
        if n > start {
            assert((n - start) / 2 == k) by (nonlinear_arith)
                requires
                    n - start == 2 * k + (n - start - 2 * k),
                    0 <= n - start - 2 * k < 2,
            ;
        }
        assert(k == pairs_count(n as int, start as int));
        assert forall|q: int| 0 <= q < view3(*g).len() implies all_wf2(#[trigger] view3(*g)[q]) by {
            assert(view3(*g)[q] == view2(g@[q]));
        }
        assert forall|q: int| 0 <= q < view3(*g).len() implies same_shape2(
            #[trigger] view3(*g)[q],
            #[trigger] g0v[q],
        ) by {
            assert(view3(*g)[q] == view2(g@[q]));
        }
    }
}

impl<A: Accelerator> Simulator<A> {
    /// The acceleration field.
    pub closed spec fn spec_accel(self) -> A {
        self.accelerator
    }

    /// What one full step promises: the grid is first brought to a state
    /// holding the same bag of particles with every particle in its
    /// correct cell (unchanged if it already was consistent), and that
    /// state is then advanced by exactly one physics substep.
    pub open spec fn step_rel(pre: Simulator<A>, post: Simulator<A>, dt: int) -> bool {
        exists|mid: Seq<Seq<Seq<Particle>>>|
            {
                &&& grid_mset(mid) == pre.particles()
                &&& #[trigger] placed_ok(
                    pre.spec_bounds(),
                    pre.spec_shape().0,
                    pre.spec_shape().1,
                    mid,
                )
                &&& placed_ok(
                    pre.spec_bounds(),
                    pre.spec_shape().0,
                    pre.spec_shape().1,
                    pre.grid(),
                ) ==> mid == pre.grid()
                &&& post.grid() == physics_spec(
                    pre.spec_accel(),
                    pre.spec_bounds(),
                    dt,
                    pre.spec_pressure(),
                    mid,
                )
            }
    }

    /// A chain of `n` full steps of length `dt` leads from `pre` to
    /// `post`.
    pub open spec fn steps_rel(pre: Simulator<A>, post: Simulator<A>, dt: int, n: int) -> bool
        decreases n,
    {
        if n <= 0 {
            post == pre
        } else {
            exists|m: Simulator<A>|
                Self::steps_rel(pre, m, dt, n - 1) && #[trigger] Self::step_rel(m, post, dt)
        }
    }

    /// One physics substep: Verlet integration with containment for every
    /// particle, then the intra-column pass, then the two interleaved
    /// cross-column passes, all in a fixed sequential order.
    pub fn update_physics(&mut self, dt: i64)
        requires
            old(self).wf(),
            1 <= dt <= DT_MAX,
        ensures
            final(self).wf(),
            final(self).grid() == physics_spec(
                old(self).spec_accel(),
                old(self).spec_bounds(),
                dt as int,
                old(self).spec_pressure(),
                old(self).grid(),
            ),
            final(self).particles().len() == old(self).particles().len(),
            same_shape3(final(self).grid(), old(self).grid()),
            final(self).spec_shape() == old(self).spec_shape(),
            final(self).spec_bounds() == old(self).spec_bounds(),
            final(self).spec_pressure() == old(self).spec_pressure(),
            final(self).spec_accel() == old(self).spec_accel(),
    {
        let ghost g0 = view3(self.cells);
        proof {
            lemma_grid_wf_unpack(g0, self.shape_x as int, self.shape_y as int);
        }
        integrate_pass(&self.accelerator, &self.bounds, dt, &mut self.cells);
        let ghost g1 = view3(self.cells);
        intra_pass(dt, self.pressure, &mut self.cells);
        let ghost g2 = view3(self.cells);
        cross_pass(dt, self.pressure, &mut self.cells, 0);
        let ghost g3 = view3(self.cells);
        cross_pass(dt, self.pressure, &mut self.cells, 1);
        proof {
            let g4 = view3(self.cells);
            lemma_shape3_trans(g2, g1, g0);
            lemma_shape3_trans(g3, g2, g0);
            lemma_shape3_trans(g4, g3, g0);
            lemma_grid_mset_len(g4, g0);
            lemma_grid_wf_repack(g4, g0, self.shape_x as int, self.shape_y as int);
        }
    }

    /// One full simulation step: migration, then one physics substep of
    /// length `dt`. The total particle count is invariant.
    pub fn step(&mut self, dt: i64)
        requires
            old(self).wf(),
            1 <= dt <= DT_MAX,
        ensures
            final(self).wf(),
            final(self).particles().len() == old(self).particles().len(),
            Self::step_rel(*old(self), *final(self), dt as int),
            final(self).spec_shape() == old(self).spec_shape(),
            final(self).spec_bounds() == old(self).spec_bounds(),
            final(self).spec_pressure() == old(self).spec_pressure(),
            final(self).spec_accel() == old(self).spec_accel(),
    {
        let ghost pre = *self;
        self.migrate();
        let ghost midg = self.grid();
        self.update_physics(dt);
        proof {
            assert(grid_mset(midg) == pre.particles());
            assert(placed_ok(pre.spec_bounds(), pre.spec_shape().0, pre.spec_shape().1, midg));
            assert(placed_ok(pre.spec_bounds(), pre.spec_shape().0, pre.spec_shape().1, pre.grid())
                ==> midg == pre.grid());
            assert(self.grid() == physics_spec(
                pre.spec_accel(),
                pre.spec_bounds(),
                dt as int,
                pre.spec_pressure(),
                midg,
            ));
            assert(Self::step_rel(pre, *self, dt as int));
        }
    }

    /// Divide `dt` into `n` equal substeps and run one full step for
    /// each. The total particle count is invariant over the whole
    /// sequence.
    pub fn step_substeps(&mut self, dt: i64, n: usize)
        requires
            old(self).wf(),
            1 <= n,
            n <= dt,
            dt <= DT_MAX,
        ensures
            final(self).wf(),
            final(self).particles().len() == old(self).particles().len(),
            Self::steps_rel(*old(self), *final(self), tdiv(dt as int, n as int), n as int),
            final(self).spec_shape() == old(self).spec_shape(),
            final(self).spec_bounds() == old(self).spec_bounds(),
            final(self).spec_pressure() == old(self).spec_pressure(),
            final(self).spec_accel() == old(self).spec_accel(),
    {
        let ghost pre = *self;
        let subw: i128 = div_trunc(dt as i128, n as i128);
        proof {
            crate::fixed::lemma_tdiv_bound(dt as int, n as int, DT_MAX as int);
            vstd::arithmetic::div_mod::lemma_div_non_zero(dt as int, n as int);
        }
        let sub: i64 = subw as i64;
        proof {
            assert(Self::steps_rel(pre, pre, sub as int, 0));
        }
        for i in 0..n
            invariant
                self.wf(),
                self.particles().len() == pre.particles().len(),
                Self::steps_rel(pre, *self, sub as int, i as int),
                self.spec_shape() == pre.spec_shape(),
                self.spec_bounds() == pre.spec_bounds(),
                self.spec_pressure() == pre.spec_pressure(),
                self.spec_accel() == pre.spec_accel(),
                1 <= sub <= DT_MAX,
        {
            let ghost before = *self;
            self.step(sub);
            proof {
                let ghost ni: int = i as int + 1;
                assert(Self::steps_rel(pre, before, sub as int, ni - 1) && Self::step_rel(
                    before,
                    *self,
                    sub as int,
                ));
                assert(Self::steps_rel(pre, *self, sub as int, ni));
            }
        }
    }
}

} // verus!
