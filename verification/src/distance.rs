//! The distance field: for every cell, the squared Euclidean distance to the
//! nearest occupied cell, or a sentinel when the grid holds no entity.

use vstd::prelude::*;

use crate::game::Grid;
use crate::DIST_SENTINEL;
use crate::MAX_DIM;

verus! {

/// Squared Euclidean distance between two cell coordinates.
pub open spec fn dist_sq(x1: int, y1: int, x2: int, y2: int) -> int {
    (x1 - x2) * (x1 - x2) + (y1 - y2) * (y1 - y2)
}

/// The squared distance is zero exactly between a cell and itself.
pub proof fn lemma_dist_sq_zero(x1: int, y1: int, x2: int, y2: int)
    ensures
        dist_sq(x1, y1, x2, y2) == 0 <==> (x1 == x2 && y1 == y2),
{
    assert((x1 - x2) * (x1 - x2) + (y1 - y2) * (y1 - y2) == 0 <==> (x1 == x2 && y1 == y2))
        by (nonlinear_arith);
}

/// `v` is the squared distance from `(x, y)` to the nearest occupied cell of
/// `g`: it is a lower bound on the distance to every occupied cell, and it is
/// attained at some occupied cell — or it is the sentinel and no cell of the
/// grid is occupied.
pub open spec fn nearest_sq(g: Grid, x: int, y: int, v: u32) -> bool {
    &&& forall|ox: int, oy: int|
        g.in_bounds(ox, oy) && #[trigger] g.occupied(ox, oy) ==> v <= dist_sq(x, y, ox, oy)
    &&& ((exists|ox: int, oy: int|
        g.in_bounds(ox, oy) && #[trigger] g.occupied(ox, oy) && v == dist_sq(x, y, ox, oy)) || (v
        == DIST_SENTINEL && !g.any_occupied()))
}

/// As `nearest_sq`, but only over the occupied cells among the first `o`
/// cells of the grid in row-major order.
pub open spec fn nearest_sq_upto(g: Grid, o: int, x: int, y: int, v: u32) -> bool {
    &&& forall|i: int|
        0 <= i < o && (#[trigger] g.cells@[i]).entities@.len() > 0 ==> v <= dist_sq(
            x,
            y,
            g.cells@[i].x as int,
            g.cells@[i].y as int,
        )
    &&& ((exists|i: int|
        0 <= i < o && (#[trigger] g.cells@[i]).entities@.len() > 0 && v == dist_sq(
            x,
            y,
            g.cells@[i].x as int,
            g.cells@[i].y as int,
        )) || (v == DIST_SENTINEL && forall|i: int|
        0 <= i < o ==> (#[trigger] g.cells@[i]).entities@.len() == 0))
}

/// Once every cell has been scanned, the row-major characterization is the
/// coordinate one.
proof fn lemma_upto_full(g: Grid, x: int, y: int, v: u32)
    requires
        g.wf(),
        nearest_sq_upto(g, g.cells@.len() as int, x, y, v),
    ensures
        nearest_sq(g, x, y, v),
{
    let n: int = g.cells@.len() as int;
    assert forall|ox: int, oy: int|
        g.in_bounds(ox, oy) && #[trigger] g.occupied(ox, oy) implies v <= dist_sq(
        x,
        y,
        ox,
        oy,
    ) by {
        g.lemma_cell_index(ox, oy);
        let i: int = oy * g.cols + ox;
        assert(g.cells@[i].entities@.len() > 0);
        assert(v <= dist_sq(x, y, g.cells@[i].x as int, g.cells@[i].y as int));
    }
    if exists|i: int|
        0 <= i < n && (#[trigger] g.cells@[i]).entities@.len() > 0 && v == dist_sq(
            x,
            y,
            g.cells@[i].x as int,
            g.cells@[i].y as int,
        ) {
        let i: int = choose|i: int|
            0 <= i < n && (#[trigger] g.cells@[i]).entities@.len() > 0 && v == dist_sq(
                x,
                y,
                g.cells@[i].x as int,
                g.cells@[i].y as int,
            );
        assert(g.wf_cell(i));
        let ox: int = g.cells@[i].x as int;
        let oy: int = g.cells@[i].y as int;
        assert(g.occupied(ox, oy));
    } else {
        assert(v == DIST_SENTINEL);
        assert forall|ox: int, oy: int|
            g.in_bounds(ox, oy) implies !(#[trigger] g.occupied(ox, oy)) by {
            g.lemma_cell_index(ox, oy);
            let i: int = oy * g.cols + ox;
            assert(g.cells@[i].entities@.len() == 0);
        }
    }
}

/// The field is zero at `(x, y)` exactly when that cell is occupied.
proof fn lemma_nearest_zero(g: Grid, x: int, y: int, v: u32)
    requires
        g.wf(),
        g.in_bounds(x, y),
        nearest_sq(g, x, y, v),
    ensures
        v == 0 <==> g.occupied(x, y),
{
    if g.occupied(x, y) {
        assert(v <= dist_sq(x, y, x, y));
    }
    if v == 0 {
        assert(DIST_SENTINEL != 0);
        let (ox, oy): (int, int) = choose|ox: int, oy: int|
            g.in_bounds(ox, oy) && #[trigger] g.occupied(ox, oy) && v == dist_sq(x, y, ox, oy);
        lemma_dist_sq_zero(x, y, ox, oy);
    }
}

/// A rows-by-cols scalar field held as a contiguous row-major buffer.
#[derive(Clone, Debug)]
pub struct DistanceField {
    pub rows: u32,
    pub cols: u32,
    pub d: Vec<u32>,
}

impl DistanceField {
    pub open spec fn wf(self) -> bool {
        &&& 2 <= self.rows <= MAX_DIM
        &&& 2 <= self.cols <= MAX_DIM
        &&& self.d@.len() == self.rows * self.cols
    }

    pub open spec fn in_bounds(self, x: int, y: int) -> bool {
        &&& 0 <= x < self.cols
        &&& 0 <= y < self.rows
    }

    /// The field value at `(x, y)`.
    pub open spec fn at(self, x: int, y: int) -> u32 {
        self.d@[y * self.cols + x]
    }

    /// Read the field value at `(x, y)`.
    pub fn get(&self, x: u32, y: u32) -> (v: u32)
        requires
            self.wf(),
            x < self.cols,
            y < self.rows,
        ensures
            v == self.at(x as int, y as int),
    {
        proof {
            assert(y * self.cols + x < self.rows * self.cols && self.rows * self.cols <= MAX_DIM
                * MAX_DIM) by (nonlinear_arith)
                requires
                    x < self.cols,
                    y < self.rows,
                    self.rows <= MAX_DIM,
                    self.cols <= MAX_DIM,
            ;
        }
        self.d[(y * self.cols + x) as usize]
    }
}

/// Squared distance between two in-range cell coordinates, as a scalar that
/// always stays below the sentinel.
fn cell_dist_sq(x1: u32, y1: u32, x2: u32, y2: u32) -> (r: u32)
    requires
        x1 < MAX_DIM,
        y1 < MAX_DIM,
        x2 < MAX_DIM,
        y2 < MAX_DIM,
    ensures
        r == dist_sq(x1 as int, y1 as int, x2 as int, y2 as int),
        r < DIST_SENTINEL,
{
    let dx: u32 = if x1 >= x2 {
        x1 - x2
    } else {
        x2 - x1
    };
    let dy: u32 = if y1 >= y2 {
        y1 - y2
    } else {
        y2 - y1
    };
    proof {
        assert(dx * dx == (x1 as int - x2 as int) * (x1 as int - x2 as int)) by (nonlinear_arith)
            requires
                dx == x1 as int - x2 as int || dx == x2 as int - x1 as int,
        ;
        assert(dy * dy == (y1 as int - y2 as int) * (y1 as int - y2 as int)) by (nonlinear_arith)
            requires
                dy == y1 as int - y2 as int || dy == y2 as int - y1 as int,
        ;
        assert(dx * dx + dy * dy < DIST_SENTINEL) by (nonlinear_arith)
            requires
                dx < MAX_DIM,
                dy < MAX_DIM,
        ;
    }
    dx * dx + dy * dy
}

/// Compute the distance field of the grid: for every occupied cell, the
/// squared distance to every cell is folded into a running minimum per
/// target cell, scanning in row-major order.
pub fn get_distances(grid: &Grid) -> (f: DistanceField)
    requires
        grid.wf(),
    ensures
        f.wf(),
        f.rows == grid.rows,
        f.cols == grid.cols,
        forall|x: int, y: int|
            grid.in_bounds(x, y) ==> nearest_sq(*grid, x, y, #[trigger] f.at(x, y)),
        forall|x: int, y: int|
            grid.in_bounds(x, y) ==> ((#[trigger] f.at(x, y)) == 0 <==> grid.occupied(x, y)),
{
    let n: usize = grid.cells.len();
    let mut d: Vec<u32> = Vec::new();
    let mut t0: usize = 0;
    while t0 < n
        invariant
            t0 <= n,
            d@.len() == t0,
            forall|i: int| 0 <= i < t0 ==> #[trigger] d@[i] == DIST_SENTINEL,
        decreases n - t0,
    {
        d.push(DIST_SENTINEL);
        t0 = t0 + 1;
    }
    let mut o: usize = 0;
    while o < n
        invariant
            o <= n,
            n == grid.cells@.len(),
            grid.wf(),
            d@.len() == n,
            forall|t: int|
                0 <= t < n ==> nearest_sq_upto(
                    *grid,
                    o as int,
                    grid.cells@[t].x as int,
                    grid.cells@[t].y as int,
                    #[trigger] d@[t],
                ),
        decreases n - o,
    {
        if grid.cells[o].entities.len() > 0 {
            let ox: u32 = grid.cells[o].x;
            let oy: u32 = grid.cells[o].y;
            let mut t: usize = 0;
            while t < n
                invariant
                    t <= n,
                    o < n,
                    n == grid.cells@.len(),
                    grid.wf(),
                    d@.len() == n,
                    grid.cells@[o as int].entities@.len() > 0,
                    ox == grid.cells@[o as int].x,
                    oy == grid.cells@[o as int].y,
                    forall|tp: int|
                        0 <= tp < t ==> nearest_sq_upto(
                            *grid,
                            o + 1,
                            grid.cells@[tp].x as int,
                            grid.cells@[tp].y as int,
                            #[trigger] d@[tp],
                        ),
                    forall|tp: int|
                        t <= tp < n ==> nearest_sq_upto(
                            *grid,
                            o as int,
                            grid.cells@[tp].x as int,
                            grid.cells@[tp].y as int,
                            #[trigger] d@[tp],
                        ),
                decreases n - t,
            {
                assert(grid.wf_cell(t as int));
                assert(grid.wf_cell(o as int));
                let tx: u32 = grid.cells[t].x;
                let ty: u32 = grid.cells[t].y;
                let dist = cell_dist_sq(tx, ty, ox, oy);
                let ghost d0 = d@;
                let ghost tx_ = tx as int;
                let ghost ty_ = ty as int;
                if dist < d[t] {
                    d[t] = dist;
                }
                proof {
                    let oi: int = o as int;
                    assert(d@[t as int] <= dist && d@[t as int] <= d0[t as int]);
                    assert forall|tp: int|
                        0 <= tp < t + 1 implies nearest_sq_upto(
                        *grid,
                        oi + 1,
                        grid.cells@[tp].x as int,
                        grid.cells@[tp].y as int,
                        #[trigger] d@[tp],
                    ) by {
                        if tp < t {
                            assert(d@[tp] == d0[tp]);
                            assert(nearest_sq_upto(
                                *grid,
                                oi + 1,
                                grid.cells@[tp].x as int,
                                grid.cells@[tp].y as int,
                                d0[tp],
                            ));
                        } else {
                            let v0: u32 = d0[tp];
                            let v: u32 = d@[tp];
                            assert(nearest_sq_upto(*grid, oi, tx_, ty_, v0));
                            // lower bound over occupied cells scanned so far
                            assert forall|i: int|
                                0 <= i < oi + 1 && (#[trigger] grid.cells@[i]).entities@.len() > 0
                                    implies v <= dist_sq(
                                    tx_,
                                    ty_,
                                    grid.cells@[i].x as int,
                                    grid.cells@[i].y as int,
                                ) by {
                                if i < oi {
                                    assert(v0 <= dist_sq(
                                        tx_,
                                        ty_,
                                        grid.cells@[i].x as int,
                                        grid.cells@[i].y as int,
                                    ));
                                }
                            }
                            // the minimum is attained
                            if v == dist {
                                assert(grid.cells@[oi].entities@.len() > 0 && v == dist_sq(
                                    tx_,
                                    ty_,
                                    grid.cells@[oi].x as int,
                                    grid.cells@[oi].y as int,
                                ));
                            } else {
                                assert(v == v0 && v0 <= dist);
                                assert(v0 != DIST_SENTINEL);
                            }
                        }
                    }
                }
                t = t + 1;
            }
        } else {
            proof {
                let oi: int = o as int;
                assert forall|tp: int|
                    0 <= tp < n implies nearest_sq_upto(
                    *grid,
                    oi + 1,
                    grid.cells@[tp].x as int,
                    grid.cells@[tp].y as int,
                    #[trigger] d@[tp],
                ) by {
                    assert(nearest_sq_upto(
                        *grid,
                        oi,
                        grid.cells@[tp].x as int,
                        grid.cells@[tp].y as int,
                        d@[tp],
                    ));
                    assert(grid.cells@[oi].entities@.len() == 0);
                }
            }
        }
        o = o + 1;
    }
    let f = DistanceField { rows: grid.rows, cols: grid.cols, d };
    proof {
        assert forall|x: int, y: int| grid.in_bounds(x, y) implies nearest_sq(
            *grid,
            x,
            y,
            #[trigger] f.at(x, y),
        ) && (f.at(x, y) == 0 <==> grid.occupied(x, y)) by {
            grid.lemma_cell_index(x, y);
            let t: int = y * grid.cols + x;
            assert(nearest_sq_upto(
                *grid,
                n as int,
                grid.cells@[t].x as int,
                grid.cells@[t].y as int,
                d@[t],
            ));
            assert(f.at(x, y) == d@[t]);
            lemma_upto_full(*grid, x, y, f.at(x, y));
            lemma_nearest_zero(*grid, x, y, f.at(x, y));
        }
    }
    f
}

} // verus!
