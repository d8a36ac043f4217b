//! The grid-world data model: entities, cells, the grid itself, and seeding.

use vstd::prelude::*;

use crate::evolution::Chromosome;
use crate::rng::rand_below;
use crate::MAX_DIM;
use crate::SPAWN_ONE_IN;
use crate::TRAIT_MAX;

verus! {

/// A positioned, trait-bearing agent occupying exactly one cell at a time.
#[derive(Copy, Clone, PartialEq, Eq, Structural, Debug)]
pub struct Entity {
    pub x: u32,
    pub y: u32,
    pub chromosome: Chromosome,
}

impl Entity {
    pub fn new(x: u32, y: u32, chromosome: Chromosome) -> (e: Entity)
        ensures
            e.x == x,
            e.y == y,
            e.chromosome == chromosome,
    {
        Entity { x, y, chromosome }
    }
}

/// An addressable grid location and the entities currently occupying it.
#[derive(Clone, Debug)]
pub struct Cell {
    pub x: u32,
    pub y: u32,
    pub entities: Vec<Entity>,
}

/// A configuration error found when a grid is constructed.
#[derive(Copy, Clone, PartialEq, Eq, Structural, Debug)]
pub enum GridError {
    /// A dimension is below 2, so some cell would have fewer than 2 neighbors.
    DimensionsTooSmall,
    /// A dimension exceeds `MAX_DIM`.
    DimensionsTooLarge,
}

/// A fixed-dimension rectangular array of cells, held as a contiguous
/// row-major buffer indexed by `y * cols + x`.
#[derive(Clone, Debug)]
pub struct Grid {
    pub rows: u32,
    pub cols: u32,
    pub cells: Vec<Cell>,
}

impl Grid {
    /// Both dimensions lie in `[2, MAX_DIM]`.
    pub open spec fn dims_ok(self) -> bool {
        &&& 2 <= self.rows <= MAX_DIM
        &&& 2 <= self.cols <= MAX_DIM
    }

    pub open spec fn in_bounds(self, x: int, y: int) -> bool {
        &&& 0 <= x < self.cols
        &&& 0 <= y < self.rows
    }

    /// The cell at coordinates `(x, y)`.
    pub open spec fn cell_at(self, x: int, y: int) -> Cell {
        self.cells@[y * self.cols + x]
    }

    /// Cell `(x, y)` currently holds at least one entity.
    pub open spec fn occupied(self, x: int, y: int) -> bool {
        self.cell_at(x, y).entities@.len() > 0
    }

    /// Some cell of the grid is occupied.
    pub open spec fn any_occupied(self) -> bool {
        exists|x: int, y: int| self.in_bounds(x, y) && #[trigger] self.occupied(x, y)
    }

    /// The cell stored at row-major position `o` carries its own coordinates,
    /// they agree with `o`, and every resident entity sits at those
    /// coordinates with traits in range.
    pub open spec fn wf_cell(self, o: int) -> bool {
        let c = self.cells@[o];
        &&& c.x < self.cols
        &&& c.y < self.rows
        &&& o == c.y * self.cols + c.x
        &&& forall|k: int|
            0 <= k < c.entities@.len() ==> {
                let e = #[trigger] c.entities@[k];
                &&& e.x == c.x
                &&& e.y == c.y
                &&& e.chromosome.wf()
            }
    }

    /// Structural invariant of the whole grid.
    pub open spec fn wf(self) -> bool {
        &&& self.dims_ok()
        &&& self.cells@.len() == self.rows * self.cols
        &&& forall|o: int| 0 <= o < self.cells@.len() ==> #[trigger] self.wf_cell(o)
    }

    /// Every cell holds at most one entity, as after combat resolution or a
    /// fresh seeding.
    pub open spec fn settled(self) -> bool {
        forall|o: int|
            0 <= o < self.cells@.len() ==> (#[trigger] self.cells@[o]).entities@.len() <= 1
    }

    /// A well-formed grid stores the cell with coordinates `(x, y)` at
    /// row-major position `y * cols + x`.
    pub proof fn lemma_cell_index(self, x: int, y: int)
        requires
            self.wf(),
            self.in_bounds(x, y),
        ensures
            0 <= y * self.cols + x < self.cells@.len(),
            self.cell_at(x, y).x == x,
            self.cell_at(x, y).y == y,
    {
        let o: int = y * self.cols + x;
        assert(0 <= y * self.cols + x < self.rows * self.cols) by (nonlinear_arith)
            requires
                0 <= x < self.cols,
                0 <= y < self.rows,
        ;
        assert(self.wf_cell(o));
        let c = self.cells@[o];
        assert(c.x == x && c.y == y) by (nonlinear_arith)
            requires
                c.y * self.cols + c.x == y * self.cols + x,
                0 <= x < self.cols,
                0 <= c.x < self.cols,
                0 <= y,
                0 <= c.y,
        ;
    }

    /// Build an empty grid of the given dimensions; dimensions outside
    /// `[2, MAX_DIM]` are a configuration error.
    pub fn new(rows: u32, cols: u32) -> (r: Result<Grid, GridError>)
        ensures
            match r {
                Ok(g) => {
                    &&& 2 <= rows <= MAX_DIM
                    &&& 2 <= cols <= MAX_DIM
                    &&& g.rows == rows
                    &&& g.cols == cols
                    &&& g.wf()
                    &&& all_entities(g).len() == 0
                    &&& forall|o: int|
                        0 <= o < g.cells@.len() ==> (#[trigger] g.cells@[o]).entities@.len()
                            == 0
                },
                Err(GridError::DimensionsTooSmall) => rows < 2 || cols < 2,
                Err(GridError::DimensionsTooLarge) => rows >= 2 && cols >= 2 && (rows > MAX_DIM
                    || cols > MAX_DIM),
            },
    {
        if rows < 2 || cols < 2 {
            return Err(GridError::DimensionsTooSmall);
        }
        if rows > MAX_DIM || cols > MAX_DIM {
            return Err(GridError::DimensionsTooLarge);
        }
        let mut cells: Vec<Cell> = Vec::new();
        let mut y: u32 = 0;
        while y < rows
            invariant
                y <= rows,
                2 <= rows <= MAX_DIM,
                2 <= cols <= MAX_DIM,
                cells@.len() == y * cols,
                forall|o: int|
                    0 <= o < cells@.len() ==> {
                        let c = #[trigger] cells@[o];
                        &&& c.x < cols
                        &&& c.y < rows
                        &&& o == c.y * cols + c.x
                        &&& c.entities@.len() == 0
                    },
            decreases rows - y,
        {
            let mut x: u32 = 0;
            while x < cols
                invariant
                    x <= cols,
                    y < rows,
                    2 <= rows <= MAX_DIM,
                    2 <= cols <= MAX_DIM,
                    cells@.len() == y * cols + x,
                    forall|o: int|
                        0 <= o < cells@.len() ==> {
                            let c = #[trigger] cells@[o];
                            &&& c.x < cols
                            &&& c.y < rows
                            &&& o == c.y * cols + c.x
                            &&& c.entities@.len() == 0
                        },
                decreases cols - x,
            {
                proof {
                    assert(y * cols + x + 1 <= rows * cols) by (nonlinear_arith)
                        requires
                            y < rows,
                            x < cols,
                            rows <= MAX_DIM,
                            cols <= MAX_DIM,
                    ;
                }
                cells.push(Cell { x, y, entities: Vec::new() });
                x = x + 1;
            }
            proof {
                assert(y * cols + cols == (y + 1) * cols) by (nonlinear_arith);
            }
            y = y + 1;
        }
        let g = Grid { rows, cols, cells };
        assert forall|o: int| 0 <= o < g.cells@.len() implies #[trigger] g.wf_cell(o) by {
            assert(g.cells@[o].entities@.len() == 0);
        }
        proof {
            lemma_entities_upto_empty(g.cells@, g.cells@.len() as int);
        }
        Ok(g)
    }
}

/// The entities of the first `n` cells, in row-major scan order.
pub open spec fn entities_upto(cells: Seq<Cell>, n: int) -> Seq<Entity>
    decreases n,
{
    if n <= 0 {
        Seq::empty()
    } else {
        entities_upto(cells, n - 1) + cells[n - 1].entities@
    }
}

/// Every entity currently on the grid, in row-major scan order.
pub open spec fn all_entities(g: Grid) -> Seq<Entity> {
    entities_upto(g.cells@, g.cells@.len() as int)
}

/// Some entity of `g` carries chromosome `c`.
pub open spec fn chromosome_present(g: Grid, c: Chromosome) -> bool {
    exists|i: int, k: int|
        0 <= i < g.cells@.len() && 0 <= k < g.cells@[i].entities@.len() && (#[trigger] g.cells@[i]
            .entities@[k]).chromosome == c
}

/// Replacing one cell changes the scan count by that cell's difference.
pub proof fn lemma_entities_upto_update(cells: Seq<Cell>, i: int, c2: Cell, n: int)
    requires
        0 <= i < cells.len(),
        0 <= n <= cells.len(),
    ensures
        entities_upto(cells.update(i, c2), n).len() == entities_upto(cells, n).len() + (if i < n {
            c2.entities@.len() - cells[i].entities@.len()
        } else {
            0
        }),
    decreases n,
{
    if n > 0 {
        lemma_entities_upto_update(cells, i, c2, n - 1);
        if i == n - 1 {
            assert(cells.update(i, c2)[n - 1] == c2);
        } else {
            assert(cells.update(i, c2)[n - 1] == cells[n - 1]);
        }
    }
}

/// Empty cells contribute nothing to the scan count.
pub proof fn lemma_entities_upto_empty(cells: Seq<Cell>, n: int)
    requires
        forall|i: int| 0 <= i < n ==> (#[trigger] cells[i]).entities@.len() == 0,
    ensures
        entities_upto(cells, n).len() == 0,
    decreases n,
{
    if n > 0 {
        lemma_entities_upto_empty(cells, n - 1);
    }
}

/// A positive scan count names a non-empty cell.
pub proof fn lemma_upto_nonempty_cell(cells: Seq<Cell>, n: int)
    requires
        entities_upto(cells, n).len() > 0,
    ensures
        exists|i: int| 0 <= i < n && (#[trigger] cells[i]).entities@.len() > 0,
    decreases n,
{
    if n > 0 && cells[n - 1].entities@.len() == 0 {
        lemma_upto_nonempty_cell(cells, n - 1);
    }
}

/// A non-empty cell makes the scan count positive.
pub proof fn lemma_cell_nonempty_upto(cells: Seq<Cell>, i: int, n: int)
    requires
        0 <= i < n,
        cells[i].entities@.len() > 0,
    ensures
        entities_upto(cells, n).len() > 0,
    decreases n,
{
    if i < n - 1 {
        lemma_cell_nonempty_upto(cells, i, n - 1);
    }
}

/// Occurrences of chromosome `c` among the entities of `s`.
pub open spec fn chrom_count(s: Seq<Entity>, c: Chromosome) -> int
    decreases s.len(),
{
    if s.len() == 0 {
        0
    } else {
        chrom_count(s.drop_last(), c) + (if s.last().chromosome == c {
            1int
        } else {
            0int
        })
    }
}

/// Occurrence counts are never negative.
pub proof fn lemma_chrom_count_nonneg(s: Seq<Entity>, c: Chromosome)
    ensures
        chrom_count(s, c) >= 0,
    decreases s.len(),
{
    if s.len() > 0 {
        lemma_chrom_count_nonneg(s.drop_last(), c);
    }
}

/// Occurrence counts add over concatenation.
pub proof fn lemma_chrom_count_concat(a: Seq<Entity>, b: Seq<Entity>, c: Chromosome)
    ensures
        chrom_count(a + b, c) == chrom_count(a, c) + chrom_count(b, c),
    decreases b.len(),
{
    if b.len() == 0 {
        assert(a + b =~= a);
    } else {
        lemma_chrom_count_concat(a, b.drop_last(), c);
        assert((a + b).drop_last() =~= a + b.drop_last());
        assert((a + b).last() == b.last());
    }
}

/// An entity slot carrying chromosome `c` makes its count positive.
pub proof fn lemma_chrom_count_member(s: Seq<Entity>, w: int, c: Chromosome)
    requires
        0 <= w < s.len(),
        s[w].chromosome == c,
    ensures
        chrom_count(s, c) >= 1,
    decreases s.len(),
{
    if w == s.len() - 1 {
        lemma_chrom_count_nonneg(s.drop_last(), c);
    } else {
        lemma_chrom_count_member(s.drop_last(), w, c);
    }
}

/// Replacing one cell changes a chromosome's scan count by that cell's
/// difference.
pub proof fn lemma_chrom_count_upto_update(
    cells: Seq<Cell>,
    i: int,
    c2: Cell,
    n: int,
    c: Chromosome,
)
    requires
        0 <= i < cells.len(),
        0 <= n <= cells.len(),
    ensures
        chrom_count(entities_upto(cells.update(i, c2), n), c) == chrom_count(
            entities_upto(cells, n),
            c,
        ) + (if i < n {
            chrom_count(c2.entities@, c) - chrom_count(cells[i].entities@, c)
        } else {
            0
        }),
    decreases n,
{
    if n > 0 {
        lemma_chrom_count_upto_update(cells, i, c2, n - 1, c);
        lemma_chrom_count_concat(
            entities_upto(cells.update(i, c2), n - 1),
            cells.update(i, c2)[n - 1].entities@,
            c,
        );
        lemma_chrom_count_concat(entities_upto(cells, n - 1), cells[n - 1].entities@, c);
        if i == n - 1 {
            assert(cells.update(i, c2)[n - 1] == c2);
        } else {
            assert(cells.update(i, c2)[n - 1] == cells[n - 1]);
        }
    }
}

/// Every entity of a cell in the scanned prefix appears in the scan.
pub proof fn lemma_entity_in_upto(cells: Seq<Cell>, i: int, k: int, n: int)
    requires
        0 <= i < n <= cells.len(),
        0 <= k < cells[i].entities@.len(),
    ensures
        entities_upto(cells, n).contains(cells[i].entities@[k]),
    decreases n,
{
    if i == n - 1 {
        assert(entities_upto(cells, n)[entities_upto(cells, n - 1).len() + k] == cells[i]
            .entities@[k]);
    } else {
        lemma_entity_in_upto(cells, i, k, n - 1);
        let w: int = choose|w: int|
            0 <= w < entities_upto(cells, n - 1).len() && #[trigger] entities_upto(cells, n - 1)[w]
                == cells[i].entities@[k];
        assert(entities_upto(cells, n)[w] == cells[i].entities@[k]);
    }
}

/// Every position of the scan names a cell slot it came from.
pub proof fn lemma_upto_index_source(cells: Seq<Cell>, n: int, w: int)
    requires
        0 <= n <= cells.len(),
        0 <= w < entities_upto(cells, n).len(),
    ensures
        exists|i: int, k: int|
            0 <= i < n && 0 <= k < cells[i].entities@.len() && (#[trigger] cells[i].entities@[k])
                == entities_upto(cells, n)[w],
    decreases n,
{
    if n > 0 {
        if w < entities_upto(cells, n - 1).len() {
            lemma_upto_index_source(cells, n - 1, w);
            let (i, k): (int, int) = choose|i: int, k: int|
                0 <= i < n - 1 && 0 <= k < cells[i].entities@.len() && (#[trigger] cells[i]
                    .entities@[k]) == entities_upto(cells, n - 1)[w];
            assert(cells[i].entities@[k] == entities_upto(cells, n)[w]);
        } else {
            let k: int = w - entities_upto(cells, n - 1).len();
            assert(cells[n - 1].entities@[k] == entities_upto(cells, n)[w]);
        }
    }
}

/// A longer scan prefix never holds fewer entities.
pub proof fn lemma_entities_upto_monotone(cells: Seq<Cell>, a: int, b: int)
    requires
        a <= b,
    ensures
        entities_upto(cells, a).len() <= entities_upto(cells, b).len(),
    decreases b,
{
    if a < b && 0 < b {
        lemma_entities_upto_monotone(cells, a, b - 1);
    }
}

/// On a grid whose cells each hold at most one entity, the first `n` cells
/// hold at most `n` entities.
pub proof fn lemma_entities_upto_len_bound(cells: Seq<Cell>, n: int)
    requires
        forall|i: int| 0 <= i < n ==> (#[trigger] cells[i]).entities@.len() <= 1,
    ensures
        entities_upto(cells, n).len() <= (if n >= 0 {
            n
        } else {
            0
        }),
    decreases n,
{
    if n > 0 {
        lemma_entities_upto_len_bound(cells, n - 1);
    }
}

/// Clear the cell grid of any entities.
pub fn clear_cells(grid: &mut Grid)
    requires
        old(grid).wf(),
    ensures
        final(grid).wf(),
        final(grid).rows == old(grid).rows,
        final(grid).cols == old(grid).cols,
        final(grid).cells@.len() == old(grid).cells@.len(),
        forall|o: int|
            0 <= o < final(grid).cells@.len() ==> {
                let c = #[trigger] final(grid).cells@[o];
                &&& c.x == old(grid).cells@[o].x
                &&& c.y == old(grid).cells@[o].y
                &&& c.entities@.len() == 0
            },
{
    let n: usize = grid.cells.len();
    let mut o: usize = 0;
    while o < n
        invariant
            o <= n,
            n == grid.cells@.len(),
            grid.rows == old(grid).rows,
            grid.cols == old(grid).cols,
            grid.wf(),
            forall|i: int|
                o <= i < n ==> #[trigger] grid.cells@[i] == old(grid).cells@[i],
            forall|i: int|
                0 <= i < o ==> {
                    let c = #[trigger] grid.cells@[i];
                    &&& c.x == old(grid).cells@[i].x
                    &&& c.y == old(grid).cells@[i].y
                    &&& c.entities@.len() == 0
                },
        decreases n - o,
    {
        let ghost g0 = *grid;
        grid.cells[o].entities.clear();
        proof {
            assert forall|i: int| 0 <= i < grid.cells@.len() implies #[trigger] grid.wf_cell(i) by {
                assert(g0.wf_cell(i));
                if i != o {
                    assert(grid.cells@[i] == g0.cells@[i]);
                }
            }
        }
        o = o + 1;
    }
}

/// Seed the grid: clear every cell, then spawn one entity per cell with
/// probability `1 / SPAWN_ONE_IN`. When `chromosomes` is empty, each spawned
/// entity's traits are drawn uniformly from `[0, TRAIT_MAX)`; otherwise
/// chromosomes are assigned from the pool in round-robin order, in row-major
/// scan order of the cells.
#[verifier::rlimit(50)]
pub fn init_entities(grid: &mut Grid, chromosomes: Vec<Chromosome>)
    requires
        old(grid).wf(),
        forall|k: int| 0 <= k < chromosomes@.len() ==> (#[trigger] chromosomes@[k]).wf(),
    ensures
        final(grid).wf(),
        final(grid).settled(),
        final(grid).rows == old(grid).rows,
        final(grid).cols == old(grid).cols,
        chromosomes@.len() > 0 ==> forall|o: int, k: int|
            0 <= o < final(grid).cells@.len() && 0 <= k
                < final(grid).cells@[o].entities@.len() ==> chromosomes@.contains(
                (#[trigger] final(grid).cells@[o].entities@[k]).chromosome,
            ),
        chromosomes@.len() > 0 ==> forall|o: int|
            0 <= o < final(grid).cells@.len() && (#[trigger] final(grid).cells@[o]).entities@.len()
                > 0 ==> final(grid).cells@[o].entities@[0].chromosome == chromosomes@[
                entities_upto(final(grid).cells@, o).len() as int % chromosomes@.len() as int
            ],
        chromosomes@.len() == 0 ==> forall|o: int, k: int|
            0 <= o < final(grid).cells@.len() && 0 <= k
                < final(grid).cells@[o].entities@.len() ==> {
                let c = (#[trigger] final(grid).cells@[o].entities@[k]).chromosome;
                c.strength < TRAIT_MAX && c.aggressive < TRAIT_MAX && c.agility < TRAIT_MAX
            },
{
    clear_cells(grid);
    let n: usize = grid.cells.len();
    let mut count: usize = 0;
    let mut o: usize = 0;
    while o < n
        invariant
            o <= n,
            count <= o,
            n == grid.cells@.len(),
            grid.rows == old(grid).rows,
            grid.cols == old(grid).cols,
            grid.wf(),
            forall|k: int| 0 <= k < chromosomes@.len() ==> (#[trigger] chromosomes@[k]).wf(),
            forall|i: int|
                0 <= i < n ==> (#[trigger] grid.cells@[i]).entities@.len() <= (if i < o {
                    1int
                } else {
                    0int
                }),
            chromosomes@.len() > 0 ==> count == entities_upto(grid.cells@, o as int).len(),
            chromosomes@.len() > 0 ==> forall|i: int, k: int|
                0 <= i < n && 0 <= k < grid.cells@[i].entities@.len() ==> chromosomes@.contains(
                    (#[trigger] grid.cells@[i].entities@[k]).chromosome,
                ),
            chromosomes@.len() > 0 ==> forall|i: int|
                0 <= i < n && (#[trigger] grid.cells@[i]).entities@.len() > 0
                    ==> grid.cells@[i].entities@[0].chromosome == chromosomes@[
                    entities_upto(grid.cells@, i).len() as int % chromosomes@.len() as int
                ],
            chromosomes@.len() == 0 ==> forall|i: int, k: int|
                0 <= i < n && 0 <= k < grid.cells@[i].entities@.len() ==> {
                    let c = (#[trigger] grid.cells@[i].entities@[k]).chromosome;
                    c.strength < TRAIT_MAX && c.aggressive < TRAIT_MAX && c.agility < TRAIT_MAX
                },
        decreases n - o,
    {
        let spawn: u32 = rand_below(SPAWN_ONE_IN);
        if spawn == 1 {
            let chromosome: Chromosome;
            if chromosomes.len() == 0 {
                chromosome = Chromosome {
                    strength: rand_below(TRAIT_MAX),
                    aggressive: rand_below(TRAIT_MAX),
                    agility: rand_below(TRAIT_MAX),
                };
            } else {
                chromosome = chromosomes[count % chromosomes.len()];
                count = count + 1;
            }
            proof {
                if chromosomes@.len() > 0 {
                    assert(chromosomes@[(count - 1) % chromosomes@.len() as int] == chromosome);
                    assert(chromosomes@.contains(chromosome));
                }
            }
            let ghost count0 = (count - (if chromosomes@.len() > 0 {
                1int
            } else {
                0int
            }));
            let cx: u32 = grid.cells[o].x;
            let cy: u32 = grid.cells[o].y;
            let entity = Entity::new(cx, cy, chromosome);
            let ghost g0 = *grid;
            grid.cells[o].entities.push(entity);
            proof {
                assert(grid.cells@ == g0.cells@.update(o as int, grid.cells@[o as int]));
                assert forall|i: int| 0 <= i < grid.cells@.len() implies #[trigger] grid.wf_cell(
                    i,
                ) by {
                    assert(g0.wf_cell(i));
                    if i != o {
                        assert(grid.cells@[i] == g0.cells@[i]);
                    }
                }
                if chromosomes@.len() > 0 {
                    assert forall|i: int|
                        0 <= i < n && (#[trigger] grid.cells@[i]).entities@.len() > 0 implies grid
                        .cells@[i].entities@[0].chromosome == chromosomes@[
                        entities_upto(grid.cells@, i).len() as int % chromosomes@.len() as int
                    ] by {
                        lemma_entities_upto_update(g0.cells@, o as int, grid.cells@[o as int], i);
                        if i != o {
                            assert(grid.cells@[i] == g0.cells@[i]);
                        } else {
                            assert(grid.cells@[o as int].entities@[0] == entity);
                            assert(entities_upto(grid.cells@, o as int).len() == count0);
                        }
                    }
                    lemma_entities_upto_update(
                        g0.cells@,
                        o as int,
                        grid.cells@[o as int],
                        o as int,
                    );
                    assert(entities_upto(grid.cells@, o + 1).len() == entities_upto(
                        grid.cells@,
                        o as int,
                    ).len() + 1);
                }
            }
        }
        proof {
            if chromosomes@.len() > 0 {
                assert(entities_upto(grid.cells@, o + 1).len() == entities_upto(
                    grid.cells@,
                    o as int,
                ).len() + grid.cells@[o as int].entities@.len());
            }
        }
        o = o + 1;
    }
}

} // verus!
