//! Combat resolution and the turn orchestrator: one call moves every entity,
//! resolves every fight, and — when the survivors collapse below the
//! threshold — evolves a mutated offspring pool and reseeds the grid.

use vstd::prelude::*;

use crate::distance::get_distances;
use crate::evolution::evolve;
use crate::game::all_entities;
use crate::evolution::Chromosome;
use crate::game::chrom_count;
use crate::game::chromosome_present;
use crate::game::lemma_chrom_count_member;
use crate::game::lemma_chrom_count_nonneg;
use crate::game::lemma_chrom_count_upto_update;
use crate::game::entities_upto;
use crate::game::lemma_cell_nonempty_upto;
use crate::game::lemma_entity_in_upto;
use crate::game::lemma_upto_index_source;
use crate::evolution::mutated_from;
use crate::movement::moved_from;
use crate::game::lemma_entities_upto_empty;
use crate::game::lemma_entities_upto_len_bound;
use crate::game::lemma_entities_upto_monotone;
use crate::game::lemma_entities_upto_update;
use crate::game::lemma_upto_nonempty_cell;
use crate::game::Cell;
use crate::game::Entity;
use crate::game::Grid;
use crate::game::init_entities;
use crate::rng::rand_below;
use crate::EVOLUTION_THRESHOLD;
use crate::MAX_DIM;
use crate::OFFSPRING_PER_SURVIVOR;

verus! {

/// `e` is a one-turn descendant of some entity of `g0`: it carries that
/// entity's chromosome unchanged and is displaced from it by that entity's
/// hops for the turn.
pub open spec fn descended(g0: Grid, e: Entity) -> bool {
    exists|o: Entity| all_entities(g0).contains(o) && #[trigger] moved_from(e, o)
}

/// `c2` is one mutation step away from a chromosome that some entity of
/// `g0` carries.
pub open spec fn offspring_of(g0: Grid, c2: Chromosome) -> bool {
    exists|c: Chromosome| chromosome_present(g0, c) && #[trigger] mutated_from(c2, c)
}

/// Collapse a multi-occupant cell to a single strongest entity. A cell with
/// fewer than two occupants is untouched; otherwise exactly one occupant of
/// maximal strength survives, ties broken by independent coin flips along
/// the scan.
pub fn resolve(cell: &mut Cell)
    ensures
        final(cell).x == old(cell).x,
        final(cell).y == old(cell).y,
        final(cell).entities@.len() <= 1,
        old(cell).entities@.len() < 2 ==> final(cell).entities@ == old(cell).entities@,
        old(cell).entities@.len() >= 2 ==> {
            &&& final(cell).entities@.len() == 1
            &&& old(cell).entities@.contains(final(cell).entities@[0])
            &&& forall|k: int|
                0 <= k < old(cell).entities@.len() ==> (#[trigger] old(
                    cell,
                ).entities@[k]).chromosome.strength
                    <= final(cell).entities@[0].chromosome.strength
        },
{
    if cell.entities.len() < 2 {
        return ;
    }
    let mut strongest: Entity = cell.entities[0];
    let mut k: usize = 1;
    while k < cell.entities.len()
        invariant
            1 <= k <= cell.entities@.len(),
            cell.entities@ == old(cell).entities@,
            cell.entities@.len() >= 2,
            cell.entities@.contains(strongest),
            forall|i: int|
                0 <= i < k ==> (#[trigger] cell.entities@[i]).chromosome.strength
                    <= strongest.chromosome.strength,
        decreases cell.entities@.len() - k,
    {
        let e = cell.entities[k];
        if e.chromosome.strength > strongest.chromosome.strength {
            strongest = e;
        } else if e.chromosome.strength == strongest.chromosome.strength {
            let winner: u32 = rand_below(2);
            if winner == 1 {
                strongest = e;
            }
        }
        proof {
            assert(cell.entities@[k as int] == e);
        }
        k = k + 1;
    }
    let mut only: Vec<Entity> = Vec::new();
    only.push(strongest);
    cell.entities = only;
}

/// Gather every entity currently on the grid, in row-major scan order.
pub fn collect_entities(grid: &Grid) -> (v: Vec<Entity>)
    ensures
        v@ == all_entities(*grid),
{
    let n: usize = grid.cells.len();
    let mut v: Vec<Entity> = Vec::new();
    let mut o: usize = 0;
    while o < n
        invariant
            o <= n,
            n == grid.cells@.len(),
            v@ == entities_upto(grid.cells@, o as int),
        decreases n - o,
    {
        let mut k: usize = 0;
        while k < grid.cells[o].entities.len()
            invariant
                o < n,
                n == grid.cells@.len(),
                k <= grid.cells@[o as int].entities@.len(),
                v@ == entities_upto(grid.cells@, o as int) + grid.cells@[o as int].entities@
                    .subrange(0, k as int),
            decreases grid.cells@[o as int].entities@.len() - k,
        {
            v.push(grid.cells[o].entities[k]);
            proof {
                assert(grid.cells@[o as int].entities@.subrange(0, k + 1)
                    =~= grid.cells@[o as int].entities@.subrange(0, k as int).push(
                    grid.cells@[o as int].entities@[k as int],
                ));
            }
            k = k + 1;
        }
        proof {
            assert(grid.cells@[o as int].entities@.subrange(
                0,
                grid.cells@[o as int].entities@.len() as int,
            ) =~= grid.cells@[o as int].entities@);
            assert(v@ =~= entities_upto(grid.cells@, o + 1));
        }
        o = o + 1;
    }
    v
}

/// Count the entities currently on the grid.
pub fn count_entities(grid: &Grid) -> (count: usize)
    requires
        all_entities(*grid).len() <= usize::MAX,
    ensures
        count == all_entities(*grid).len(),
{
    let n: usize = grid.cells.len();
    let mut count: usize = 0;
    let mut o: usize = 0;
    while o < n
        invariant
            o <= n,
            n == grid.cells@.len(),
            count == entities_upto(grid.cells@, o as int).len(),
            entities_upto(grid.cells@, n as int).len() <= usize::MAX,
        decreases n - o,
    {
        proof {
            lemma_entities_upto_monotone(grid.cells@, o + 1, n as int);
        }
        count = count + grid.cells[o].entities.len();
        o = o + 1;
    }
    count
}

/// Play one turn on the grid. Every entity is popped from its cell, the
/// distance field is recomputed from the remaining occupancy, and the entity
/// moves (with a possible second hop for agile entities); all moved entities
/// are re-inserted at their destinations; then combat is resolved in every
/// cell, leaving at most one entity per cell.
pub fn play(grid: &mut Grid)
    requires
        old(grid).wf(),
    ensures
        final(grid).wf(),
        final(grid).settled(),
        final(grid).rows == old(grid).rows,
        final(grid).cols == old(grid).cols,
        all_entities(*final(grid)).len() <= all_entities(*old(grid)).len(),
        all_entities(*old(grid)).len() > 0 ==> all_entities(*final(grid)).len() > 0,
        forall|i: int, k: int|
            0 <= i < final(grid).cells@.len() && 0 <= k < final(grid).cells@[i].entities@.len()
                ==> chromosome_present(
                *old(grid),
                (#[trigger] final(grid).cells@[i].entities@[k]).chromosome,
            ),
        forall|i: int, k: int|
            0 <= i < final(grid).cells@.len() && 0 <= k < final(grid).cells@[i].entities@.len()
                ==> descended(*old(grid), (#[trigger] final(grid).cells@[i].entities@[k])),
        forall|c: Chromosome|
            #[trigger] chrom_count(all_entities(*final(grid)), c) <= chrom_count(
                all_entities(*old(grid)),
                c,
            ),
{
    let n: usize = grid.cells.len();
    let mut moved: Vec<Entity> = Vec::new();
    proof {
        assert forall|i: int, k: int|
            0 <= i < n && 0 <= k < grid.cells@[i].entities@.len() implies all_entities(
            *old(grid),
        ).contains(#[trigger] grid.cells@[i].entities@[k]) by {
            lemma_entity_in_upto(grid.cells@, i, k, n as int);
        }
    }
    let mut o: usize = 0;
    while o < n
        invariant
            o <= n,
            n == grid.cells@.len(),
            grid.wf(),
            grid.rows == old(grid).rows,
            grid.cols == old(grid).cols,
            moved@.len() + all_entities(*grid).len() == all_entities(*old(grid)).len(),
            forall|c: Chromosome|
                chrom_count(moved@, c) + chrom_count(all_entities(*grid), c) == #[trigger]
                    chrom_count(all_entities(*old(grid)), c),
            forall|i: int| 0 <= i < o ==> (#[trigger] grid.cells@[i]).entities@.len() == 0,
            forall|i: int, k: int|
                0 <= i < n && 0 <= k < grid.cells@[i].entities@.len() ==> chromosome_present(
                    *old(grid),
                    (#[trigger] grid.cells@[i].entities@[k]).chromosome,
                ),
            forall|i: int, k: int|
                0 <= i < n && 0 <= k < grid.cells@[i].entities@.len() ==> all_entities(
                    *old(grid),
                ).contains(#[trigger] grid.cells@[i].entities@[k]),
            forall|m: int|
                0 <= m < moved@.len() ==> (#[trigger] moved@[m]).x < grid.cols && moved@[m].y
                    < grid.rows && moved@[m].chromosome.wf() && chromosome_present(
                    *old(grid),
                    moved@[m].chromosome,
                ),
            forall|m: int| 0 <= m < moved@.len() ==> descended(*old(grid), #[trigger] moved@[m]),
        decreases n - o,
    {
        while grid.cells[o].entities.len() > 0
            invariant
                o < n,
                n == grid.cells@.len(),
                grid.wf(),
                grid.rows == old(grid).rows,
                grid.cols == old(grid).cols,
                moved@.len() + all_entities(*grid).len() == all_entities(*old(grid)).len(),
                forall|c: Chromosome|
                    chrom_count(moved@, c) + chrom_count(all_entities(*grid), c) == #[trigger]
                        chrom_count(all_entities(*old(grid)), c),
                forall|i: int| 0 <= i < o ==> (#[trigger] grid.cells@[i]).entities@.len() == 0,
                forall|i: int, k: int|
                    0 <= i < n && 0 <= k < grid.cells@[i].entities@.len() ==> chromosome_present(
                        *old(grid),
                        (#[trigger] grid.cells@[i].entities@[k]).chromosome,
                    ),
                forall|i: int, k: int|
                    0 <= i < n && 0 <= k < grid.cells@[i].entities@.len() ==> all_entities(
                        *old(grid),
                    ).contains(#[trigger] grid.cells@[i].entities@[k]),
                forall|m: int|
                    0 <= m < moved@.len() ==> (#[trigger] moved@[m]).x < grid.cols && moved@[m].y
                        < grid.rows && moved@[m].chromosome.wf() && chromosome_present(
                        *old(grid),
                        moved@[m].chromosome,
                    ),
                forall|m: int|
                    0 <= m < moved@.len() ==> descended(*old(grid), #[trigger] moved@[m]),
            decreases grid.cells@[o as int].entities@.len(),
        {
            proof {
                assert(grid.wf_cell(o as int));
            }
            let ghost g0 = *grid;
            let popped = grid.cells[o].entities.pop();
            proof {
                assert(grid.cells@ == g0.cells@.update(o as int, grid.cells@[o as int]));
                lemma_entities_upto_update(
                    g0.cells@,
                    o as int,
                    grid.cells@[o as int],
                    n as int,
                );
                assert forall|i: int| 0 <= i < grid.cells@.len() implies #[trigger] grid.wf_cell(
                    i,
                ) by {
                    assert(g0.wf_cell(i));
                    if i != o {
                        assert(grid.cells@[i] == g0.cells@[i]);
                    }
                }
                assert forall|i: int, k: int|
                    0 <= i < n && 0 <= k
                        < grid.cells@[i].entities@.len() implies chromosome_present(
                    *old(grid),
                    (#[trigger] grid.cells@[i].entities@[k]).chromosome,
                ) && all_entities(*old(grid)).contains(grid.cells@[i].entities@[k]) by {
                    if i == o {
                        assert(grid.cells@[i].entities@[k] == g0.cells@[i].entities@[k]);
                    } else {
                        assert(grid.cells@[i] == g0.cells@[i]);
                    }
                    assert(chromosome_present(*old(grid), g0.cells@[i].entities@[k].chromosome));
                    assert(all_entities(*old(grid)).contains(g0.cells@[i].entities@[k]));
                }
            }
            match popped {
                Some(e) => {
                    proof {
                        assert(e == g0.cells@[o as int].entities@[g0.cells@[o as int].entities@
                            .len() - 1]);
                        assert(chromosome_present(*old(grid), e.chromosome));
                        assert(all_entities(*old(grid)).contains(e));
                    }
                    let ghost e0 = e;
                    let mut e = e;
                    let f = get_distances(grid);
                    e.move_entity(&f, true);
                    proof {
                        assert(moved_from(e, e0));
                        assert(descended(*old(grid), e));
                    }
                    let ghost moved0 = moved@;
                    moved.push(e);
                    proof {
                        assert forall|c: Chromosome|
                            chrom_count(moved@, c) + chrom_count(all_entities(*grid), c)
                                == #[trigger] chrom_count(all_entities(*old(grid)), c) by {
                            lemma_chrom_count_upto_update(
                                g0.cells@,
                                o as int,
                                grid.cells@[o as int],
                                n as int,
                                c,
                            );
                            assert(grid.cells@[o as int].entities@ =~= g0.cells@[o as int]
                                .entities@.drop_last());
                            assert(moved@.drop_last() =~= moved0);
                            assert(moved@.last() == e);
                        }
                    }
                },
                None => {},
            }
        }
        o = o + 1;
    }
    proof {
        lemma_entities_upto_empty(grid.cells@, n as int);
        assert(moved@.len() == all_entities(*old(grid)).len());
        assert forall|c: Chromosome| #[trigger] chrom_count(moved@, c) == chrom_count(
            all_entities(*old(grid)),
            c,
        ) by {
            assert(all_entities(*grid).len() == 0);
            assert(chrom_count(all_entities(*grid), c) == 0);
        }
    }
    let mut m: usize = 0;
    while m < moved.len()
        invariant
            m <= moved@.len(),
            n == grid.cells@.len(),
            grid.wf(),
            grid.rows == old(grid).rows,
            grid.cols == old(grid).cols,
            moved@.len() == all_entities(*old(grid)).len(),
            all_entities(*grid).len() == m,
            forall|c: Chromosome|
                #[trigger] chrom_count(moved@, c) == chrom_count(all_entities(*old(grid)), c),
            forall|c: Chromosome|
                chrom_count(all_entities(*grid), c) == #[trigger] chrom_count(
                    moved@.subrange(0, m as int),
                    c,
                ),
            forall|i: int, k: int|
                0 <= i < n && 0 <= k < grid.cells@[i].entities@.len() ==> chromosome_present(
                    *old(grid),
                    (#[trigger] grid.cells@[i].entities@[k]).chromosome,
                ),
            forall|i: int, k: int|
                0 <= i < n && 0 <= k < grid.cells@[i].entities@.len() ==> descended(
                    *old(grid),
                    (#[trigger] grid.cells@[i].entities@[k]),
                ),
            forall|i: int|
                0 <= i < moved@.len() ==> (#[trigger] moved@[i]).x < grid.cols && moved@[i].y
                    < grid.rows && moved@[i].chromosome.wf() && chromosome_present(
                    *old(grid),
                    moved@[i].chromosome,
                ),
            forall|i: int| 0 <= i < moved@.len() ==> descended(*old(grid), #[trigger] moved@[i]),
        decreases moved@.len() - m,
    {
        let e = moved[m];
        proof {
            grid.lemma_cell_index(e.x as int, e.y as int);
            assert(e.y * grid.cols + e.x < MAX_DIM * MAX_DIM) by (nonlinear_arith)
                requires
                    e.x < grid.cols,
                    e.y < grid.rows,
                    grid.cols <= MAX_DIM,
                    grid.rows <= MAX_DIM,
            ;
        }
        let idx: usize = (e.y * grid.cols + e.x) as usize;
        let ghost g0 = *grid;
        grid.cells[idx].entities.push(e);
        proof {
            assert(grid.cells@ == g0.cells@.update(idx as int, grid.cells@[idx as int]));
            lemma_entities_upto_update(g0.cells@, idx as int, grid.cells@[idx as int], n as int);
            assert forall|c: Chromosome|
                chrom_count(all_entities(*grid), c) == #[trigger] chrom_count(
                moved@.subrange(0, m + 1),
                c,
            ) by {
                lemma_chrom_count_upto_update(
                    g0.cells@,
                    idx as int,
                    grid.cells@[idx as int],
                    n as int,
                    c,
                );
                assert(chrom_count(all_entities(g0), c) == chrom_count(
                    moved@.subrange(0, m as int),
                    c,
                ));
                assert(grid.cells@[idx as int].entities@.drop_last() =~= g0.cells@[idx as int]
                    .entities@);
                assert(grid.cells@[idx as int].entities@.last() == e);
                assert(moved@.subrange(0, m + 1).drop_last() =~= moved@.subrange(0, m as int));
                assert(moved@.subrange(0, m + 1).last() == e);
            }
            assert forall|i: int| 0 <= i < grid.cells@.len() implies #[trigger] grid.wf_cell(
                i,
            ) by {
                assert(g0.wf_cell(i));
                if i != idx {
                    assert(grid.cells@[i] == g0.cells@[i]);
                }
            }
            assert forall|i: int, k: int|
                0 <= i < n && 0 <= k < grid.cells@[i].entities@.len() implies chromosome_present(
                *old(grid),
                (#[trigger] grid.cells@[i].entities@[k]).chromosome,
            ) && descended(*old(grid), grid.cells@[i].entities@[k]) by {
                if i == idx && k == grid.cells@[i].entities@.len() - 1 {
                    assert(grid.cells@[i].entities@[k] == e);
                    assert(e == moved@[m as int]);
                } else if i == idx {
                    assert(grid.cells@[i].entities@[k] == g0.cells@[i].entities@[k]);
                    assert(chromosome_present(
                        *old(grid),
                        g0.cells@[i].entities@[k].chromosome,
                    ));
                } else {
                    assert(grid.cells@[i] == g0.cells@[i]);
                    assert(chromosome_present(
                        *old(grid),
                        g0.cells@[i].entities@[k].chromosome,
                    ));
                }
            }
        }
        m = m + 1;
    }
    proof {
        if all_entities(*old(grid)).len() > 0 {
            lemma_upto_nonempty_cell(grid.cells@, n as int);
        }
        assert forall|c: Chromosome| #[trigger] chrom_count(all_entities(*grid), c)
            <= chrom_count(all_entities(*old(grid)), c) by {
            assert(moved@.subrange(0, moved@.len() as int) =~= moved@);
            assert(chrom_count(all_entities(*grid), c) == chrom_count(
                moved@.subrange(0, moved@.len() as int),
                c,
            ));
        }
    }
    let mut o2: usize = 0;
    while o2 < n
        invariant
            o2 <= n,
            n == grid.cells@.len(),
            grid.wf(),
            grid.rows == old(grid).rows,
            grid.cols == old(grid).cols,
            all_entities(*grid).len() <= all_entities(*old(grid)).len(),
            forall|c: Chromosome|
                #[trigger] chrom_count(all_entities(*grid), c) <= chrom_count(
                    all_entities(*old(grid)),
                    c,
                ),
            all_entities(*old(grid)).len() > 0 ==> exists|i: int|
                0 <= i < n && (#[trigger] grid.cells@[i]).entities@.len() > 0,
            forall|i: int, k: int|
                0 <= i < n && 0 <= k < grid.cells@[i].entities@.len() ==> chromosome_present(
                    *old(grid),
                    (#[trigger] grid.cells@[i].entities@[k]).chromosome,
                ),
            forall|i: int, k: int|
                0 <= i < n && 0 <= k < grid.cells@[i].entities@.len() ==> descended(
                    *old(grid),
                    (#[trigger] grid.cells@[i].entities@[k]),
                ),
            forall|i: int|
                0 <= i < o2 ==> (#[trigger] grid.cells@[i]).entities@.len() <= 1,
        decreases n - o2,
    {
        proof {
            assert(grid.wf_cell(o2 as int));
        }
        let ghost g0 = *grid;
        resolve(&mut grid.cells[o2]);
        proof {
            assert(grid.cells@ == g0.cells@.update(o2 as int, grid.cells@[o2 as int]));
            lemma_entities_upto_update(g0.cells@, o2 as int, grid.cells@[o2 as int], n as int);
            assert forall|c: Chromosome| #[trigger] chrom_count(all_entities(*grid), c)
                <= chrom_count(all_entities(*old(grid)), c) by {
                lemma_chrom_count_upto_update(
                    g0.cells@,
                    o2 as int,
                    grid.cells@[o2 as int],
                    n as int,
                    c,
                );
                assert(chrom_count(all_entities(g0), c) <= chrom_count(
                    all_entities(*old(grid)),
                    c,
                ));
                let c0 = g0.cells@[o2 as int];
                let cc = grid.cells@[o2 as int];
                if c0.entities@.len() >= 2 {
                    assert(cc.entities@.drop_last().len() == 0);
                    assert(chrom_count(cc.entities@.drop_last(), c) == 0);
                    if cc.entities@[0].chromosome == c {
                        let w: int = choose|w: int|
                            0 <= w < c0.entities@.len() && c0.entities@[w] == cc.entities@[0];
                        lemma_chrom_count_member(c0.entities@, w, c);
                    } else {
                        lemma_chrom_count_nonneg(c0.entities@, c);
                    }
                } else {
                    assert(cc.entities@ == c0.entities@);
                }
            }
            assert forall|i: int| 0 <= i < grid.cells@.len() implies #[trigger] grid.wf_cell(
                i,
            ) by {
                assert(g0.wf_cell(i));
                if i != o2 {
                    assert(grid.cells@[i] == g0.cells@[i]);
                } else {
                    let c0 = g0.cells@[i];
                    let c = grid.cells@[i];
                    if c0.entities@.len() >= 2 {
                        let w: int = choose|w: int|
                            0 <= w < c0.entities@.len() && c0.entities@[w] == c.entities@[0];
                        assert(c0.entities@[w].x == c0.x);
                    }
                }
            }
            assert forall|i: int, k: int|
                0 <= i < n && 0 <= k < grid.cells@[i].entities@.len() implies chromosome_present(
                *old(grid),
                (#[trigger] grid.cells@[i].entities@[k]).chromosome,
            ) && descended(*old(grid), grid.cells@[i].entities@[k]) by {
                if i == o2 {
                    let c0 = g0.cells@[i];
                    let c = grid.cells@[i];
                    if c0.entities@.len() >= 2 {
                        let w: int = choose|w: int|
                            0 <= w < c0.entities@.len() && c0.entities@[w] == c.entities@[0];
                        assert(grid.cells@[i].entities@[k] == c0.entities@[w]);
                        assert(chromosome_present(*old(grid), c0.entities@[w].chromosome));
                    } else {
                        assert(grid.cells@[i].entities@[k] == g0.cells@[i].entities@[k]);
                        assert(chromosome_present(
                            *old(grid),
                            g0.cells@[i].entities@[k].chromosome,
                        ));
                    }
                } else {
                    assert(grid.cells@[i] == g0.cells@[i]);
                    assert(chromosome_present(
                        *old(grid),
                        g0.cells@[i].entities@[k].chromosome,
                    ));
                }
            }
            if all_entities(*old(grid)).len() > 0 {
                let j: int = choose|j: int| 0 <= j < n && (#[trigger] g0.cells@[j]).entities@.len() > 0;
                if j == o2 {
                    assert(grid.cells@[j].entities@.len() > 0);
                } else {
                    assert(grid.cells@[j] == g0.cells@[j]);
                    assert(grid.cells@[j].entities@.len() > 0);
                }
            }
        }
        o2 = o2 + 1;
    }
    proof {
        if all_entities(*old(grid)).len() > 0 {
            let j: int = choose|j: int| 0 <= j < n && (#[trigger] grid.cells@[j]).entities@.len() > 0;
            lemma_cell_nonempty_upto(grid.cells@, j, n as int);
        }
    }
}

/// Advance one full turn: play movement and combat, count the survivors,
/// and when no more than `EVOLUTION_THRESHOLD` remain, evolve
/// `OFFSPRING_PER_SURVIVOR` mutated chromosomes per survivor and reseed the
/// grid with that pool. Returns the survivor count observed after combat.
pub fn advance_turn(grid: &mut Grid) -> (count: usize)
    requires
        old(grid).wf(),
    ensures
        final(grid).wf(),
        final(grid).settled(),
        final(grid).rows == old(grid).rows,
        final(grid).cols == old(grid).cols,
        count <= all_entities(*old(grid)).len(),
        all_entities(*old(grid)).len() > 0 ==> count > 0,
        count > EVOLUTION_THRESHOLD ==> count == all_entities(*final(grid)).len(),
        count > EVOLUTION_THRESHOLD ==> forall|i: int, k: int|
            0 <= i < final(grid).cells@.len() && 0 <= k < final(grid).cells@[i].entities@.len()
                ==> chromosome_present(
                *old(grid),
                (#[trigger] final(grid).cells@[i].entities@[k]).chromosome,
            ),
        0 < count <= EVOLUTION_THRESHOLD ==> forall|i: int, k: int|
            0 <= i < final(grid).cells@.len() && 0 <= k < final(grid).cells@[i].entities@.len()
                ==> offspring_of(
                *old(grid),
                (#[trigger] final(grid).cells@[i].entities@[k]).chromosome,
            ),
        0 < count <= EVOLUTION_THRESHOLD ==> exists|pool: Seq<Chromosome>|
            {
                &&& #[trigger] pool.len() == count * OFFSPRING_PER_SURVIVOR
                &&& forall|j: int| 0 <= j < pool.len() ==> offspring_of(
                    *old(grid),
                    #[trigger] pool[j],
                )
                &&& forall|i: int, k: int|
                    0 <= i < final(grid).cells@.len() && 0 <= k
                        < final(grid).cells@[i].entities@.len() ==> pool.contains(
                        (#[trigger] final(grid).cells@[i].entities@[k]).chromosome,
                    )
            },
{
    play(grid);
    let n: usize = grid.cells.len();
    proof {
        lemma_entities_upto_len_bound(grid.cells@, n as int);
    }
    let count: usize = count_entities(grid);
    if count <= EVOLUTION_THRESHOLD {
        let survivors = collect_entities(grid);
        let pool = evolve(survivors, OFFSPRING_PER_SURVIVOR);
        let ghost g_mid = *grid;
        let ghost pool_v = pool@;
        proof {
            assert forall|j: int| 0 <= j < pool_v.len() implies offspring_of(
                *old(grid),
                #[trigger] pool_v[j],
            ) by {
                let ops = OFFSPRING_PER_SURVIVOR as int;
                let i = j / ops;
                let b = j % ops;
                assert(j == ops * i + b && 0 <= b < ops);
                assert(0 <= i < survivors@.len()) by (nonlinear_arith)
                    requires
                        j == ops * i + b,
                        0 <= b < ops,
                        ops > 0,
                        0 <= j < survivors@.len() * ops,
                ;
                assert(mutated_from(pool_v[i * ops + b], survivors@[i].chromosome));
                lemma_upto_index_source(g_mid.cells@, g_mid.cells@.len() as int, i);
                let (ci, ck): (int, int) = choose|ci: int, ck: int|
                    0 <= ci < g_mid.cells@.len() && 0 <= ck < g_mid.cells@[ci].entities@.len()
                        && (#[trigger] g_mid.cells@[ci].entities@[ck]) == all_entities(g_mid)[i];
                assert(chromosome_present(*old(grid), survivors@[i].chromosome));
                assert(mutated_from(pool_v[j], survivors@[i].chromosome));
            }
        }
        init_entities(grid, pool);
        proof {
            if count > 0 {
                assert(pool_v.len() > 0);
                assert forall|i: int, k: int|
                    0 <= i < grid.cells@.len() && 0 <= k
                        < grid.cells@[i].entities@.len() implies offspring_of(
                    *old(grid),
                    (#[trigger] grid.cells@[i].entities@[k]).chromosome,
                ) && pool_v.contains(grid.cells@[i].entities@[k].chromosome) by {
                    assert(pool_v.contains(grid.cells@[i].entities@[k].chromosome));
                    let w: int = choose|w: int|
                        0 <= w < pool_v.len() && pool_v[w] == grid.cells@[i].entities@[k]
                            .chromosome;
                    assert(offspring_of(*old(grid), pool_v[w]));
                }
                assert(pool_v.len() == count * OFFSPRING_PER_SURVIVOR);
            }
        }
    }
    count
}

} // verus!
