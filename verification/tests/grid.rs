use darwin::clear_cells;
use darwin::init_entities;
use darwin::Chromosome;
use darwin::Entity;
use darwin::Grid;
use darwin::GridError;

fn chrom(s: u32, a: u32, g: u32) -> Chromosome {
    Chromosome { strength: s, aggressive: a, agility: g }
}

/// Structural checks on a seeded or resolved grid: row-major layout, at most
/// one entity per cell, every entity at its own cell with traits in range.
fn assert_valid(grid: &Grid) -> usize {
    assert_eq!(grid.cells.len(), (grid.rows * grid.cols) as usize);
    let mut count = 0;
    for (o, cell) in grid.cells.iter().enumerate() {
        assert_eq!(o as u32, cell.y * grid.cols + cell.x);
        assert!(cell.x < grid.cols && cell.y < grid.rows);
        assert!(cell.entities.len() <= 1);
        for e in &cell.entities {
            assert_eq!((e.x, e.y), (cell.x, cell.y));
            assert!(e.chromosome.strength <= 100);
            assert!(e.chromosome.aggressive <= 100);
            assert!(e.chromosome.agility <= 100);
            count += 1;
        }
    }
    count
}

#[test]
fn new_builds_row_major_empty_grid() {
    let grid = Grid::new(20, 32).unwrap();
    assert_eq!(grid.rows, 20);
    assert_eq!(grid.cols, 32);
    assert_eq!(grid.cells.len(), 640);
    for (o, cell) in grid.cells.iter().enumerate() {
        assert_eq!(cell.x, (o as u32) % 32);
        assert_eq!(cell.y, (o as u32) / 32);
        assert!(cell.entities.is_empty());
    }
}

#[test]
fn new_rejects_degenerate_dimensions() {
    assert_eq!(Grid::new(1, 5).unwrap_err(), GridError::DimensionsTooSmall);
    assert_eq!(Grid::new(5, 0).unwrap_err(), GridError::DimensionsTooSmall);
    assert_eq!(Grid::new(1, 1).unwrap_err(), GridError::DimensionsTooSmall);
    assert_eq!(Grid::new(20000, 5).unwrap_err(), GridError::DimensionsTooLarge);
    assert_eq!(Grid::new(5, 20000).unwrap_err(), GridError::DimensionsTooLarge);
}

#[test]
fn clear_cells_empties_every_cell() {
    let mut grid = Grid::new(10, 10).unwrap();
    init_entities(&mut grid, Vec::new());
    clear_cells(&mut grid);
    for cell in &grid.cells {
        assert!(cell.entities.is_empty());
    }
}

#[test]
fn seeding_with_empty_pool_twice_is_valid_both_times() {
    let mut grid = Grid::new(20, 32).unwrap();
    init_entities(&mut grid, Vec::new());
    let first = assert_valid(&grid);
    // 640 cells at spawn odds 1/4: a fully empty grid is practically impossible
    assert!(first > 0);
    init_entities(&mut grid, Vec::new());
    let second = assert_valid(&grid);
    assert!(second > 0);
}

#[test]
fn random_seeding_draws_traits_below_the_bound() {
    let mut grid = Grid::new(20, 32).unwrap();
    init_entities(&mut grid, Vec::new());
    for cell in &grid.cells {
        for e in &cell.entities {
            assert!(e.chromosome.strength < 100);
            assert!(e.chromosome.aggressive < 100);
            assert!(e.chromosome.agility < 100);
        }
    }
}

#[test]
fn seeding_with_a_pool_assigns_only_pool_chromosomes() {
    let pool = vec![chrom(1, 2, 3), chrom(4, 5, 6)];
    let mut grid = Grid::new(20, 32).unwrap();
    init_entities(&mut grid, pool.clone());
    assert_valid(&grid);
    for cell in &grid.cells {
        for e in &cell.entities {
            assert!(pool.contains(&e.chromosome));
        }
    }
}

#[test]
fn seeding_assigns_the_pool_in_round_robin_scan_order() {
    let pool = vec![chrom(1, 2, 3), chrom(4, 5, 6), chrom(7, 8, 9)];
    let mut grid = Grid::new(20, 32).unwrap();
    init_entities(&mut grid, pool.clone());
    let mut k = 0;
    for cell in &grid.cells {
        for e in &cell.entities {
            assert_eq!(e.chromosome, pool[k % pool.len()]);
            k += 1;
        }
    }
    assert!(k > 0);
}

#[test]
fn entity_new_stores_its_arguments() {
    let e = Entity::new(3, 7, chrom(9, 8, 7));
    assert_eq!(e.x, 3);
    assert_eq!(e.y, 7);
    assert_eq!(e.chromosome, chrom(9, 8, 7));
}
