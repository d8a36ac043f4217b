use darwin::get_distances;
use darwin::Chromosome;
use darwin::Entity;
use darwin::Grid;

fn chrom() -> Chromosome {
    Chromosome { strength: 50, aggressive: 50, agility: 50 }
}

fn place(grid: &mut Grid, x: u32, y: u32) {
    let idx = (y * grid.cols + x) as usize;
    grid.cells[idx].entities.push(Entity::new(x, y, chrom()));
}

fn at(f: &darwin::DistanceField, x: u32, y: u32) -> u32 {
    f.d[(y * f.cols + x) as usize]
}

#[test]
fn empty_grid_yields_the_sentinel_everywhere() {
    let grid = Grid::new(4, 4).unwrap();
    let f = get_distances(&grid);
    assert_eq!(f.rows, 4);
    assert_eq!(f.cols, 4);
    for v in &f.d {
        assert_eq!(*v, u32::MAX);
    }
}

#[test]
fn single_entity_gives_exact_squared_distances() {
    let mut grid = Grid::new(6, 6).unwrap();
    place(&mut grid, 2, 3);
    let f = get_distances(&grid);
    assert_eq!(at(&f, 2, 3), 0);
    assert_eq!(at(&f, 2, 4), 1);
    assert_eq!(at(&f, 3, 3), 1);
    assert_eq!(at(&f, 4, 5), 8);
    assert_eq!(at(&f, 0, 0), 13);
    assert_eq!(at(&f, 5, 0), 18);
}

#[test]
fn several_entities_give_the_minimum() {
    let mut grid = Grid::new(5, 8).unwrap();
    place(&mut grid, 0, 0);
    place(&mut grid, 7, 4);
    let f = get_distances(&grid);
    assert_eq!(at(&f, 0, 0), 0);
    assert_eq!(at(&f, 7, 4), 0);
    assert_eq!(at(&f, 1, 1), 2);
    assert_eq!(at(&f, 6, 4), 1);
    // equidistant-ish middle cell: min(16 + 4, 9 + 4) = 13
    assert_eq!(at(&f, 4, 2), 13);
}

#[test]
fn field_is_zero_exactly_on_occupied_cells() {
    let mut grid = Grid::new(4, 5).unwrap();
    place(&mut grid, 1, 1);
    place(&mut grid, 4, 3);
    let f = get_distances(&grid);
    for y in 0..4u32 {
        for x in 0..5u32 {
            let occupied = (x, y) == (1, 1) || (x, y) == (4, 3);
            assert_eq!(at(&f, x, y) == 0, occupied);
        }
    }
}
