use darwin::advance_turn;
use darwin::collect_entities;
use darwin::count_entities;
use darwin::init_entities;
use darwin::play;
use darwin::resolve;
use darwin::Cell;
use darwin::Chromosome;
use darwin::Entity;
use darwin::Grid;

fn chrom(s: u32) -> Chromosome {
    Chromosome { strength: s, aggressive: 50, agility: 50 }
}

fn place(grid: &mut Grid, x: u32, y: u32, c: Chromosome) {
    let idx = (y * grid.cols + x) as usize;
    grid.cells[idx].entities.push(Entity::new(x, y, c));
}

fn assert_valid(grid: &Grid) -> usize {
    assert_eq!(grid.cells.len(), (grid.rows * grid.cols) as usize);
    let mut count = 0;
    for (o, cell) in grid.cells.iter().enumerate() {
        assert_eq!(o as u32, cell.y * grid.cols + cell.x);
        assert!(cell.entities.len() <= 1);
        for e in &cell.entities {
            assert_eq!((e.x, e.y), (cell.x, cell.y));
            assert!(e.chromosome.strength <= 100);
            assert!(e.chromosome.aggressive <= 100);
            assert!(e.chromosome.agility <= 100);
            count += 1;
        }
    }
    count
}

#[test]
fn combat_keeps_the_stronger_of_two() {
    let mut cell = Cell {
        x: 2,
        y: 1,
        entities: vec![Entity::new(2, 1, chrom(5)), Entity::new(2, 1, chrom(10))],
    };
    resolve(&mut cell);
    assert_eq!(cell.entities.len(), 1);
    assert_eq!(cell.entities[0].chromosome.strength, 10);
    assert_eq!((cell.x, cell.y), (2, 1));
}

#[test]
fn combat_leaves_small_cells_alone() {
    let mut empty = Cell { x: 0, y: 0, entities: Vec::new() };
    resolve(&mut empty);
    assert!(empty.entities.is_empty());
    let lone = Entity::new(3, 4, chrom(7));
    let mut single = Cell { x: 3, y: 4, entities: vec![lone] };
    resolve(&mut single);
    assert_eq!(single.entities, vec![lone]);
}

#[test]
fn combat_tie_keeps_one_of_the_tied() {
    for _ in 0..20 {
        let mut cell = Cell {
            x: 0,
            y: 0,
            entities: vec![
                Entity::new(0, 0, chrom(7)),
                Entity::new(0, 0, chrom(7)),
                Entity::new(0, 0, chrom(3)),
            ],
        };
        resolve(&mut cell);
        assert_eq!(cell.entities.len(), 1);
        assert_eq!(cell.entities[0].chromosome.strength, 7);
    }
}

#[test]
fn a_lone_slow_entity_moves_exactly_one_cell() {
    for _ in 0..10 {
        let mut grid = Grid::new(8, 8).unwrap();
        let slow = Chromosome { strength: 50, aggressive: 50, agility: 0 };
        place(&mut grid, 4, 4, slow);
        play(&mut grid);
        let survivors: Vec<Entity> = grid
            .cells
            .iter()
            .flat_map(|cell| cell.entities.iter().copied())
            .collect();
        assert_eq!(survivors.len(), 1);
        let e = survivors[0];
        assert_eq!(e.x.abs_diff(4) + e.y.abs_diff(4), 1);
        assert_eq!(e.chromosome, slow);
    }
}

#[test]
fn a_lone_agile_entity_moves_two_hops() {
    for _ in 0..10 {
        let mut grid = Grid::new(8, 8).unwrap();
        let agile = Chromosome { strength: 50, aggressive: 50, agility: 100 };
        place(&mut grid, 4, 4, agile);
        play(&mut grid);
        let survivors: Vec<Entity> = grid
            .cells
            .iter()
            .flat_map(|cell| cell.entities.iter().copied())
            .collect();
        assert_eq!(survivors.len(), 1);
        let e = survivors[0];
        let d = e.x.abs_diff(4) + e.y.abs_diff(4);
        assert!(d == 0 || d == 2);
    }
}

#[test]
fn a_played_turn_leaves_at_most_one_entity_per_cell() {
    let mut grid = Grid::new(12, 16).unwrap();
    init_entities(&mut grid, Vec::new());
    for _ in 0..5 {
        play(&mut grid);
        assert_valid(&grid);
    }
}

#[test]
fn counting_and_collecting_scan_in_row_major_order() {
    let mut grid = Grid::new(4, 4).unwrap();
    place(&mut grid, 3, 0, chrom(1));
    place(&mut grid, 0, 2, chrom(2));
    place(&mut grid, 2, 2, chrom(3));
    assert_eq!(count_entities(&grid), 3);
    let all = collect_entities(&grid);
    let strengths: Vec<u32> = all.iter().map(|e| e.chromosome.strength).collect();
    assert_eq!(strengths, vec![1, 2, 3]);
}

#[test]
fn a_collapsed_population_triggers_a_reseed() {
    let mut grid = Grid::new(20, 32).unwrap();
    place(&mut grid, 0, 0, chrom(10));
    place(&mut grid, 10, 10, chrom(20));
    place(&mut grid, 31, 19, chrom(30));
    let count = advance_turn(&mut grid);
    // at most the three placed entities survive combat, so the grid reseeds;
    // combat never wipes out a populated grid entirely
    assert!(1 <= count && count <= 3);
    let reseeded = assert_valid(&grid);
    // 640 cells at spawn odds 1/4: an empty reseed is practically impossible
    assert!(reseeded > 0);
    // every reseeded chromosome is one mutation step from a survivor's:
    // strengths came from {10, 20, 30}, the other traits from 50
    for cell in &grid.cells {
        for e in &cell.entities {
            assert!(e.chromosome.strength <= 40);
            assert!(40 <= e.chromosome.aggressive && e.chromosome.aggressive <= 59);
            assert!(40 <= e.chromosome.agility && e.chromosome.agility <= 59);
        }
    }
}

#[test]
fn a_healthy_population_reports_its_exact_count() {
    let mut grid = Grid::new(20, 32).unwrap();
    init_entities(&mut grid, Vec::new());
    let count = advance_turn(&mut grid);
    let present = assert_valid(&grid);
    assert!(count <= 4 || count == present);
}
