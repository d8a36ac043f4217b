use darwin::choose_destination;
use darwin::padded_neighbors;
use darwin::Chromosome;
use darwin::DistanceField;
use darwin::Entity;

fn chrom(aggressive: u32, agility: u32) -> Chromosome {
    Chromosome { strength: 50, aggressive, agility }
}

/// A 3x3 field (row-major): the unique nearest neighbor of (1, 1) is (0, 1),
/// and the unique nearest neighbor of (0, 1) is (0, 0).
fn field_3x3() -> DistanceField {
    DistanceField { rows: 3, cols: 3, d: vec![1, 7, 60, 5, 100, 9, 50, 11, 70] }
}

fn manhattan(a: (u32, u32), b: (u32, u32)) -> u32 {
    a.0.abs_diff(b.0) + a.1.abs_diff(b.1)
}

#[test]
fn padded_list_has_four_entries_everywhere() {
    let f = field_3x3();
    for y in 0..3u32 {
        for x in 0..3u32 {
            let v = padded_neighbors(&f, x, y);
            assert_eq!(v.len(), 4);
            for (nx, ny) in &v {
                assert!(*nx < 3 && *ny < 3);
                assert_eq!(manhattan((*nx, *ny), (x, y)), 1);
            }
        }
    }
}

#[test]
fn padded_corner_repeats_the_farthest_neighbor() {
    let f = field_3x3();
    let v = padded_neighbors(&f, 0, 0);
    assert_eq!(v, vec![(0, 1), (1, 0), (1, 0), (1, 0)]);
}

#[test]
fn low_first_sample_chooses_the_nearest_neighbor() {
    let f = field_3x3();
    assert_eq!(choose_destination(&f, 1, 1, 100, 0, 50, 50), (0, 1));
}

#[test]
fn all_high_samples_choose_the_farthest_neighbor() {
    let f = field_3x3();
    assert_eq!(choose_destination(&f, 1, 1, 0, 99, 99, 99), (1, 2));
}

#[test]
fn cascade_falls_through_to_the_second_nearest() {
    let f = field_3x3();
    assert_eq!(choose_destination(&f, 1, 1, 50, 60, 10, 0), (1, 0));
}

#[test]
fn aggressive_entity_always_seeks_the_nearest_neighbor() {
    let f = field_3x3();
    for _ in 0..50 {
        let mut e = Entity::new(1, 1, chrom(100, 0));
        e.move_entity(&f, true);
        assert_eq!((e.x, e.y), (0, 1));
    }
}

#[test]
fn zero_agility_never_hops_twice() {
    let f = field_3x3();
    for _ in 0..50 {
        let mut e = Entity::new(1, 1, chrom(100, 0));
        e.move_entity(&f, true);
        assert_eq!(manhattan((e.x, e.y), (1, 1)), 1);
    }
}

#[test]
fn full_agility_always_hops_twice() {
    let f = field_3x3();
    for _ in 0..50 {
        let mut e = Entity::new(1, 1, chrom(100, 100));
        e.move_entity(&f, true);
        assert_eq!((e.x, e.y), (0, 0));
        assert_eq!(manhattan((e.x, e.y), (1, 1)) % 2, 0);
    }
}

#[test]
fn agile_entity_hops_once_when_the_turn_flag_is_off() {
    let f = field_3x3();
    for _ in 0..50 {
        let mut e = Entity::new(1, 1, chrom(100, 100));
        e.move_entity(&f, false);
        assert_eq!((e.x, e.y), (0, 1));
    }
}

#[test]
fn movement_stays_in_bounds_on_the_smallest_grid() {
    let f = DistanceField { rows: 2, cols: 2, d: vec![3, 3, 3, 3] };
    for y in 0..2u32 {
        for x in 0..2u32 {
            for _ in 0..25 {
                let mut e = Entity::new(x, y, chrom(37, 80));
                e.move_entity(&f, true);
                assert!(e.x < 2 && e.y < 2);
            }
        }
    }
}
