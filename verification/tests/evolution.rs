use darwin::evolve;
use darwin::mutate;
use darwin::mutate_with;
use darwin::Chromosome;
use darwin::Entity;

fn chrom(s: u32, a: u32, g: u32) -> Chromosome {
    Chromosome { strength: s, aggressive: a, agility: g }
}

#[test]
fn mutate_traits_stay_in_range() {
    let samples = [
        chrom(0, 0, 0),
        chrom(100, 100, 100),
        chrom(50, 50, 50),
        chrom(5, 95, 42),
    ];
    for c in samples {
        for _ in 0..200 {
            let m = mutate(c);
            assert!(m.strength <= 100);
            assert!(m.aggressive <= 100);
            assert!(m.agility <= 100);
        }
    }
}

#[test]
fn mutate_moves_each_trait_at_most_span() {
    let c = chrom(50, 50, 50);
    for _ in 0..200 {
        let m = mutate(c);
        assert!(40 <= m.strength && m.strength <= 59);
        assert!(40 <= m.aggressive && m.aggressive <= 59);
        assert!(40 <= m.agility && m.agility <= 59);
    }
}

#[test]
fn mutate_with_applies_exact_offsets() {
    let c = chrom(50, 50, 50);
    let m = mutate_with(c, -10, 0, 9);
    assert_eq!(m.strength, 40);
    assert_eq!(m.aggressive, 50);
    assert_eq!(m.agility, 59);
}

#[test]
fn mutate_with_clamps_at_both_ends() {
    let low = mutate_with(chrom(3, 0, 1), -10, -1, -10);
    assert_eq!(low.strength, 0);
    assert_eq!(low.aggressive, 0);
    assert_eq!(low.agility, 0);
    let high = mutate_with(chrom(95, 100, 99), 9, 9, 1);
    assert_eq!(high.strength, 100);
    assert_eq!(high.aggressive, 100);
    assert_eq!(high.agility, 100);
}

#[test]
fn evolve_produces_n_copies_per_survivor() {
    let survivors = vec![
        Entity::new(0, 0, chrom(10, 20, 30)),
        Entity::new(1, 0, chrom(40, 50, 60)),
        Entity::new(2, 2, chrom(70, 80, 90)),
    ];
    let pool = evolve(survivors, 5);
    assert_eq!(pool.len(), 15);
    for c in &pool {
        assert!(c.strength <= 100);
        assert!(c.aggressive <= 100);
        assert!(c.agility <= 100);
    }
}

#[test]
fn evolve_groups_offspring_by_survivor() {
    let survivors = vec![
        Entity::new(0, 0, chrom(0, 0, 0)),
        Entity::new(1, 0, chrom(100, 100, 100)),
    ];
    let pool = evolve(survivors, 4);
    assert_eq!(pool.len(), 8);
    for c in &pool[0..4] {
        // offspring of the all-zero chromosome: each trait at most 0 + 9
        assert!(c.strength <= 9 && c.aggressive <= 9 && c.agility <= 9);
    }
    for c in &pool[4..8] {
        // offspring of the all-100 chromosome: each trait at least 100 - 10
        assert!(c.strength >= 90 && c.aggressive >= 90 && c.agility >= 90);
    }
}

#[test]
fn evolve_of_nobody_or_nothing_is_empty() {
    let none: Vec<Entity> = Vec::new();
    assert_eq!(evolve(none, 5).len(), 0);
    let one = vec![Entity::new(0, 0, chrom(1, 2, 3))];
    assert_eq!(evolve(one, 0).len(), 0);
}
