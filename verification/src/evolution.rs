//! Chromosomes and the mutation-based evolution of entities.

use vstd::prelude::*;

use crate::game::Entity;
use crate::rng::rand_offset;
use crate::MUTATION_SPAN;
use crate::TRAIT_MAX;

verus! {

/// An immutable triple of bounded numeric traits governing an entity's
/// behavior. A new chromosome is produced only by mutation, never changed in
/// place.
#[derive(Copy, Clone, PartialEq, Eq, Structural, Debug)]
pub struct Chromosome {
    pub strength: u32,
    pub aggressive: u32,
    pub agility: u32,
}

impl Chromosome {
    /// Every trait lies in the closed range `[0, TRAIT_MAX]`.
    pub open spec fn wf(self) -> bool {
        &&& self.strength <= TRAIT_MAX
        &&& self.aggressive <= TRAIT_MAX
        &&& self.agility <= TRAIT_MAX
    }
}

/// A trait value shifted by `d` and clamped into `[0, TRAIT_MAX]`.
pub open spec fn clamped(t: int, d: int) -> int {
    if t + d < 0 {
        0
    } else if t + d > TRAIT_MAX {
        TRAIT_MAX as int
    } else {
        t + d
    }
}

/// `post` can result from `pre` by one mutation step: each trait was moved by
/// some offset in `[-MUTATION_SPAN, MUTATION_SPAN)` and clamped into
/// `[0, TRAIT_MAX]`.
pub open spec fn mutated_from(post: Chromosome, pre: Chromosome) -> bool {
    &&& clamped(pre.strength as int, -MUTATION_SPAN) <= post.strength
        <= clamped(pre.strength as int, MUTATION_SPAN - 1)
    &&& clamped(pre.aggressive as int, -MUTATION_SPAN) <= post.aggressive
        <= clamped(pre.aggressive as int, MUTATION_SPAN - 1)
    &&& clamped(pre.agility as int, -MUTATION_SPAN) <= post.agility
        <= clamped(pre.agility as int, MUTATION_SPAN - 1)
}

/// Shift one trait by `d` and clamp the result into `[0, TRAIT_MAX]`.
fn clamp_trait(t: u32, d: i32) -> (r: u32)
    ensures
        r == clamped(t as int, d as int),
{
    let v: i64 = t as i64 + d as i64;
    if v < 0 {
        0
    } else if v > TRAIT_MAX as i64 {
        TRAIT_MAX
    } else {
        v as u32
    }
}

/// Apply the given offsets to the three traits of `genes`, clamping each
/// result into `[0, TRAIT_MAX]`.
pub fn mutate_with(genes: Chromosome, ds: i32, da: i32, dg: i32) -> (r: Chromosome)
    ensures
        r.strength == clamped(genes.strength as int, ds as int),
        r.aggressive == clamped(genes.aggressive as int, da as int),
        r.agility == clamped(genes.agility as int, dg as int),
        r.wf(),
{
    let strength = clamp_trait(genes.strength, ds);
    let aggressive = clamp_trait(genes.aggressive, da);
    let agility = clamp_trait(genes.agility, dg);
    Chromosome { strength, aggressive, agility }
}

/// Mutate a chromosome: each trait independently receives a uniform offset
/// from `[-MUTATION_SPAN, MUTATION_SPAN)` and is clamped into
/// `[0, TRAIT_MAX]`.
pub fn mutate(genes: Chromosome) -> (r: Chromosome)
    ensures
        mutated_from(r, genes),
        r.wf(),
{
    let ds: i32 = rand_offset(MUTATION_SPAN);
    let da: i32 = rand_offset(MUTATION_SPAN);
    let dg: i32 = rand_offset(MUTATION_SPAN);
    mutate_with(genes, ds, da, dg)
}

/// Given the surviving entities, evolve a new chromosome pool: exactly `n`
/// independently mutated copies of every survivor's chromosome, grouped by
/// survivor and concatenated in order.
pub fn evolve(entities: Vec<Entity>, n: usize) -> (pool: Vec<Chromosome>)
    requires
        entities@.len() * n <= usize::MAX,
    ensures
        pool@.len() == entities@.len() * n,
        forall|i: int, j: int|
            0 <= i < entities@.len() && 0 <= j < n ==> mutated_from(
                #[trigger] pool@[i * n + j],
                entities@[i].chromosome,
            ),
        forall|k: int| 0 <= k < pool@.len() ==> (#[trigger] pool@[k]).wf(),
{
    let mut pool: Vec<Chromosome> = Vec::new();
    let mut i: usize = 0;
    while i < entities.len()
        invariant
            i <= entities@.len(),
            entities@.len() * n <= usize::MAX,
            pool@.len() == i * n,
            forall|a: int, b: int|
                0 <= a < i && 0 <= b < n ==> mutated_from(
                    #[trigger] pool@[a * n + b],
                    entities@[a].chromosome,
                ),
            forall|k: int| 0 <= k < pool@.len() ==> (#[trigger] pool@[k]).wf(),
        decreases entities@.len() - i,
    {
        assert((i + 1) * n == i * n + n) by (nonlinear_arith);
        assert((i + 1) * n <= entities@.len() * n) by (nonlinear_arith)
            requires
                i + 1 <= entities@.len(),
                n >= 0,
        ;
        let mut j: usize = 0;
        while j < n
            invariant
                i < entities@.len(),
                j <= n,
                i * n + n <= usize::MAX,
                pool@.len() == i * n + j,
                forall|a: int, b: int|
                    0 <= a < i && 0 <= b < n ==> mutated_from(
                        #[trigger] pool@[a * n + b],
                        entities@[a].chromosome,
                    ),
                forall|b: int|
                    0 <= b < j ==> mutated_from(
                        #[trigger] pool@[i * n + b],
                        entities@[i as int].chromosome,
                    ),
                forall|k: int| 0 <= k < pool@.len() ==> (#[trigger] pool@[k]).wf(),
            decreases n - j,
        {
            let c = mutate(entities[i].chromosome);
            pool.push(c);
            proof {
                assert forall|a: int, b: int|
                    0 <= a < i && 0 <= b < n implies mutated_from(
                    #[trigger] pool@[a * n + b],
                    entities@[a].chromosome,
                ) by {
                    assert(a * n + b < i * n) by (nonlinear_arith)
                        requires
                            0 <= a < i,
                            0 <= b < n,
                    ;
                }
            }
            j += 1;
        }
        proof {
            assert forall|a: int, b: int|
                0 <= a < i + 1 && 0 <= b < n implies mutated_from(
                #[trigger] pool@[a * n + b],
                entities@[a].chromosome,
            ) by {
                if a == i {
                    assert(mutated_from(pool@[i as int * n + b], entities@[i as int].chromosome));
                }
            }
        }
        i += 1;
    }
    pool
}

} // verus!
