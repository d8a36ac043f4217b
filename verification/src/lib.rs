//! A turn-based, grid-resident multi-agent simulation: entities with bounded
//! genetic traits move across a 2D grid biased by a distance field, fight
//! when co-located, and are replaced by a mutated descendant population once
//! the survivors collapse below a threshold.

use vstd::prelude::*;

pub mod distance;
pub mod evolution;
pub mod game;
pub mod movement;
mod rng;
pub mod turn;

pub use distance::get_distances;
pub use distance::DistanceField;
pub use evolution::evolve;
pub use evolution::mutate;
pub use evolution::mutate_with;
pub use evolution::Chromosome;
pub use game::clear_cells;
pub use game::init_entities;
pub use game::Cell;
pub use game::Entity;
pub use game::Grid;
pub use game::GridError;
pub use movement::choose_destination;
pub use movement::padded_neighbors;
pub use turn::advance_turn;
pub use turn::collect_entities;
pub use turn::count_entities;
pub use turn::play;
pub use turn::resolve;

verus! {

/// Upper bound on each grid dimension, so that squared distances and
/// row-major indices stay well inside `u32`.
pub const MAX_DIM: u32 = 16384;

/// Every trait of a chromosome lies in the closed range `[0, TRAIT_MAX]`.
pub const TRAIT_MAX: u32 = 100;

/// Largest magnitude of a mutation offset: each trait is shifted by a draw
/// from `[-MUTATION_SPAN, MUTATION_SPAN)`.
pub const MUTATION_SPAN: i32 = 10;

/// A cell spawns an entity during seeding with probability `1 / SPAWN_ONE_IN`.
pub const SPAWN_ONE_IN: u32 = 4;

/// An entity hops a second time in one turn only if its agility exceeds this.
pub const AGILITY_GATE: u32 = 50;

/// A turn ends with evolution and reseeding when at most this many survive.
pub const EVOLUTION_THRESHOLD: usize = 4;

/// How many mutated copies of each survivor's chromosome evolution produces.
pub const OFFSPRING_PER_SURVIVOR: usize = 5;

/// Distance-field value of a cell when the grid holds no entity at all.
pub const DIST_SENTINEL: u32 = u32::MAX;

} // verus!
