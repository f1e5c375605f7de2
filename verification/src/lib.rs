//! A constraint-propagation tile generator ("wave collapse").
//!
//! Each cell of a grid starts with the full catalogue of tile descriptors as
//! its domain. The collapse engine repeatedly commits one cell to a single
//! tile, prunes the neighbouring domains so they stay consistent with that
//! commitment, and moves on to the uncollapsed cell with the fewest remaining
//! possibilities, until every cell holds exactly one tile.

pub mod grid;
pub mod laws;
pub mod rng;
pub mod tile;
