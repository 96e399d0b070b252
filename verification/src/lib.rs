//! Production-chain planning for a factory-building game.
//!
//! Given a target resource and a catalog of recipes, the crate resolves the
//! full tree of crafting steps, the raw inputs that feed it, the outputs of
//! every tier, and the production buildings that realise it.

pub mod deposits;
pub mod items;
pub mod machines;
pub mod pipelines;
pub mod recipes;
pub mod resources;
