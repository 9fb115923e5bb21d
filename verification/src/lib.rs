//! Procedural classification of a two-dimensional world.
//!
//! Named noise fields are sampled at positions of the plane, and every tile of
//! a grid is given the category whose rule fits the sampled values most
//! tightly, or none where every rule rejects them. Tiles are generated in
//! chunks of fifty by fifty, on demand, and a chunk that was generated is kept
//! until the scale of the grid changes.
//!
//! All quantities are whole numbers. World positions, tile sizes, noise values
//! and the ranges of the rules are counted in units that the caller fixes; the
//! noise itself is a function that the caller hands in, from a noise field and
//! a position to the field's value there.
//!
//! Every function of this crate is verified against its contract. The
//! contracts speak of a `Generator` through its list of noises, its list of
//! rules and its sampler, and of a `WorldGenerator` through its scale and its
//! map from chunk coordinates to tiles. The module `laws` states what follows
//! for sequences of calls.

pub mod chunk;
pub mod error;
pub mod generator;
pub mod laws;
pub mod named;
pub mod noise_parameters;
pub mod tile_generation;
pub mod types;
pub mod view;
pub mod world;

pub use crate::chunk::{ChunkGeneration, Tile};
pub use crate::error::GenerationError;
pub use crate::generator::{GenerationParameter, Generator, CHUNK_HEIGHT, CHUNK_WIDTH};
pub use crate::noise_parameters::{NoiseField, NoiseParameters};
pub use crate::tile_generation::{ParameterRange, TileGeneration};
pub use crate::types::{Area, Vector2};
pub use crate::view::GenerationView;
pub use crate::world::{tile_to_chunk_pos, GenerationScale, WorldGenerator};
