pub mod chunk;
pub mod coord;
mod key;
pub mod world;

pub use chunk::{Chunk, CHUNK_SIZE};
pub use coord::Coord;
pub use world::World;
