pub mod control;
pub mod world;
