pub mod api;
pub mod automaton;
pub mod errors;
pub mod ordered;
pub mod presets;
pub mod simulation;
pub mod world;
