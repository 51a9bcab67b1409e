pub mod simulation;

pub use simulation::{Simulation, SimulationCommand, SimulationState};
