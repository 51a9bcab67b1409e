pub mod rule;

pub use rule::{GameOfLife, Rule};
