pub mod presets;

pub use presets::Preset;
