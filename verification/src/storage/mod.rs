pub mod correction;
pub mod library;
pub mod preset;
pub mod store;

pub use preset::PresetRef;
