pub mod ab;
pub mod band;
pub mod bands;
pub mod pointer;
pub mod tracker;

pub use ab::AbSides;
pub use band::{BandId, BandText, ChannelTarget, FilterKind};
pub use tracker::{BandIds, ChangeTracker};
