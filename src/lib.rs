//! Sharp-frame selection: sharpness scoring of luma rasters, score thresholds
//! and temporally spaced frame selection, with the decisions of the batch
//! orchestration that drives them.
//!
//! Sharpness is kept in thousandths of the Laplacian variance, as an integer,
//! so that thresholds and selections are exact.
pub mod stats;
pub mod sharpness;
pub mod threshold;
pub mod analysis;
pub mod gpu;
pub mod settings;
pub mod preview;
pub mod probe;
