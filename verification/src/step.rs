//! Named step vectors for two-axis and three-axis buffers: ergonomic
//! presets for the step-vector parameter of the relative-move operations.

pub mod step2d;
pub mod step3d;
