//! Core logic of a layered image-sequence filter application: the project
//! status model, the filter catalogue and its parameter layout, the frame
//! scheduler and the per-frame compute-pass plan.

pub mod util;
pub mod fluctus;
pub mod status;
pub mod filters;
pub mod gui;
pub mod model;
