//! The logic of a desktop tool that compares distorted videos against a
//! reference and plots per-frame quality metrics.
pub mod app;
pub mod binaries;
pub mod json;
pub mod metrics;
pub mod num;
pub mod order;
pub mod outside;
pub mod plot;
pub mod preview;
pub mod probe;
pub mod state;
pub mod text;
