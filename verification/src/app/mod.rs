//! The application: its settings, its queue of files, and what happens to them.
pub mod badframes;
pub mod config;
pub mod model;
pub mod paths;
pub mod persist;
pub mod plots;
pub mod probing;
pub mod queue;
pub mod results;
pub mod run;
pub mod start;
pub mod table;
pub mod toast;
