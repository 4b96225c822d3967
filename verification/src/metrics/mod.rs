//! Metrics: their kinds, cells, statistics and runs.
pub mod badframes;
pub mod cell;
pub mod csv;
pub mod ffmpeg;
pub mod ffvship;
pub mod output;
pub mod psnr;
pub mod results;
pub mod run;
pub mod vmaf;
pub mod vmaf_log;
