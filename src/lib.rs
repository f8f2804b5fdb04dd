//! A multi-line live looper: circular loop buffers with gain and feedback,
//! paired into panned stereo lines and mixed block by block.
//!
//! Samples and gains are signed 16.16 fixed-point numbers held in `i32`:
//! the value `UNITY` stands for 1.0.
mod fixed;
pub mod loop_line;
pub mod stereo_line;
pub mod bank;
pub mod laws;
pub mod control;

pub use bank::process_block;
pub use control::{control_name, control_param, line_index, resolve_address, ControlName};
pub use fixed::{blend_sample, floor_div, mul_gain, sat_add, UNITY};
pub use loop_line::LoopLine;
pub use stereo_line::{Param, StereoLine};
