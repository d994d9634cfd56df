//! Composition planning for rendering a non-linear video timeline through an
//! external transcoder: filter-graph construction, timeline classification,
//! render plans with progress checkpoints and cleanup, and the timing model
//! that maps merged transcription audio back onto the timeline.
//!
//! All times are carried as whole milliseconds. They are written as seconds
//! with three decimals inside filter-graph timing parameters, and in their
//! shortest decimal form as plain arguments (`-ss 0.5`, `-t 2`).

pub mod text;
pub mod timeline;
pub mod error;
pub mod filters;
pub mod encoder;
pub mod timing;
pub mod toolchain;
pub mod planner;
pub mod metadata;
pub mod transcription;
pub mod models;
