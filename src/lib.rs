//! Motion detection and clip recording for a self-hosted camera.
//!
//! The library holds the decisions of the pipeline: which contours count as
//! motion and when a debounced signal is raised, when a recording session
//! starts and stops, which events the movement log holds, and how a clip is
//! assembled from the fragments of a segmented stream. It also holds the
//! settings and the rules of the single account that guards the feed.

pub mod account;
pub mod assemble;
mod clock;
pub mod config;
pub mod detector;
pub mod log;
pub mod names;
pub mod recorder;
