//! Scoring of bullet holes on a photographed paper target.
//!
//! All quantities are integers in fixed units: positions and lengths in
//! milli-pixels, physical lengths in micrometres, calibration in pixels per
//! metre, scores in tenths of a point.
pub mod engine;
pub mod frame;
pub mod geometry;
pub mod processor;
pub mod scoring;
pub mod tracker;
