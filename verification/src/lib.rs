//! Adaptive interpolation search for the encoder quality value that meets a
//! minimum quality score and a maximum output-size ratio.
//!
//! The search works in a linearised coordinate space produced by a monotonic
//! [`transform::Transform`]; quality scores and size ratios are carried as
//! fixed-point integers in thousandths, so every decision the controller makes
//! is exact integer arithmetic.

pub mod encoders;
pub mod ffmpeg;
pub mod progress;
pub mod sample;
pub mod search;
pub mod ssim_args;
pub mod ssim_parser;
pub mod text;
pub mod transform;
