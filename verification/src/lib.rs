//! Dominant-color palette extraction.
//!
//! The pipeline bounds and denoises an input image, partitions it into
//! compact color-coherent superpixels, aggregates those into a small set of
//! perceptual color clusters, merges near-duplicate clusters, and composes a
//! per-pixel map from pixels to final clusters. All color arithmetic is
//! fixed-point integer arithmetic over a perceptually uniform space
//! (lightness plus two chroma axes), so every stage is deterministic.

pub mod color;
pub mod cluster;
pub mod config;
pub mod connect;
pub mod error;
pub mod hex;
pub mod img;
pub mod laws;
pub mod merge;
pub mod pipeline;
pub mod preprocess;
pub mod quantize;
pub mod rule;
pub mod slic;
pub mod util;

pub use error::AnalysisError;

pub use config::AnalysisConfig;
pub use pipeline::{
    analyze, analyze_with_events, segmentation_map_u8, visualize, AnalysisEvent, AnalysisResult,
    ColorCluster,
};
pub use quantize::analyze_image_in_memory;
pub use rule::{analyze_60_30_10_rule, ColorData, RuleAnalysis};
