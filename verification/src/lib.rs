//! Client-side batch media-inference pipeline library.
//!
//! The library walks a work set of camera-trap media files, samples and
//! re-encodes frames, correlates detection responses from a streaming
//! remote-procedure peer back to their frames, and checkpoints the
//! accumulated per-frame records to a single export artifact.

pub mod csv;
pub mod export;
pub mod json;
pub mod media;
pub mod pipeline;
pub mod utils;

use vstd::prelude::*;

verus! {

/// The artifact format chosen for the export.
#[derive(Clone, Copy, PartialEq, Eq, Structural, Debug)]
pub enum ExportFormat {
    Json,
    Csv,
}

/// Why a run refuses to start.
#[derive(Clone, Copy, PartialEq, Eq, Structural, Debug)]
pub enum ConfigError {
    ZeroCheckpoint,
    InvalidUrl,
    MissingFolder,
}

/// The knobs of one run. The detection thresholds and the encoder quality
/// are carried as the raw bit patterns of the caller's binary fractions:
/// the pipeline itself never reads them, it only hands them on.
pub struct Config {
    pub folder: Vec<u8>,
    pub url: Vec<u8>,
    pub token: Vec<u8>,
    pub max_frames: Option<usize>,
    pub iframe_only: bool,
    pub iou_bits: u32,
    pub conf_bits: u32,
    pub quality_bits: u32,
    pub export: ExportFormat,
    pub checkpoint: usize,
    pub resume_from: Option<Vec<u8>>,
    pub buffer_path: Option<Vec<u8>>,
    pub buffer_size: usize,
}

impl Config {
    /// A run may only start with a positive checkpoint interval.
    pub fn validate(&self) -> (r: Result<(), ConfigError>)
        ensures
            r is Ok <==> self.checkpoint > 0,
            r is Err ==> r == Result::<(), ConfigError>::Err(ConfigError::ZeroCheckpoint),
    {
        if self.checkpoint == 0 {
            Err(ConfigError::ZeroCheckpoint)
        } else {
            Ok(())
        }
    }
}

} // verus!
