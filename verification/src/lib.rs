//! Batch driver for an image-generation service: templates describe a base
//! prompt, a pool of prompt variants and optional randomized modifiers; a run
//! samples the pool, resolves each entry to a full parameter record, writes a
//! durable log of the plan, and records the authoritative seed of each image
//! as it is produced. The log supports repairing an interrupted run (resume)
//! and forced regeneration (reroll).
//!
//! All selection, validation, planning and log-reconciliation logic lives
//! here, verified; the HTTP adapter, the file system and the command line
//! stay outside and exchange plain values with this crate.
use vstd::prelude::*;

pub mod codec;
pub mod log;
pub mod params;
pub mod run;
pub mod select;
pub mod template;
pub mod text;
pub mod util;

verus! {

/// Why the generation service rejected a request, as far as the response
/// body lets the run disambiguate it.
#[derive(Debug, Clone, PartialEq, Eq, Structural)]
pub enum GenerationErrorKind {
    /// The requested sampler is not recognized by the service.
    SamplerNotFound,
    /// The requested model checkpoint is not recognized by the service.
    ModelNotFound,
    /// The requested hi-res upscaler is not recognized by the service.
    UpscalerNotFound,
    /// Any other failure.
    Unclassified,
}

/// Everything that can go wrong while running, resuming or rerolling a batch.
#[derive(Debug, Clone)]
pub enum BatchError {
    /// The template asks for more images than its prompt pool holds.
    CountOverflow { count: usize, pool: usize },
    /// A reroll index lies beyond the end of the log.
    InvalidIndex { index: usize, len: usize },
    /// The log's file path has no parent directory to write into.
    InvalidOutputDirectory,
    /// The generation service failed; aborts the enclosing command.
    GenerationFailure { kind: GenerationErrorKind, message: String },
    /// The file system failed while reading or writing a template or log.
    PersistenceFailure { message: String },
}

impl BatchError {
    /// Human-readable description, in place of a `Display` impl.
    pub fn message(&self) -> String {
        match self {
            BatchError::CountOverflow { count: _, pool: _ } => String::from_str(
                "unable to run template, count is too large, it must be less than or equal to the number of prompts",
            ),
            BatchError::InvalidIndex { index: _, len: _ } => String::from_str(
                "unable to run template, the log file contains too few images for that index",
            ),
            BatchError::InvalidOutputDirectory => String::from_str(
                "unable to run template, invalid output directory for log",
            ),
            BatchError::GenerationFailure { kind: _, message } => {
                let mut m = String::from_str("unable to run template, ");
                m.append(message.as_str());
                m
            },
            BatchError::PersistenceFailure { message } => {
                let mut m = String::from_str("unable to run template, ");
                m.append(message.as_str());
                m
            },
        }
    }
}

} // verus!
