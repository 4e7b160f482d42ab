//! Core of a multi-format archive utility: format-chain resolution from
//! stacked file-name suffixes, structural legality checks over chains,
//! planning of compression / decompression / listing operations, and the
//! diagnostic-message buffering that the logging thread runs.
//!
//! File names and paths are handled as byte sequences, as the operating
//! system hands them over; the surrounding binary converts at the edge.

pub mod check;
pub mod error;
pub mod evaluator;
pub mod extension;
pub mod message;
pub mod pipeline;
