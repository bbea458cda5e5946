//! An incremental build pipeline for fixture sources.
//!
//! The pipeline scans a source directory, fingerprints each recognized
//! source file, skips units whose cache marker is already present, and
//! for the remaining units synthesizes a build manifest, checks the
//! toolchain outcomes, filters the export table of every compiled
//! module down to a fixed allow-list, and pairs each normalized binary
//! with its cache marker for an atomic commit.
pub mod entries;
pub mod errors;
pub mod exports;
pub mod fingerprint;
pub mod leb128;
pub mod manifest;
pub mod pipeline;
pub mod postprocess;
pub mod toolchain;
pub mod wasm;
pub mod weights;
