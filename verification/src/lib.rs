//! Incremental synchronization of exercise-activity recordings into a
//! compact, versioned geospatial dataset.
//!
//! The library holds the verified core: the fingerprint that detects
//! changed activities, the content-addressable change-detection index,
//! the diff engine that splits a fresh catalog into carried-forward and
//! must-fetch activities, the recording-to-track conversion with
//! gap-based segmentation, the pipeline's staging and counting
//! decisions, and the archive finalizer that filters the prior dataset
//! and merges staged work — with the laws that tie them together: the
//! partition is complete, deletion happens by omission, every outcome is
//! counted once, a finalized dataset and index never diverge, and a
//! second run over an unchanged catalog changes nothing.

pub mod activity;
pub mod archive;
pub mod convert;
pub mod finalize;
pub mod index;
pub mod json;
pub mod jwt;
pub mod messages;
pub mod pipeline;
pub mod plan;
pub mod stats;
pub mod status;
pub mod text;
