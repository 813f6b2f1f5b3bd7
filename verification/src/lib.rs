//! # platypus-core
//!
//! The backend for Platypus — a location-first manager for Uniden scanners
//! (first target: SDS150) and clone-image handhelds (FT-60R).
//!
//! - [`format`] — the lossless, model-agnostic sentence layer: raw card bytes to
//!   tab-split lines with their exact terminators, and back byte-for-byte.
//! - [`device`] — the model-specific layer (profiles, the FT-60 image codec).
//! - [`model`], [`extract`], [`favorites`], [`display`], [`card`] — typed views,
//!   system extraction, the favorites dialect, display settings, card index logic.
//! - [`provider`], [`rr`], [`synthesize`] — the canonical channel model, the
//!   RadioReference mappings, and favorites synthesized from programmable systems.
//! - [`serial`] — the remote-command codec; [`ui`] — ids, filters and the
//!   scan/avoid tree a browsing UI works with; [`library`] — favorites built from
//!   channels picked across a loaded library; [`catalog`] — the channel-level
//!   catalog of a document; [`browse`] — a system's filter-passing channel rows;
//!   [`memories`] — FT-60 memories as form codes.
//! - [`text`] — the string primitives the rest is built from.

pub mod error;
pub mod text;
pub mod format;
pub mod device;
pub mod model;
pub mod extract;
pub mod favorites;
pub mod display;
pub mod card;
pub mod provider;
pub mod rr;
pub mod synthesize;
pub mod serial;
pub mod ui;
pub mod library;
pub mod catalog;
pub mod memories;
pub mod browse;

pub use error::{Error, Result};
