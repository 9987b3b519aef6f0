//! Pulse feature-extraction pipeline for transition-edge-sensor detector data.
//!
//! Waveform samples are IEEE-754 binary64 values, carried everywhere as their
//! 64-bit patterns (`u64`), so that the windowing, search and cache logic can
//! be verified while the arithmetic itself is delegated to `rustc_apfloat`.
#![allow(non_snake_case)]

pub mod assoc;
pub mod bytesplit;
pub mod config;
pub mod data_processor;
pub mod digits;
pub mod errors;
pub mod extract;
pub mod fbits;
pub mod filter;
pub mod names;
pub mod processor;
pub mod registry;
pub mod table;
pub mod waveform;
