//! Seeded, difficulty-tunable generator of arithmetic-circuit challenges.
//!
//! A difficulty level is scaled into a [`CircuitConfig`]; a seed string and a
//! configuration are expanded, deterministically, into circuit source text.
pub mod calibration;
pub mod circuit;
pub mod config;
mod entropy;
pub mod generator;
pub mod structure;

pub use config::{difficulty_to_config, CircuitConfig};
pub use generator::generate_circom_code;
