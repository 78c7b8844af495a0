//! Processor support.
pub mod aarch64;
