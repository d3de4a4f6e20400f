//! A verified codec for the GDSII stream format.
//!
//! The stream is a flat sequence of self-delimiting binary records
//! (length, record-type tag, data-type tag, payload).  This crate reads
//! such a stream into a `Library` / `Structure` / `Element` object model
//! and writes the model back out, bit-exactly for every field it
//! understands.  Real numbers use the format's excess-64, base-16
//! floating-point layout; they are carried here as IEEE-754 bit
//! patterns and converted by verified integer arithmetic.

pub mod constants;
pub mod decoder;
pub mod encoder;
pub mod laws;
pub mod model;
pub mod reals;
pub mod record;
pub mod utils;
