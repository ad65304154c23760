//! Decoder, parser and interpreter for the PCB repair container format used
//! by two vendor board-view tools.
//!
//! The pipeline has three stages:
//!
//! 1. [`decoder`]: undoes the optional stream encryption, locates the two
//!    zlib-compressed payloads inside the container, and decompresses them.
//! 2. [`parser`]: turns the decompressed byte payloads into typed records.
//! 3. [`interpreter`]: normalizes parsed pin records into per-component
//!    footprints in millimeters, centered on each component's own origin.
//!
//! The [`crypto`] module holds the keystream cipher the decoder relies on,
//! and [`decimal`] the exact fixed-point number type the coordinates use.

pub mod crypto;
pub mod decimal;
pub mod decoder;
pub mod interpreter;
pub mod parser;
