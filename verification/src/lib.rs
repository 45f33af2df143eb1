//! A library for hiding, retrieving and removing custom data chunks in PNG
//! files at the chunk level, without touching the rest of the image.
//!
//! The core is the binary chunk and container model: chunk-type validation,
//! chunk encoding and decoding with checksum verification, and the container
//! that parses a whole file into an ordered chunk sequence and serializes it
//! back byte for byte.

pub mod bytes_be;
pub mod checksum;
pub mod chunk;
pub mod chunk_type;
pub mod commands;
pub mod errors;
pub mod png;
pub mod text;
