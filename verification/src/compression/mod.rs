//! Chunk compression.
pub mod adaptive;
