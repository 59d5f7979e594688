//! Checking stored data against recorded hashes.
pub mod merkle;
