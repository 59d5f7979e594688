//! Verified core of the lazarus backup tool.
pub mod agent;
pub mod bytes;
pub mod capture;
pub mod catalog;
pub mod chunking;
pub mod commands;
pub mod compression;
pub mod config;
pub mod encryption;
pub mod error;
pub mod integrity;
pub mod paths;
pub mod primitives;
pub mod reading;
pub mod security;
pub mod snapshot;
pub mod storage;
pub mod text;
