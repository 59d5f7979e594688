//! Cutting data into chunks and block devices into extents.
pub mod block_device;
pub mod cdc;
pub mod content;
pub mod fixed_size;
pub mod streaming;
