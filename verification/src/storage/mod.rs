//! Where chunks are kept: keys, paths and retention.
pub mod backend;
pub mod chunks;
pub mod local;
pub mod rclone_wrapper;
pub mod s3;
pub mod ssh;
