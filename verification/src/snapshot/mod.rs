//! Taking, tracking and removing snapshots.
pub mod block_image;
pub mod block_tracker;
pub mod btrfs;
pub mod dedup;
pub mod hooks;
pub mod lvm;
pub mod manager;
pub mod snapshotter;
pub mod zfs;
