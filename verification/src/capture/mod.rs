//! Capturing what a host is, so that it can be set up again on a blank disk.
pub mod bootloader;
pub mod disk_layout;
pub mod listings;
pub mod network;
pub mod packages;
pub mod persist;
pub mod secrets;
pub mod system;
pub mod users;
pub mod util;
