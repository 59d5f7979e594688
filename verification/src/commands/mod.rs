//! The decisions behind the commands of the tool.
pub mod backup;
pub mod block_restore;
pub mod config;
pub mod journal;
pub mod list;
pub mod prune;
pub mod prune_run;
pub mod recording;
pub mod recover;
pub mod restore;
pub mod retention;
pub mod round_trip;
pub mod snapshot_utils;
pub mod system_snapshot;
pub mod verify;
