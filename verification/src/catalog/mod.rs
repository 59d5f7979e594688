//! What a repository knows of its snapshots.
pub mod history;
pub mod index;
pub mod metadata;
pub mod order;
pub mod removal;
pub mod rows;
pub mod sealed;
pub mod walk;
