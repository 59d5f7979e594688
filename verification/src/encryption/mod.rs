//! Keys, chunk encryption and the secrets vault.
pub mod aes;
pub mod key_manager;
pub mod vault;
