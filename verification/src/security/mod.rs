//! Signs of ransomware.
pub mod ransomware;
