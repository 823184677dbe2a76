//! Duplicate-content detection engine for a chat bot: a bounded cache of
//! previously seen links and image fingerprints, an exact/near match policy,
//! a FIFO eviction policy, and a permanent allow registry that exempts
//! moderator-approved content from detection.

pub mod fingerprint;
pub mod records;
pub mod allow;
pub mod cache;
pub mod config;
pub mod engine;
pub mod laws;
pub mod provider;
pub mod search;
