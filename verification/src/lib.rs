//! Tracks upstream package versions, decides when a local build is stale,
//! and records build outcomes in a durable store.

pub mod aur;
pub mod codec;
pub mod config;
pub mod db;
pub mod monitor;
pub mod text;
