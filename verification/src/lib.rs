//! Airsend: local-network peer-to-peer file transfer, the verified core.
pub mod app_state;
pub mod commands;
pub mod discovery;
pub mod hashing;
pub mod ids;
pub mod models;
pub mod paths;
pub mod platform;
pub mod protocol;
pub mod security;
pub mod storage;
pub mod text;
pub mod transfer;
