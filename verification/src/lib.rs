//! Verified core of a peer-to-peer LAN file transfer tool.
pub mod utils;
pub mod protocol;
pub mod file;
pub mod device;
pub mod persistence;
pub mod commands;
pub mod transfer;
