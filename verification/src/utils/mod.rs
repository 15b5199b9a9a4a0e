pub mod text;
pub mod hash;
pub mod config;
