pub mod codec;
pub mod message;
