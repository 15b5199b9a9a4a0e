pub mod worker;
pub mod sender;
pub mod receiver;
