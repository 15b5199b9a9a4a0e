pub mod merger;
pub mod splitter;
