//! What a corpus records about itself: its vector space and its lexical shape.

pub mod config;
pub mod profile;
