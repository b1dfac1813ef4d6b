//! What a caller may ask for and what an answer is made of.

pub mod algorithms;
pub mod chunk;
pub mod options;
pub mod response;
