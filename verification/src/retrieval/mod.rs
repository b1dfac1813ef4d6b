//! Retrieval inside a corpus: identifiers, routing, collecting and fusing.

pub mod course;
pub mod fusion;
pub mod identifier;
pub mod routing;
pub mod search;
pub mod topk;
pub mod trust;
