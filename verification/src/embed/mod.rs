//! Query embeddings: what a provider's response has to be, and a stand-in.

pub mod provider;
