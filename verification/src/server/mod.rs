//! The server: reading requests, deciding what to run, assembling answers.

pub mod answer;
pub mod bm25;
pub mod calls;
pub mod config;
pub mod identifier;
pub mod protocol;
pub mod ranking;
pub mod scoring;
pub mod search;
pub mod settings;
pub mod startup;
pub mod tools;
pub mod vocabulary;
