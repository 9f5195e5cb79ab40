//! Decision logic of a multi-agent migration pipeline.
pub mod agents;
pub mod cli;
pub mod compose;
pub mod config;
pub mod failure;
pub mod json;
pub mod order;
pub mod pipeline;
pub mod prompts;
pub mod search;
pub mod skills;
pub mod text;
pub mod utils;
