//! Core of the R2 agent: the rules, state machines and formats behind its
//! console, channels, groups and model providers.
pub mod agent;
pub mod agents;
pub mod anthropic;
pub mod cards;
pub mod channels;
pub mod cli;
pub mod client;
mod clock;
pub mod config;
pub mod console;
pub mod context;
pub mod dm;
pub mod events;
pub mod evolution;
pub mod groups;
pub mod json;
pub mod laws;
pub mod mcp;
pub mod meeting;
pub mod memory;
pub mod models;
pub mod namespaces;
pub mod pb;
pub mod persist;
pub mod prompt;
pub mod router;
pub mod rpc;
pub mod schedule;
pub mod skills;
pub mod text;
pub mod types;
