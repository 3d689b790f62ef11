//! A verified core for a command-line shell agent: the policy ladder that
//! decides whether a command may run, the message model and JSON wire
//! encoding for two chat-completion protocols, and the conversation
//! orchestrator that drives tool-calling turns.

pub mod agent;
pub mod anthropic;
pub mod config;
pub mod json;
pub mod laws;
pub mod openai;
pub mod policy_bash;
pub mod providers;
pub mod strutil;
pub mod tools;
pub mod types;
pub mod ui;
