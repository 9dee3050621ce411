//! Core of a conversational-agent runtime: a message data model, a token
//! budget, a conversation truncator with pluggable strategies, provider
//! error classification, and the decision logic of the agent reply loop.

pub mod budget;
pub mod filtering;
pub mod laws;
pub mod message;
pub mod provider;
pub mod reply;
pub mod truncate;
