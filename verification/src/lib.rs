//! Core of a provider-agnostic chat agent: a conversation model, a
//! reliability layer that classifies transient backend failures into
//! wait-and-retry decisions, a tool-call extraction protocol for backends
//! without native function calling, and a client factory.

pub mod conversation;
pub mod reliability;
pub mod protocol;
pub mod factory;
pub mod task;
