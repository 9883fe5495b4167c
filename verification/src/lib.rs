//! The decision core of a coding agent: searching, settings, sessions, tool
//! registration and handoff documents as verified functions on plain values.

pub mod agent_session;
pub mod app;
pub mod bootstrap;
pub mod brain_workspace;
pub mod foundation;
pub mod handoff;
pub mod handoff_prompt;
pub mod json;
pub mod layers;
pub mod messages;
pub mod paths;
pub mod session_log;
pub mod session_runtime;
pub mod settings;
pub mod text;
pub mod tools;
