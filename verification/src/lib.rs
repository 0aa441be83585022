//! Argus: the decision logic of a voice-driven developer assistant.
pub mod text;
pub mod config;
pub mod mappers;
pub mod router;
pub mod grammar;
pub mod listener;
pub mod dashboard;
pub mod telemetry;
pub mod actions;
