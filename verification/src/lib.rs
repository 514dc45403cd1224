//! Verified core of a PipeWire per-application mixer: the mixer's graph
//! model, the rules that group application streams, the decoding of
//! PipeWire properties and `pw-cli` listings, and the commands the mixer
//! issues.

pub mod text;
pub mod models;
pub mod queries;
pub mod groups;
pub mod engine;
pub mod listing;
pub mod commands;
pub mod controls;
pub mod routing;
pub mod routes;
pub mod laws;
pub mod engine_laws;
