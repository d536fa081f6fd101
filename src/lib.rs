//! Core of a real-time graph visualisation backend: the document graph, the
//! binary wire codec for node updates, and the per-client streaming logic.
pub mod case_conversion;
pub mod edits;
pub mod graph;
pub mod ingest;
pub mod links;
pub mod messages;
pub mod node;
pub mod physics;
pub mod session;
pub mod settings;
pub mod text;
pub mod wire;
