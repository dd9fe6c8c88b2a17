//! A verified ingestion core for a line-oriented instrument link: it
//! classifies raw lines, decodes the embedded command protocol, parses
//! numeric payloads, tracks the active channel schema, and keeps a bounded
//! multi-channel time series that a rendering collaborator may read.
//!
//! Samples are carried as their validated numeric text: the float grammar
//! is checked here, while turning a token into a machine float is left to
//! the collaborators at the edges.

pub mod engine;
pub mod laws;
pub mod numbers;
pub mod protocol;
pub mod store;
pub mod text;
