//! Requirements traceability: prose rules defined in Markdown specifications are
//! linked to the source comments that implement and verify them.
//!
//! The crate holds the engine's pure core: positions, marker grammar, the
//! Markdown code mask, the rule index with its diagnostics and coverage
//! roll-ups, the build of a workspace's snapshot from its configuration and
//! its files, the watcher's path rules, and the formats the front ends share.

pub mod bump;
pub mod cli;
pub mod config;
pub mod config_text;
pub mod cycles;
pub mod daemon;
pub mod dashboard;
pub mod engine;
pub mod index;
pub mod json;
pub mod lsp;
pub mod markdown;
pub mod marker;
pub mod mcp;
pub mod paths;
pub mod positions;
pub mod snapshot;
pub mod source;
pub mod spec_loader;
pub mod text;
pub mod uri;
pub mod vite;
pub mod watcher;
pub mod web;
