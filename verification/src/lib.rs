//! The verified core of Fut, an agent-aware terminal multiplexer: its resource
//! tree, split layouts, protocol rules, daemon decisions, project recipes and
//! extension store rules.

pub mod daemon;
pub mod digests;
pub mod domain;
pub mod extension_store;
pub mod extensions;
pub mod maps;
pub mod paths;
pub mod project;
pub mod project_definition;
pub mod protocol;
pub mod resources;
pub mod splits;
pub mod text;
