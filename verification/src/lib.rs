//! Verified core logic of the AETHER headless media engine: semantic asset
//! references, the reference registry, the composition graph, the command
//! language, generation routing, plans, projects, vaults, and the versions of an
//! editing session.

pub mod text;
pub mod refs;
pub mod registry;
pub mod graph;
pub mod dsl;
pub mod generate;
pub mod planner;
pub mod vault;
pub mod agents;
pub mod job;
pub mod prompt;
pub mod runtime;
pub mod timeline;
pub mod project;
pub mod session;
pub mod edit;
pub mod render;
pub mod providers;
pub mod prompter;
pub mod edl;
pub mod keyframes;
pub mod color;
pub mod versions;
