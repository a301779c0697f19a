pub mod cli;
pub mod dag;
pub mod dependency;
pub mod engine;
pub mod graph;
pub mod lookup;
pub mod plan;
pub mod source_connectors;
pub mod types;
