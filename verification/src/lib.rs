//! Planning of task execution in a workspace of many projects: target
//! addresses, action nodes, the dependency graph builder and the batched
//! topological scheduler, together with the configuration values and
//! command-line helpers that surround them.

pub mod action;
pub mod args;
pub mod builder;
pub mod deno;
pub mod error;
pub mod export;
pub mod graph;
pub mod json;
pub mod node_config;
pub mod node_tool;
pub mod plan;
pub mod project;
pub mod query;
pub mod requirement;
pub mod sort;
pub mod target;
pub mod task;
pub mod text;
pub mod tsconfig;
