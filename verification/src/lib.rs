//! SVG optimization library: a document model for SVG, a parser that builds
//! it, and a set of optimization plugins that rewrite it.

pub mod ast;
pub mod strings;
pub mod value;
pub mod plugin;
pub mod config;
pub mod pattern;
pub mod parser;
pub mod optimizer;
pub mod cli;
pub mod laws;
pub mod plugins;
pub mod attribute_laws;
