//! Core helpers: git commands and their outputs, change files, workspace
//! configuration.
pub mod changes;
pub mod config;
pub mod errors;
pub mod git;
pub mod types;
pub mod utils;
pub mod workspace;
pub mod paths;
pub mod test;
