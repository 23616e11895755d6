//! Tools to inspect and release packages of a node monorepo: git helpers,
//! change files, version bumps and package discovery.
pub mod branch_map;
pub mod bumps;
pub mod changes;
pub mod manager;
pub mod monorepo;
pub mod agent;
pub mod filesystem;
pub mod packages;
pub mod paths;
pub mod utils;
pub mod json;
pub mod collation;
pub mod conventional;
pub mod git;
pub mod versions;
pub mod text;
pub mod workspace_std;
