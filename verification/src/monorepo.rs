//! The monorepo as a whole: its root, its package manager and its packages'
//! repositories.
pub mod errors;
pub mod packages;
pub mod repo_url;
pub mod utils;
