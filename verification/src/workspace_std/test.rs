//! Test workspace location.
pub use crate::workspace_std::utils::MonorepoWorkspace;
