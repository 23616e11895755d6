//! Result type of git commands.
use crate::workspace_std::errors::GitError;
use vstd::prelude::*;

verus! {

/// The result of a git command.
pub type GitResult<T> = Result<T, GitError>;

} // verus!
