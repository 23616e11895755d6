//! Errors of git commands and of package manager detection.
use vstd::prelude::*;

verus! {

/// Why a git command gave no usable result.
#[derive(Debug, Clone, PartialEq, Eq)]
pub enum GitError {
    /// The process could not run, or its output was not UTF-8.
    Execution,
    /// git ran and failed; what it printed.
    GitError { stdout: String, stderr: String },
}

/// The package manager of a workspace could not be identified.
#[derive(Debug, Clone, Copy, PartialEq, Eq)]
pub enum ManagerError {
    UnknownPackageManager,
}

impl GitError {
    /// The message the error displays.
    pub fn message(&self) -> (s: String)
        ensures
            match self {
                GitError::Execution => s@ == "Unable to execute git process"@,
                GitError::GitError { stdout, stderr } => s@ == "git failed with the following stdout: "@
                    + stdout@ + " stderr: "@ + stderr@,
            },
    {
        match self {
            GitError::Execution => String::from_str("Unable to execute git process"),
            GitError::GitError { stdout, stderr } => {
                let mut s = String::from_str("git failed with the following stdout: ");
                s.append(stdout.as_str());
                s.append(" stderr: ");
                s.append(stderr.as_str());
                s
            },
        }
    }
}

impl ManagerError {
    /// The message the error displays.
    pub fn message(&self) -> (s: String)
        ensures
            s@ == "Unable to identify package manager in the workspace"@,
    {
        String::from_str("Unable to identify package manager in the workspace")
    }
}

} // verus!
