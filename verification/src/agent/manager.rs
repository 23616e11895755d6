//! Detection of the agent (package manager) of a workspace.
use crate::manager::{detect_package_manager, detect_from, DirLockFiles, PackageManager};
use vstd::prelude::*;

verus! {

/// A node package manager.
#[derive(Debug, Clone, Copy, PartialEq, Eq, Structural)]
pub enum Agent {
    Npm,
    Yarn,
    Pnpm,
    Bun,
}

/// The agent that stands for a package manager.
pub open spec fn agent_of(m: PackageManager) -> Agent {
    match m {
        PackageManager::Npm => Agent::Npm,
        PackageManager::Yarn => Agent::Yarn,
        PackageManager::Pnpm => Agent::Pnpm,
        PackageManager::Bun => Agent::Bun,
    }
}

impl Agent {
    /// Detects the agent of a workspace: `dirs` lists the directory and then
    /// each of its ancestors, nearest first, with the lock files found in
    /// each; the nearest directory holding a lock file decides.
    pub fn detect(dirs: &Vec<DirLockFiles>) -> (r: Option<Agent>)
        ensures
            r == match detect_from(dirs@, 0) {
                Some(m) => Some(agent_of(m)),
                None => None,
            },
    {
        match detect_package_manager(dirs) {
            Some(PackageManager::Npm) => Some(Agent::Npm),
            Some(PackageManager::Yarn) => Some(Agent::Yarn),
            Some(PackageManager::Pnpm) => Some(Agent::Pnpm),
            Some(PackageManager::Bun) => Some(Agent::Bun),
            None => None,
        }
    }

    /// The name of the agent, as displayed.
    pub fn to_string(&self) -> (s: String)
        ensures
            s@ == match self {
                Agent::Npm => "npm"@,
                Agent::Yarn => "yarn"@,
                Agent::Pnpm => "pnpm"@,
                Agent::Bun => "bun"@,
            },
    {
        match self {
            Agent::Npm => String::from_str("npm"),
            Agent::Yarn => String::from_str("yarn"),
            Agent::Pnpm => String::from_str("pnpm"),
            Agent::Bun => String::from_str("bun"),
        }
    }
}

} // verus!
