//! A workspace: its configuration and the manifests of its packages.
use crate::manager::PackageManager;
use crate::packages::{
    any_glob_matches, globs_match, workspace_patterns, workspace_patterns_of, WorkspaceCandidate,
};
use crate::text::views;
use vstd::prelude::*;

verus! {

/// The configuration of a workspace.
#[derive(Debug)]
pub struct WorkspaceConfig {
    pub package_manager: PackageManager,
    pub workspace_root: String,
    pub changes_config: Vec<(String, String)>,
    pub cliff_config: String,
}

/// A workspace.
#[derive(Debug)]
pub struct Workspace {
    pub config: WorkspaceConfig,
}

/// The relative paths of the candidates that the globs select, in order.
pub open spec fn selected_paths(patterns: Seq<Seq<char>>, cands: Seq<WorkspaceCandidate>) -> Seq<Seq<char>>
    decreases cands.len(),
{
    if cands.len() == 0 {
        Seq::empty()
    } else if globs_match(patterns, cands.last().relative_path@) == Some(true) {
        selected_paths(patterns, cands.drop_last()).push(cands.last().relative_path@)
    } else {
        selected_paths(patterns, cands.drop_last())
    }
}

impl Workspace {
    /// The workspace with this configuration.
    pub fn new(config: WorkspaceConfig) -> (w: Self)
        ensures
            w.config == config,
    {
        Workspace { config }
    }

    /// The manifests of the packages of an npm or yarn workspace: the
    /// relative paths of the `candidates` that the globs of the `workspaces`
    /// entries select, in order; `None` when a glob cannot be tested.
    pub fn get_packages(&self, workspaces: &Vec<String>, candidates: &Vec<WorkspaceCandidate>) -> (r:
        Option<Vec<String>>)
        requires
            self.config.package_manager == PackageManager::Npm || self.config.package_manager
                == PackageManager::Yarn,
        ensures
            ({
                let patterns = workspace_patterns_of(views(workspaces@));
                &&& (r is Some <==> forall|i: int|
                    0 <= i < candidates@.len() ==> globs_match(
                        patterns,
                        (#[trigger] candidates@[i]).relative_path@,
                    ) is Some)
                &&& r matches Some(v) ==> views(v@) == selected_paths(patterns, candidates@)
            }),
    {
        let patterns = workspace_patterns(workspaces);
        let ghost pats = views(patterns@);
        let mut out: Vec<String> = Vec::new();
        let mut i: usize = 0;
        while i < candidates.len()
            invariant
                i <= candidates@.len(),
                pats == views(patterns@),
                pats == workspace_patterns_of(views(workspaces@)),
                forall|k: int| 0 <= k < i ==> globs_match(pats, (#[trigger] candidates@[k]).relative_path@) is Some,
                views(out@) == selected_paths(pats, candidates@.take(i as int)),
            decreases candidates.len() - i,
        {
            assert(candidates@.take(i + 1).drop_last() =~= candidates@.take(i as int));
            assert(candidates@.take(i + 1).last() == candidates@[i as int]);
            match any_glob_matches(&patterns, &candidates[i].relative_path) {
                None => {
                    return None;
                },
                Some(true) => {
                    let ghost before = views(out@);
                    out.push(candidates[i].relative_path.clone());
                    assert(views(out@) =~= before.push(candidates@[i as int].relative_path@));
                },
                Some(false) => {},
            }
            i = i + 1;
        }
        assert(candidates@.take(i as int) =~= candidates@);
        Some(out)
    }
}

} // verus!
