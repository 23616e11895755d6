//! The change file of a workspace as the core helpers see it: per branch,
//! the deploy targets and the packages to release.
use crate::branch_map::BranchMap;
use crate::text::views;
use vstd::prelude::*;

verus! {

/// A package to release and how (the bump as text).
#[derive(Debug)]
pub struct Change {
    pub package: String,
    pub release_as: String,
}

/// The changes of one branch: where to deploy, and the packages.
#[derive(Debug)]
pub struct ChangeMeta {
    pub deploy: Vec<String>,
    pub pkgs: Vec<Change>,
}

/// The change file's content.
#[derive(Debug)]
pub struct ChangesConfig {
    pub message: Option<String>,
    pub git_user_name: Option<String>,
    pub git_user_email: Option<String>,
    pub changes: BranchMap<ChangeMeta>,
}

/// The changes of a workspace rooted at `root`.
#[derive(Debug)]
pub struct Changes {
    pub changes: BranchMap<ChangeMeta>,
    root: String,
}

/// The commit message of releases when none is configured.
pub open spec fn default_release_message() -> Seq<char> {
    "chore(release): |---| release new version"@
}

/// The git user of releases when none is configured.
pub open spec fn default_git_user_name() -> Seq<char> {
    "github-actions[bot]"@
}

/// The git email of releases when none is configured.
pub open spec fn default_git_user_email() -> Seq<char> {
    "github-actions[bot]@users.noreply.git.com"@
}

/// Whether one of `pkgs` is for the package `name`.
pub open spec fn lists_package(pkgs: Seq<Change>, name: Seq<char>) -> bool {
    exists|i: int| 0 <= i < pkgs.len() && (#[trigger] pkgs[i]).package@ == name
}

impl Changes {
    /// The changes, by branch.
    pub closed spec fn changes_map(&self) -> Map<Seq<char>, ChangeMeta> {
        self.changes@
    }

    /// Whether no branch occurs twice.
    pub closed spec fn wf(&self) -> bool {
        self.changes.wf()
    }

    /// The workspace root.
    pub closed spec fn root_path(&self) -> Seq<char> {
        self.root@
    }

    /// No changes yet, for the workspace at `root`.
    pub fn new(root: &String) -> (c: Self)
        ensures
            c.wf(),
            c.changes_map() == Map::<Seq<char>, ChangeMeta>::empty(),
            c.root_path() == root@,
    {
        Changes { changes: BranchMap::new(), root: root.clone() }
    }

    /// The workspace root.
    pub fn root(&self) -> (r: &String)
        ensures
            r@ == self.root_path(),
    {
        &self.root
    }

    /// The change file's content: what the file holds when there is one
    /// (`existing`), else the default configuration, which the caller
    /// writes to the file.
    pub fn init(&self, existing: Option<ChangesConfig>) -> (r: ChangesConfig)
        ensures
            match existing {
                Some(c) => r == c,
                None => {
                    &&& r.message matches Some(m) && m@ == default_release_message()
                    &&& r.git_user_name matches Some(n) && n@ == default_git_user_name()
                    &&& r.git_user_email matches Some(e) && e@ == default_git_user_email()
                    &&& r.changes.wf()
                    &&& r.changes@ == Map::<Seq<char>, ChangeMeta>::empty()
                },
            },
    {
        match existing {
            Some(c) => c,
            None => ChangesConfig {
                message: Some(String::from_str("chore(release): |---| release new version")),
                git_user_name: Some(String::from_str("github-actions[bot]")),
                git_user_email: Some(String::from_str("github-actions[bot]@users.noreply.git.com")),
                changes: BranchMap::new(),
            },
        }
    }

    /// Records `change` in the changes of `branch` (the current branch, else
    /// `main`) when that branch has changes and does not list the package
    /// yet, adding the deploy targets. Tells whether there was a change file
    /// to record it in (`config` is its content).
    pub fn add(
        &self,
        config: &mut Option<ChangesConfig>,
        change: Change,
        deploy_envs: Option<Vec<String>>,
        current_branch: Option<String>,
    ) -> (r: bool)
        requires
            *old(config) matches Some(c) ==> c.changes.wf(),
        ensures
            r == (*old(config) is Some),
            match (*old(config), *final(config)) {
                (None, None) => true,
                (Some(c0), Some(c1)) => {
                    let branch = match current_branch {
                        Some(b) => b@,
                        None => "main"@,
                    };
                    &&& c1.message == c0.message
                    &&& c1.git_user_name == c0.git_user_name
                    &&& c1.git_user_email == c0.git_user_email
                    &&& c1.changes.wf()
                    &&& c1.changes@.dom() == c0.changes@.dom()
                    &&& forall|b: Seq<char>|
                        c0.changes@.contains_key(b) && b != branch ==> #[trigger] c1.changes@[b]
                            == c0.changes@[b]
                    &&& c0.changes@.contains_key(branch) ==> if lists_package(
                        c0.changes@[branch].pkgs@,
                        change.package@,
                    ) {
                        c1.changes@[branch] == c0.changes@[branch]
                    } else {
                        &&& views(c1.changes@[branch].deploy@) == views(c0.changes@[branch].deploy@)
                            + match deploy_envs {
                            Some(e) => views(e@),
                            None => Seq::empty(),
                        }
                        &&& c1.changes@[branch].pkgs@ == c0.changes@[branch].pkgs@.push(change)
                    }
                },
                _ => false,
            },
    {
        let mut taken: Option<ChangesConfig> = None;
        std::mem::swap(&mut taken, config);
        match taken {
            None => false,
            Some(mut c) => {
                let branch = match current_branch {
                    Some(b) => b,
                    None => String::from_str("main"),
                };
                let ghost c0 = c;
                let entry = c.changes.remove(&branch);
                match entry {
                    None => {
                        assert(c.changes@ =~= c0.changes@);
                    },
                    Some(mut meta) => {
                        let mut listed = false;
                        let mut i: usize = 0;
                        while i < meta.pkgs.len()
                            invariant
                                i <= meta.pkgs@.len(),
                                listed == exists|k: int| 0 <= k < i && (#[trigger] meta.pkgs@[k]).package@ == change.package@,
                            decreases meta.pkgs.len() - i,
                        {
                            if meta.pkgs[i].package == change.package {
                                listed = true;
                            }
                            i = i + 1;
                        }
                        if !listed {
                            let ghost d0 = views(meta.deploy@);
                            match deploy_envs {
                                Some(mut envs) => {
                                    let ghost e = views(envs@);
                                    meta.deploy.append(&mut envs);
                                    assert(views(meta.deploy@) =~= d0 + e);
                                },
                                None => {
                                    assert(views(meta.deploy@) =~= d0 + Seq::<Seq<char>>::empty());
                                },
                            }
                            meta.pkgs.push(change);
                        }
                        c.changes.insert(branch, meta);
                        assert(c.changes@.dom() =~= c0.changes@.dom());
                    },
                }
                *config = Some(c);
                true
            },
        }
    }
}

} // verus!
