//! The project root: the top of the git work tree, else the nearest directory
//! with a lock file, else the directory itself.
use crate::manager::{lock_dir_from, walk_reverse_dir, DirLockFiles};
use crate::workspace_std::git::GitCommand;
use crate::workspace_std::utils::{stripped, strip_trailing_newline};
use crate::text::views;
use vstd::prelude::*;

verus! {

/// `git rev-parse --show-toplevel`, run in `dir`.
pub fn git_root_dir_command(dir: &String) -> (c: GitCommand)
    ensures
        c.dir@ == dir@,
        views(c.args@) == seq!["rev-parse"@, "--show-toplevel"@],
{
    let mut args: Vec<String> = Vec::new();
    args.push(String::from_str("rev-parse"));
    args.push(String::from_str("--show-toplevel"));
    assert(views(args@) =~= seq!["rev-parse"@, "--show-toplevel"@]);
    GitCommand { dir: dir.clone(), args }
}

/// The top of the work tree that `git rev-parse --show-toplevel` printed, when
/// it succeeded.
pub fn get_git_root_dir(success: bool, stdout: &String) -> (r: Option<String>)
    ensures
        match r {
            Some(p) => success && p@ == stripped(stdout@),
            None => !success,
        },
{
    if success {
        Some(strip_trailing_newline(stdout))
    } else {
        None
    }
}

/// The project root of `current`: the git top level when there is one, else
/// the nearest of `dirs` (`current`, then its ancestors) holding a lock file,
/// else `current` itself.
pub fn get_project_root_path(git_root: Option<String>, dirs: &Vec<DirLockFiles>, current: &String) -> (r:
    Option<String>)
    ensures
        r matches Some(p) && p@ == match git_root {
            Some(g) => g@,
            None => match lock_dir_from(dirs@, 0) {
                Some(d) => d,
                None => current@,
            },
        },
{
    let project_root = match git_root {
        Some(root) => root,
        None => match walk_reverse_dir(dirs) {
            Some(dir) => dir,
            None => current.clone(),
        },
    };
    Some(project_root)
}

} // verus!
