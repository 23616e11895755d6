//! The project root, found from the lock files above the working directory.
use crate::manager::{lock_dir_from, walk_reverse_dir, DirLockFiles};
use vstd::prelude::*;

verus! {

/// The project root: the nearest of `dirs` (the working directory, then its
/// ancestors) holding a lock file, else the empty path.
pub fn get_project_root_path(dirs: &Vec<DirLockFiles>) -> (r: Option<String>)
    ensures
        r matches Some(p) && p@ == match lock_dir_from(dirs@, 0) {
            Some(d) => d,
            None => Seq::<char>::empty(),
        },
{
    match walk_reverse_dir(dirs) {
        Some(path) => Some(path),
        None => Some(String::new()),
    }
}

} // verus!
