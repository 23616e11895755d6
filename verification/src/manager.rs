//! Detection of the package manager of a workspace from its lock files.
use crate::text::{to_chars, chars_eq};
use vstd::prelude::*;

verus! {

/// A node package manager.
#[derive(Debug, Clone, Copy, PartialEq, Eq, Structural)]
pub enum PackageManager {
    Npm,
    Yarn,
    Pnpm,
    Bun,
}

/// The lock files found in one directory.
#[derive(Debug, Clone)]
pub struct DirLockFiles {
    /// The directory.
    pub path: String,
    /// Names of files present in it (any others are ignored).
    pub files: Vec<String>,
}

/// The lock files, in the order they are looked for, with the package manager
/// each one belongs to.
pub open spec fn lock_files() -> Seq<(Seq<char>, PackageManager)> {
    seq![
        ("package-lock.json"@, PackageManager::Npm),
        ("npm-shrinkwrap.json"@, PackageManager::Npm),
        ("yarn.lock"@, PackageManager::Yarn),
        ("pnpm-lock.yaml"@, PackageManager::Pnpm),
        ("bun.lockb"@, PackageManager::Bun),
    ]
}

/// Whether `name` is among `files`.
pub open spec fn has_file(files: Seq<String>, name: Seq<char>) -> bool {
    exists|i: int| 0 <= i < files.len() && (#[trigger] files[i])@ == name
}

/// The manager of the first lock file, from the `k`-th on, present in `files`.
pub open spec fn manager_from(files: Seq<String>, k: int) -> Option<PackageManager>
    decreases 5 - k,
{
    if k < 0 || k >= 5 {
        None
    } else if has_file(files, lock_files()[k].0) {
        Some(lock_files()[k].1)
    } else {
        manager_from(files, k + 1)
    }
}

/// The manager whose lock file is in `files`, in the order of `lock_files`.
pub open spec fn manager_in(files: Seq<String>) -> Option<PackageManager> {
    manager_from(files, 0)
}

/// The manager of the first directory, from the `k`-th on, with a lock file.
pub open spec fn detect_from(dirs: Seq<DirLockFiles>, k: int) -> Option<PackageManager>
    decreases dirs.len() - k,
{
    if k < 0 || k >= dirs.len() {
        None
    } else if manager_in(dirs[k].files@) is Some {
        manager_in(dirs[k].files@)
    } else {
        detect_from(dirs, k + 1)
    }
}

/// The first directory, from the `k`-th on, with a lock file.
pub open spec fn lock_dir_from(dirs: Seq<DirLockFiles>, k: int) -> Option<Seq<char>>
    decreases dirs.len() - k,
{
    if k < 0 || k >= dirs.len() {
        None
    } else if manager_in(dirs[k].files@) is Some {
        Some(dirs[k].path@)
    } else {
        lock_dir_from(dirs, k + 1)
    }
}

fn has_file_exec(files: &Vec<String>, name: &str) -> (b: bool)
    ensures
        b == has_file(files@, name@),
{
    let n = to_chars(name);
    let mut i: usize = 0;
    while i < files.len()
        invariant
            i <= files@.len(),
            n@ == name@,
            forall|k: int| 0 <= k < i ==> files@[k]@ != name@,
        decreases files.len() - i,
    {
        if chars_eq(&to_chars(files[i].as_str()), &n) {
            return true;
        }
        i = i + 1;
    }
    false
}

/// The manager whose lock file is among `files`, looked for in the order of
/// `lock_files`.
pub fn manager_of_files(files: &Vec<String>) -> (r: Option<PackageManager>)
    ensures
        r == manager_in(files@),
{
    proof {
        reveal_with_fuel(manager_from, 6);
    }
    if has_file_exec(files, "package-lock.json") {
        Some(PackageManager::Npm)
    } else if has_file_exec(files, "npm-shrinkwrap.json") {
        Some(PackageManager::Npm)
    } else if has_file_exec(files, "yarn.lock") {
        Some(PackageManager::Yarn)
    } else if has_file_exec(files, "pnpm-lock.yaml") {
        Some(PackageManager::Pnpm)
    } else if has_file_exec(files, "bun.lockb") {
        Some(PackageManager::Bun)
    } else {
        None
    }
}

/// Detects the package manager of a workspace: `dirs` lists the directory
/// and then each of its ancestors, nearest first, with the lock files found
/// in each; the nearest directory holding a lock file decides.
pub fn detect_package_manager(dirs: &Vec<DirLockFiles>) -> (r: Option<PackageManager>)
    ensures
        r == detect_from(dirs@, 0),
{
    let mut k: usize = 0;
    while k < dirs.len()
        invariant
            k <= dirs@.len(),
            detect_from(dirs@, 0) == detect_from(dirs@, k as int),
        decreases dirs.len() - k,
    {
        let m = manager_of_files(&dirs[k].files);
        if m.is_some() {
            return m;
        }
        k = k + 1;
    }
    None
}

/// The nearest directory of `dirs` (the directory, then its ancestors)
/// holding a lock file.
pub fn walk_reverse_dir(dirs: &Vec<DirLockFiles>) -> (r: Option<String>)
    ensures
        match r {
            Some(p) => lock_dir_from(dirs@, 0) == Some(p@),
            None => lock_dir_from(dirs@, 0) is None,
        },
{
    let mut k: usize = 0;
    while k < dirs.len()
        invariant
            k <= dirs@.len(),
            lock_dir_from(dirs@, 0) == lock_dir_from(dirs@, k as int),
        decreases dirs.len() - k,
    {
        if manager_of_files(&dirs[k].files).is_some() {
            return Some(dirs[k].path.clone());
        }
        k = k + 1;
    }
    None
}

impl PackageManager {
    /// The name of the package manager, as displayed.
    pub fn to_string(&self) -> (s: String)
        ensures
            s@ == match self {
                PackageManager::Npm => "npm"@,
                PackageManager::Yarn => "yarn"@,
                PackageManager::Pnpm => "pnpm"@,
                PackageManager::Bun => "bun"@,
            },
    {
        match self {
            PackageManager::Npm => String::from_str("npm"),
            PackageManager::Yarn => String::from_str("yarn"),
            PackageManager::Pnpm => String::from_str("pnpm"),
            PackageManager::Bun => String::from_str("bun"),
        }
    }
}

/// The text of the pnpm workspace file that a test monorepo gets.
pub open spec fn pnpm_workspace_text() -> Seq<char> {
    "\n                packages:\n                  - \"packages/*\"\n            "@
}

/// The files that mark a test monorepo as managed by `m`, with their
/// contents: its lock file (for pnpm, with a lock file version), and for
/// pnpm the workspace file that lists `packages/*`.
pub open spec fn monorepo_lock_files(m: PackageManager) -> Seq<(Seq<char>, Seq<char>)> {
    match m {
        PackageManager::Yarn => seq![("yarn.lock"@, Seq::empty())],
        PackageManager::Pnpm => seq![
            ("pnpm-lock.yaml"@, "lockfileVersion: '9.0'"@),
            ("pnpm-workspace.yaml"@, pnpm_workspace_text()),
        ],
        PackageManager::Bun => seq![("bun.lockb"@, Seq::empty())],
        PackageManager::Npm => seq![("package-lock.json"@, Seq::empty())],
    }
}

/// The files, with their contents, that mark a test monorepo as managed by
/// `m` (see `monorepo_lock_files`).
pub fn test_monorepo_lock_files(m: PackageManager) -> (r: Vec<(String, String)>)
    ensures
        r@.len() == monorepo_lock_files(m).len(),
        forall|i: int|
            0 <= i < r@.len() ==> (#[trigger] r@[i]).0@ == monorepo_lock_files(m)[i].0 && r@[i].1@
                == monorepo_lock_files(m)[i].1,
{
    match m {
        PackageManager::Yarn => vec![(String::from_str("yarn.lock"), String::new())],
        PackageManager::Pnpm => vec![
            (String::from_str("pnpm-lock.yaml"), String::from_str("lockfileVersion: '9.0'")),
            (
                String::from_str("pnpm-workspace.yaml"),
                String::from_str("\n                packages:\n                  - \"packages/*\"\n            "),
            ),
        ],
        PackageManager::Bun => vec![(String::from_str("bun.lockb"), String::new())],
        PackageManager::Npm => vec![(String::from_str("package-lock.json"), String::new())],
    }
}

/// A directory holding the files that mark a test monorepo as managed by
/// `m` is detected as managed by `m`.
pub proof fn law_test_monorepo_detected(m: PackageManager, files: Seq<String>)
    requires
        files.len() == monorepo_lock_files(m).len(),
        forall|i: int| 0 <= i < files.len() ==> (#[trigger] files[i])@ == monorepo_lock_files(m)[i].0,
    ensures
        manager_in(files) == Some(m),
{
    reveal_strlit("package-lock.json");
    reveal_strlit("npm-shrinkwrap.json");
    reveal_strlit("yarn.lock");
    reveal_strlit("pnpm-lock.yaml");
    reveal_strlit("pnpm-workspace.yaml");
    reveal_strlit("bun.lockb");
    reveal_with_fuel(manager_from, 6);
    assert("package-lock.json"@.len() == 17 && "npm-shrinkwrap.json"@.len() == 19 && "yarn.lock"@.len()
        == 9 && "pnpm-lock.yaml"@.len() == 14 && "pnpm-workspace.yaml"@.len() == 19 && "bun.lockb"@.len()
        == 9);
    assert("npm-shrinkwrap.json"@[0] == 'n' && "pnpm-workspace.yaml"@[0] == 'p' && "yarn.lock"@[0] == 'y'
        && "bun.lockb"@[0] == 'b');
    let names = Seq::new(files.len(), |i: int| files[i]@);
    assert forall|name: Seq<char>| has_file(files, name) <==> names.contains(name) by {
        if has_file(files, name) {
            let i = choose|i: int| 0 <= i < files.len() && (#[trigger] files[i])@ == name;
            assert(names[i] == name);
        }
        if names.contains(name) {
            let i = choose|i: int| 0 <= i < names.len() && names[i] == name;
            assert(files[i]@ == name);
        }
    }
    match m {
        PackageManager::Pnpm => {
            assert(names =~= seq!["pnpm-lock.yaml"@, "pnpm-workspace.yaml"@]);
            assert(names[1] != "npm-shrinkwrap.json"@);
            assert(names[0] != "yarn.lock"@ && names[1] != "yarn.lock"@);
            assert(!names.contains("package-lock.json"@));
            assert(!names.contains("npm-shrinkwrap.json"@));
            assert(!names.contains("yarn.lock"@));
            assert(names.contains("pnpm-lock.yaml"@)) by {
                assert(names[0] == "pnpm-lock.yaml"@);
            }
        },
        PackageManager::Yarn => {
            assert(names =~= seq!["yarn.lock"@]);
            assert(!names.contains("package-lock.json"@));
            assert(!names.contains("npm-shrinkwrap.json"@));
            assert(names.contains("yarn.lock"@)) by {
                assert(names[0] == "yarn.lock"@);
            }
        },
        PackageManager::Bun => {
            assert(names =~= seq!["bun.lockb"@]);
            assert(names[0] != "yarn.lock"@);
            assert(!names.contains("package-lock.json"@));
            assert(!names.contains("npm-shrinkwrap.json"@));
            assert(!names.contains("yarn.lock"@));
            assert(!names.contains("pnpm-lock.yaml"@));
            assert(names.contains("bun.lockb"@)) by {
                assert(names[0] == "bun.lockb"@);
            }
        },
        PackageManager::Npm => {
            assert(names =~= seq!["package-lock.json"@]);
            assert(names.contains("package-lock.json"@)) by {
                assert(names[0] == "package-lock.json"@);
            }
        },
    }
}

/// Whether one of `files` is named `name`.
pub open spec fn lists_file(files: Seq<String>, name: Seq<char>) -> bool {
    exists|i: int| 0 <= i < files.len() && (#[trigger] files[i])@ == name
}

/// Each lock file names the package manager that writes it: an npm lock
/// (`package-lock.json` or `npm-shrinkwrap.json`) means npm, else
/// `yarn.lock` means yarn, else `pnpm-lock.yaml` means pnpm, else
/// `bun.lockb` means bun; with none of them there is no package manager.
pub proof fn law_lock_files_name_their_managers(files: Seq<String>)
    ensures
        lists_file(files, "package-lock.json"@) || lists_file(files, "npm-shrinkwrap.json"@) ==> manager_in(
            files,
        ) == Some(PackageManager::Npm),
        !lists_file(files, "package-lock.json"@) && !lists_file(files, "npm-shrinkwrap.json"@) && lists_file(
            files,
            "yarn.lock"@,
        ) ==> manager_in(files) == Some(PackageManager::Yarn),
        !lists_file(files, "package-lock.json"@) && !lists_file(files, "npm-shrinkwrap.json"@) && !lists_file(
            files,
            "yarn.lock"@,
        ) && lists_file(files, "pnpm-lock.yaml"@) ==> manager_in(files) == Some(PackageManager::Pnpm),
        !lists_file(files, "package-lock.json"@) && !lists_file(files, "npm-shrinkwrap.json"@) && !lists_file(
            files,
            "yarn.lock"@,
        ) && !lists_file(files, "pnpm-lock.yaml"@) && lists_file(files, "bun.lockb"@) ==> manager_in(files)
            == Some(PackageManager::Bun),
        !lists_file(files, "package-lock.json"@) && !lists_file(files, "npm-shrinkwrap.json"@) && !lists_file(
            files,
            "yarn.lock"@,
        ) && !lists_file(files, "pnpm-lock.yaml"@) && !lists_file(files, "bun.lockb"@) ==> manager_in(files)
            is None,
{
    reveal_with_fuel(manager_from, 6);
    assert forall|name: Seq<char>| has_file(files, name) <==> lists_file(files, name) by {
        if has_file(files, name) {
            let i = choose|i: int| 0 <= i < files.len() && (#[trigger] files[i])@ == name;
            assert(lists_file(files, name));
        }
        if lists_file(files, name) {
            let i = choose|i: int| 0 <= i < files.len() && (#[trigger] files[i])@ == name;
            assert(has_file(files, name));
        }
    }
}

} // verus!
