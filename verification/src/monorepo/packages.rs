//! The monorepo: where it is rooted, which agent manages it and the
//! repository of a package.
pub use crate::packages::PackageRepositoryInfo;

use crate::agent::manager::{agent_of, Agent};
use crate::manager::{detect_from, lock_dir_from, DirLockFiles};
use crate::packages::url_match_from;
use crate::monorepo::repo_url::{
    format_url, formatted_url, lemma_formatted_url_shape, link_slashes,
};
use crate::json::JsonValue;
use crate::packages::{
    any_glob_matches, globs_match, lower_run_end, manifest_dir, url_match_at, workspace_patterns,
    workspace_patterns_of,
};
use crate::text::{ends_with_chars, ends_with_seq, path_join, path_join_seq, starts_with_seq, views};
use crate::workspace_std::git::{files_under, filter_files_under};
use crate::utils::non_slash_end;
use crate::text::{chars_eq, substring, to_chars};
use vstd::prelude::*;

verus! {

/// The monorepo helpers.
#[derive(Debug, Clone, Copy)]
pub struct Monorepo;

/// The domain, organisation (with its closing `/`) and project that the
/// pattern `protocol://domain/org/project` finds in `url`, as it captures
/// them; `None` when it finds nothing.
pub open spec fn repository_captures(url: Seq<char>) -> Option<(Seq<char>, Seq<char>, Seq<char>)> {
    match url_match_from(url, 0) {
        Some((e, d, o, end)) => Some(
            (url.subrange(e + 3, d), url.subrange(d + 1, o + 1), url.subrange(o + 1, end)),
        ),
        None => None,
    }
}

/// `non_slash_end` stops at the first `/`.
proof fn lemma_non_slash_end_at(s: Seq<char>, i: int, j: int)
    requires
        0 <= i <= j < s.len(),
        forall|k: int| i <= k < j ==> s[k] != '/',
        s[j] == '/',
    ensures
        non_slash_end(s, i) == j,
    decreases j - i,
{
    if i < j {
        lemma_non_slash_end_at(s, i + 1, j);
    }
}

/// A link of the shape `https://host/port/...` is what the pattern of
/// `repository_captures` finds.
proof fn lemma_link_captured(f: Seq<char>, d: int, o: int)
    requires
        link_slashes(f, d, o),
    ensures
        repository_captures(f) is Some,
{
    reveal_strlit("https://");
    assert(f.take(8) == "https://"@);
    assert(f[0] == 'h' && f[1] == 't' && f[2] == 't' && f[3] == 'p' && f[4] == 's' && f[5] == ':' && f[6]
        == '/' && f[7] == '/') by {
        assert(f[0] == f.take(8)[0] && f[1] == f.take(8)[1] && f[2] == f.take(8)[2] && f[3] == f.take(
            8,
        )[3] && f[4] == f.take(8)[4] && f[5] == f.take(8)[5] && f[6] == f.take(8)[6] && f[7]
            == f.take(8)[7]);
    }
    assert(lower_run_end(f, 5) == 5);
    assert(lower_run_end(f, 4) == 5);
    assert(lower_run_end(f, 3) == 5);
    assert(lower_run_end(f, 2) == 5);
    assert(lower_run_end(f, 1) == 5);
    assert(lower_run_end(f, 0) == 5);
    lemma_non_slash_end_at(f, 8, d);
    lemma_non_slash_end_at(f, d + 1, o);
    assert(url_match_at(f, 0) is Some);
}

/// Every link that `format_repo_url` gives, for a `repository` field it can
/// read, is one that `get_package_repository_info` accepts.
pub proof fn law_repo_link_has_repository_info(repo: Option<Repository>)
    requires
        repo_url_readable(repo),
    ensures
        repository_captures(repo_link(repo)) is Some,
{
    match repo {
        Some(r) => {
            lemma_formatted_url_shape(repository_url(r)->0);
            let f = repo_link(repo);
            let (d, o) = choose|d: int, o: int| link_slashes(f, d, o);
            lemma_link_captured(f, d, o);
        },
        None => {
            let f = default_repo_url();
            reveal_strlit("https://github.com/my-orga/my-repo");
            reveal_strlit("https://");
            assert(f.take(8) =~= "https://"@);
            assert(link_slashes(f, 18, 26));
            lemma_link_captured(f, 18, 26);
        },
    }
}

/// The `repository` field of a manifest: a bare URL, or an object whose
/// `url` names the repository.
#[derive(Debug, Clone)]
pub enum Repository {
    Path(String),
    Object { type_: Option<String>, url: Option<String>, directory: Option<String> },
}

/// The `private` field of a manifest: the strings `"true"` and `"false"`, or
/// a boolean.
#[derive(Debug, Clone, Copy)]
pub enum Private {
    True,
    False,
    Bool(bool),
}

/// The fields of a `package.json` that the monorepo reads.
#[derive(Debug)]
pub struct PackageManifest {
    pub name: Option<String>,
    pub version: Option<String>,
    pub description: Option<String>,
    pub private: Option<Private>,
    pub repository: Option<Repository>,
    pub files: Option<Vec<String>>,
    pub license: Option<String>,
}

/// The URL that a `repository` field names, if any.
pub open spec fn repository_url(repo: Repository) -> Option<Seq<char>> {
    match repo {
        Repository::Path(u) => Some(u@),
        Repository::Object { url, .. } => match url {
            Some(u) => Some(u@),
            None => None,
        },
    }
}

/// The link given to a package without a `repository` field.
pub open spec fn default_repo_url() -> Seq<char> {
    "https://github.com/my-orga/my-repo"@
}

/// Whether a `repository` field can be turned into a link: it is absent, or
/// it names a URL that the pattern of `formatted_url` matches.
pub open spec fn repo_url_readable(repo: Option<Repository>) -> bool {
    match repo {
        None => true,
        Some(r) => match repository_url(r) {
            Some(u) => formatted_url(u) is Some,
            None => false,
        },
    }
}

/// The link of a `repository` field (see `repo_url_readable`).
pub open spec fn repo_link(repo: Option<Repository>) -> Seq<char> {
    match repo {
        None => default_repo_url(),
        Some(r) => formatted_url(repository_url(r)->0)->0,
    }
}

/// The text of an optional field, or `default` when it is absent.
pub open spec fn text_or(field: Option<String>, default: Seq<char>) -> Seq<char> {
    match field {
        Some(s) => s@,
        None => default,
    }
}

/// Whether a manifest holds what a release needs: a name, a version, a
/// description and a license (none of them the placeholder that stands for
/// a missing one), a non-empty repository URL and some files.
pub open spec fn manifest_complete(m: PackageManifest) -> bool {
    &&& text_or(m.name, "unknown"@) != "unknown"@
    &&& text_or(m.version, "0"@) != "0"@
    &&& text_or(m.description, "unknown"@) != "unknown"@
    &&& m.repository matches Some(r) && match r {
        Repository::Path(u) => u@.len() > 0,
        Repository::Object { url, .. } => text_or(url, Seq::empty()).len() > 0,
    }
    &&& m.files matches Some(f) && f@.len() > 0
    &&& text_or(m.license, "unknown"@) != "unknown"@
}

/// Whether an optional field is present and differs from `placeholder`.
fn differs_from(field: &Option<String>, placeholder: &str) -> (r: bool)
    ensures
        r == (text_or(*field, placeholder@) != placeholder@),
{
    match field {
        Some(s) => !chars_eq(&to_chars(s.as_str()), &to_chars(placeholder)),
        None => false,
    }
}

/// Whether one manifest is complete (see `manifest_complete`).
fn manifest_is_complete(m: &PackageManifest) -> (r: bool)
    ensures
        r == manifest_complete(*m),
{
    proof {
        reveal_strlit("unknown");
        reveal_strlit("0");
    }
    if !differs_from(&m.name, "unknown") || !differs_from(&m.version, "0") || !differs_from(
        &m.description,
        "unknown",
    ) {
        return false;
    }
    let repo_ok = match &m.repository {
        Some(Repository::Path(u)) => u.unicode_len() > 0,
        Some(Repository::Object { url, .. }) => match url {
            Some(u) => u.unicode_len() > 0,
            None => false,
        },
        None => false,
    };
    if !repo_ok {
        return false;
    }
    let files_ok = match &m.files {
        Some(f) => f.len() > 0,
        None => false,
    };
    files_ok && differs_from(&m.license, "unknown")
}

impl Monorepo {
    /// The `https://` link of a package's repository: the default link when
    /// the manifest names none, else the link that `formatted_url` reads from
    /// the URL (which must match its pattern).
    pub fn format_repo_url(repo: Option<Repository>) -> (r: String)
        requires
            repo_url_readable(repo),
        ensures
            r@ == repo_link(repo),
    {
        let url = match repo {
            None => {
                return String::from_str("https://github.com/my-orga/my-repo");
            },
            Some(Repository::Path(u)) => u,
            Some(Repository::Object { url, .. }) => match url {
                Some(u) => u,
                None => {
                    assert(false);
                    String::new()
                },
            },
        };
        match format_url(&url) {
            Some(f) => f,
            None => {
                assert(false);
                String::new()
            },
        }
    }

    /// Whether every manifest holds what a release needs (see
    /// `manifest_complete`).
    pub fn validate_packages_json(manifests: &Vec<PackageManifest>) -> (r: bool)
        ensures
            r == forall|i: int| 0 <= i < manifests@.len() ==> manifest_complete(#[trigger] manifests@[i]),
    {
        let mut i: usize = 0;
        while i < manifests.len()
            invariant
                i <= manifests@.len(),
                forall|k: int| 0 <= k < i ==> manifest_complete(#[trigger] manifests@[k]),
            decreases manifests.len() - i,
        {
            if !manifest_is_complete(&manifests[i]) {
                return false;
            }
            i = i + 1;
        }
        true
    }

    /// The monorepo root: the nearest of `dirs` (the working directory, then
    /// its ancestors) holding a lock file, else the empty path.
    pub fn get_project_root_path(dirs: &Vec<DirLockFiles>) -> (r: Option<String>)
        ensures
            r matches Some(p) && p@ == match lock_dir_from(dirs@, 0) {
                Some(d) => d,
                None => Seq::<char>::empty(),
            },
    {
        crate::filesystem::paths::get_project_root_path(dirs)
    }

    /// The agent of the monorepo: `root_dirs` lists its root and then the
    /// root's ancestors, with the lock files of each.
    pub fn get_agent(root_dirs: &Vec<DirLockFiles>) -> (r: Option<Agent>)
        ensures
            r == match detect_from(root_dirs@, 0) {
                Some(m) => Some(agent_of(m)),
                None => None,
            },
    {
        Agent::detect(root_dirs)
    }

    /// The domain, organisation and project of a repository URL, as the
    /// pattern captures them (the URL must have that shape).
    pub fn get_package_repository_info(url: &String) -> (r: PackageRepositoryInfo)
        requires
            repository_captures(url@) is Some,
        ensures
            repository_captures(url@) == Some((r.domain@, r.orga@, r.project@)),
    {
        let s = to_chars(url.as_str());
        match crate::packages::find_url_match(&s) {
            Some((e, d, o, end)) => PackageRepositoryInfo {
                domain: substring(&s, e + 3, d),
                orga: substring(&s, d + 1, o + 1),
                project: substring(&s, o + 1, end),
            },
            None => PackageRepositoryInfo {
                domain: String::new(),
                orga: String::new(),
                project: String::new(),
            },
        }
    }
}

/// A package of the monorepo, as its manifest describes it.
#[derive(Debug)]
pub struct PackageInfo {
    pub name: String,
    pub private: bool,
    pub package_json_path: String,
    pub package_path: String,
    pub package_relative_path: String,
    pub pkg_json: JsonValue,
    pub root: bool,
    pub version: String,
    pub url: String,
    pub repository_info: Option<PackageRepositoryInfo>,
}

/// A package that `pnpm list -r --depth -1 --json` reports, with its
/// manifest, read as its fields and as JSON.
#[derive(Debug)]
pub struct PnpmListed {
    pub name: String,
    pub path: String,
    pub private: bool,
    pub manifest: PackageManifest,
    pub pkg_json: JsonValue,
}

/// A `package.json` found under the project root (outside `node_modules`,
/// `src`, `dist` and `tests`), by its path relative to the root, with its
/// manifest, read as its fields and as JSON.
#[derive(Debug)]
pub struct FoundManifest {
    pub relative_path: String,
    pub manifest: PackageManifest,
    pub pkg_json: JsonValue,
}

/// What the project's files say of its packages, as its agent lists them.
#[derive(Debug)]
pub enum MonorepoListing {
    /// The packages that pnpm lists.
    Pnpm(Vec<PnpmListed>),
    /// The `workspaces` entries of the root manifest and the manifests found
    /// under the root (npm and yarn).
    Workspaces(Vec<String>, Vec<FoundManifest>),
    /// Nothing to list (bun, or no agent).
    Empty,
}

/// Whether `p` is the package that manifest `m` (with JSON `pkg_json`)
/// describes under these names and paths: its version defaults to `0.0.0`,
/// its link is `repo_link` of the `repository` field, and its repository
/// info is what `repository_captures` reads from that link.
pub open spec fn described(
    p: PackageInfo,
    name: Seq<char>,
    private: bool,
    package_json_path: Seq<char>,
    package_path: Seq<char>,
    relative_path: Seq<char>,
    pkg_json: JsonValue,
    root: bool,
    m: PackageManifest,
) -> bool {
    &&& p.name@ == name
    &&& p.private == private
    &&& p.package_json_path@ == package_json_path
    &&& p.package_path@ == package_path
    &&& p.package_relative_path@ == relative_path
    &&& p.pkg_json == pkg_json
    &&& p.root == root
    &&& p.version@ == text_or(m.version, "0.0.0"@)
    &&& p.url@ == repo_link(m.repository)
    &&& p.repository_info matches Some(info) && repository_captures(p.url@) == Some(
        (info.domain@, info.orga@, info.project@),
    )
}

fn described_package(
    name: String,
    private: bool,
    package_json_path: String,
    package_path: String,
    relative_path: String,
    pkg_json: JsonValue,
    root: bool,
    manifest: PackageManifest,
) -> (p: PackageInfo)
    requires
        repo_url_readable(manifest.repository),
    ensures
        described(
            p,
            name@,
            private,
            package_json_path@,
            package_path@,
            relative_path@,
            pkg_json,
            root,
            manifest,
        ),
{
    let ghost m = manifest;
    let PackageManifest { version, repository, .. } = manifest;
    let version = match version {
        Some(v) => v,
        None => String::from_str("0.0.0"),
    };
    let ghost repo = repository;
    let url = Monorepo::format_repo_url(repository);
    proof {
        law_repo_link_has_repository_info(repo);
    }
    let info = Monorepo::get_package_repository_info(&url);
    PackageInfo {
        name,
        private,
        package_json_path,
        package_path,
        package_relative_path: relative_path,
        pkg_json,
        root,
        version,
        url,
        repository_info: Some(info),
    }
}

/// Whether a pnpm entry can be read: its `repository` field can be turned
/// into a link, and its directory is the project root or lies under it.
pub open spec fn pnpm_listed_ok(root: Seq<char>, e: PnpmListed) -> bool {
    &&& repo_url_readable(e.manifest.repository)
    &&& (e.path@ == root || starts_with_seq(e.path@, root))
}

/// The path of a pnpm package relative to the project root: `.` for the
/// root itself.
pub open spec fn pnpm_relative_path(root: Seq<char>, path: Seq<char>) -> Seq<char> {
    if path == root {
        "."@
    } else {
        path.skip(root.len() + 1int)
    }
}

/// Whether `p` is the package that the pnpm entry `e` describes.
pub open spec fn pnpm_listed_package(p: PackageInfo, root: Seq<char>, e: PnpmListed) -> bool {
    described(
        p,
        e.name@,
        e.private,
        e.path@ + "/package.json"@,
        e.path@,
        pnpm_relative_path(root, e.path@),
        e.pkg_json,
        e.path@ == root,
        e.manifest,
    )
}

fn pnpm_listed_packages(project_root: &String, entries: Vec<PnpmListed>) -> (r: Vec<PackageInfo>)
    requires
        forall|i: int| 0 <= i < entries@.len() ==> pnpm_listed_ok(project_root@, #[trigger] entries@[i]),
    ensures
        r@.len() == entries@.len(),
        forall|k: int| 0 <= k < r@.len() ==> pnpm_listed_package(#[trigger] r@[k], project_root@, entries@[k]),
{
    let ghost all = entries@;
    let n = entries.len();
    let root_chars = to_chars(project_root.as_str());
    let mut rest = entries;
    let mut out: Vec<PackageInfo> = Vec::new();
    let mut i: usize = 0;
    while rest.len() > 0
        invariant
            i + rest@.len() == all.len(),
            all.len() == n,
            rest@ == all.skip(i as int),
            root_chars@ == project_root@,
            forall|j: int| 0 <= j < all.len() ==> pnpm_listed_ok(project_root@, #[trigger] all[j]),
            out@.len() == i,
            forall|k: int| 0 <= k < i ==> pnpm_listed_package(#[trigger] out@[k], project_root@, all[k]),
        decreases rest.len(),
    {
        let e = rest.remove(0);
        assert(e == all[i as int]);
        assert(rest@ =~= all.skip(i + 1));
        assert(pnpm_listed_ok(project_root@, all[i as int]));
        let path_chars = to_chars(e.path.as_str());
        let PnpmListed { name, path, private, manifest, pkg_json } = e;
        let is_root = chars_eq(&path_chars, &root_chars);
        let relative = if is_root {
            proof {
                reveal_strlit(".");
            }
            String::from_str(".")
        } else {
            assert(path_chars@.len() > root_chars@.len()) by {
                assert(path_chars@.take(root_chars@.len() as int) == root_chars@);
                if path_chars@.len() == root_chars@.len() {
                    assert(path_chars@ =~= root_chars@);
                }
            }
            assert(root_chars.len() < path_chars.len());
            let relative = substring(&path_chars, root_chars.len() + 1, path_chars.len());
            assert(path_chars@.subrange(root_chars@.len() + 1int, path_chars@.len() as int) =~= path@.skip(
                project_root@.len() + 1int,
            ));
            relative
        };
        let mut json_path = path.clone();
        json_path.append("/package.json");
        let pkg = described_package(name, private, json_path, path, relative, pkg_json, is_root, manifest);
        out.push(pkg);
        i = i + 1;
    }
    out
}

/// Whether a found manifest can be handled: the globs can be tested on it,
/// and when they select it, it names its package, its `repository` field
/// can be turned into a link and its path ends with `/package.json`.
pub open spec fn found_ok(patterns: Seq<Seq<char>>, c: FoundManifest) -> bool {
    match globs_match(patterns, c.relative_path@) {
        None => false,
        Some(selected) => selected ==> c.manifest.name is Some && repo_url_readable(c.manifest.repository)
            && ends_with_seq(c.relative_path@, "/package.json"@),
    }
}

/// The found manifests that the globs select, in order.
pub open spec fn selected_manifests(patterns: Seq<Seq<char>>, cands: Seq<FoundManifest>) -> Seq<
    FoundManifest,
>
    decreases cands.len(),
{
    if cands.len() == 0 {
        Seq::empty()
    } else if globs_match(patterns, cands.last().relative_path@) == Some(true) {
        selected_manifests(patterns, cands.drop_last()).push(cands.last())
    } else {
        selected_manifests(patterns, cands.drop_last())
    }
}

/// Whether `p` is the package that the selected manifest `c` describes: its
/// relative path is the manifest's path without its first character, and it
/// is private only when its `private` field is the string `"true"`.
pub open spec fn found_package(p: PackageInfo, root: Seq<char>, c: FoundManifest) -> bool {
    described(
        p,
        c.manifest.name->0@,
        c.manifest.private == Some(Private::True),
        path_join_seq(root, c.relative_path@),
        path_join_seq(root, manifest_dir(c.relative_path@)),
        c.relative_path@.skip(1),
        c.pkg_json,
        false,
        c.manifest,
    )
}

fn found_packages(project_root: &String, workspaces: &Vec<String>, candidates: Vec<FoundManifest>) -> (r:
    Option<Vec<PackageInfo>>)
    ensures
        r is Some <==> forall|i: int|
            0 <= i < candidates@.len() ==> found_ok(
                workspace_patterns_of(views(workspaces@)),
                #[trigger] candidates@[i],
            ),
        r matches Some(v) ==> {
            let members = selected_manifests(workspace_patterns_of(views(workspaces@)), candidates@);
            &&& v@.len() == members.len()
            &&& forall|k: int| 0 <= k < v@.len() ==> found_package(#[trigger] v@[k], project_root@, members[k])
        },
{
    let patterns = workspace_patterns(workspaces);
    let ghost pats = views(patterns@);
    let ghost all = candidates@;
    let n = candidates.len();
    let suffix = to_chars("/package.json");
    proof {
        reveal_strlit("/package.json");
    }
    let mut rest = candidates;
    let mut out: Vec<PackageInfo> = Vec::new();
    let mut i: usize = 0;
    while rest.len() > 0
        invariant
            i + rest@.len() == all.len(),
            all.len() == n,
            all == candidates@,
            rest@ == all.skip(i as int),
            pats == views(patterns@),
            pats == workspace_patterns_of(views(workspaces@)),
            suffix@ == "/package.json"@,
            forall|j: int| 0 <= j < i ==> found_ok(pats, #[trigger] all[j]),
            out@.len() == selected_manifests(pats, all.take(i as int)).len(),
            forall|k: int|
                0 <= k < out@.len() ==> found_package(
                    #[trigger] out@[k],
                    project_root@,
                    selected_manifests(pats, all.take(i as int))[k],
                ),
        decreases rest.len(),
    {
        let c = rest.remove(0);
        assert(c == all[i as int]);
        assert(all.take(i + 1).drop_last() =~= all.take(i as int));
        assert(all.take(i + 1).last() == all[i as int]);
        assert(rest@ =~= all.skip(i + 1));
        match any_glob_matches(&patterns, &c.relative_path) {
            None => {
                assert(!found_ok(pats, all[i as int]));
                return None;
            },
            Some(false) => {},
            Some(true) => {
                let rel = to_chars(c.relative_path.as_str());
                let readable = match &c.manifest.repository {
                    None => true,
                    Some(Repository::Path(u)) => format_url(u).is_some(),
                    Some(Repository::Object { url, .. }) => match url {
                        Some(u) => format_url(u).is_some(),
                        None => false,
                    },
                };
                if !ends_with_chars(&rel, &suffix) || c.manifest.name.is_none() || !readable {
                    assert(!found_ok(pats, all[i as int]));
                    return None;
                }
                let FoundManifest { relative_path, manifest, pkg_json } = c;
                let private = match manifest.private {
                    Some(Private::True) => true,
                    _ => false,
                };
                let name = match &manifest.name {
                    Some(n) => n.clone(),
                    None => String::new(),
                };
                assert(name@ == manifest.name->0@);
                proof {
                    reveal_strlit("/package.json");
                }
                assert(suffix@.len() == 13);
                assert(rel.len() >= 13);
                let dir = substring(&rel, 0, rel.len() - 13);
                assert(rel@.subrange(0, rel@.len() - 13) =~= manifest_dir(relative_path@));
                let relative = substring(&rel, 1, rel.len());
                assert(rel@.subrange(1, rel@.len() as int) =~= relative_path@.skip(1));
                let json_path = path_join(project_root, &relative_path);
                let package_path = path_join(project_root, &dir);
                let pkg = described_package(
                    name,
                    private,
                    json_path,
                    package_path,
                    relative,
                    pkg_json,
                    false,
                    manifest,
                );
                out.push(pkg);
            },
        }
        i = i + 1;
    }
    assert(all.take(i as int) =~= all);
    Some(out)
}

/// The listing that the agent calls for.
pub open spec fn listing_fits(agent: Option<Agent>, listing: MonorepoListing) -> bool {
    match agent {
        Some(Agent::Pnpm) => listing is Pnpm,
        Some(Agent::Npm) | Some(Agent::Yarn) => listing is Workspaces,
        _ => listing is Empty,
    }
}

/// The packages of `pkgs` with a file of `files` under their directory, in
/// order.
pub open spec fn touched_packages(pkgs: Seq<PackageInfo>, files: Seq<Seq<char>>) -> Seq<PackageInfo>
    decreases pkgs.len(),
{
    if pkgs.len() == 0 {
        Seq::empty()
    } else if files_under(files, pkgs.last().package_path@).len() > 0 {
        touched_packages(pkgs.drop_last(), files).push(pkgs.last())
    } else {
        touched_packages(pkgs.drop_last(), files)
    }
}

impl Monorepo {
    /// The packages of the monorepo at `project_root`: for pnpm, every
    /// listed package, the root among them; for npm and yarn, the manifests
    /// that the workspaces select; none for bun or an unknown agent. `None`
    /// when a found manifest cannot be handled (see `found_ok`).
    pub fn get_packages(agent: Option<Agent>, project_root: &String, listing: MonorepoListing) -> (r:
        Option<Vec<PackageInfo>>)
        requires
            listing_fits(agent, listing),
            listing matches MonorepoListing::Pnpm(entries) ==> forall|i: int|
                0 <= i < entries@.len() ==> pnpm_listed_ok(project_root@, #[trigger] entries@[i]),
        ensures
            match listing {
                MonorepoListing::Pnpm(entries) => r matches Some(v) && v@.len() == entries@.len() && forall|
                    k: int,
                |
                    0 <= k < v@.len() ==> pnpm_listed_package(#[trigger] v@[k], project_root@, entries@[k]),
                MonorepoListing::Workspaces(workspaces, candidates) => {
                    let patterns = workspace_patterns_of(views(workspaces@));
                    let members = selected_manifests(patterns, candidates@);
                    &&& (r is Some <==> forall|i: int|
                        0 <= i < candidates@.len() ==> found_ok(patterns, #[trigger] candidates@[i]))
                    &&& r matches Some(v) ==> v@.len() == members.len() && forall|k: int|
                        0 <= k < v@.len() ==> found_package(#[trigger] v@[k], project_root@, members[k])
                },
                MonorepoListing::Empty => r matches Some(v) && v@.len() == 0,
            },
    {
        match listing {
            MonorepoListing::Pnpm(entries) => Some(pnpm_listed_packages(project_root, entries)),
            MonorepoListing::Workspaces(workspaces, candidates) => found_packages(
                project_root,
                &workspaces,
                candidates,
            ),
            MonorepoListing::Empty => Some(Vec::new()),
        }
    }

    /// The packages with a changed file under their directory, each once, in
    /// order.
    pub fn get_changed_packages(packages: Vec<PackageInfo>, changed_files: &Vec<String>) -> (r: Vec<
        PackageInfo,
    >)
        ensures
            r@ == touched_packages(packages@, views(changed_files@)),
    {
        let ghost all = packages@;
        let ghost files = views(changed_files@);
        let n = packages.len();
        let mut rest = packages;
        let mut out: Vec<PackageInfo> = Vec::new();
        let mut i: usize = 0;
        while rest.len() > 0
            invariant
                i + rest@.len() == all.len(),
                all.len() == n,
                rest@ == all.skip(i as int),
                files == views(changed_files@),
                out@ == touched_packages(all.take(i as int), files),
            decreases rest.len(),
        {
            let pkg = rest.remove(0);
            assert(pkg == all[i as int]);
            assert(all.take(i + 1).drop_last() =~= all.take(i as int));
            assert(all.take(i + 1).last() == all[i as int]);
            assert(rest@ =~= all.skip(i + 1));
            let under = filter_files_under(changed_files, &pkg.package_path);
            if under.len() > 0 {
                out.push(pkg);
            }
            i = i + 1;
        }
        assert(all.take(i as int) =~= all);
        out
    }
}

} // verus!
