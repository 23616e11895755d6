use workspace_node_tools::json::{get, object_keys, set_member, JsonValue};
use workspace_node_tools::manager::{DirLockFiles, PackageManager};
use workspace_node_tools::monorepo::packages::Monorepo;
use workspace_node_tools::packages::{
    get_changed_packages, get_monorepo_package_manager, get_package_repository_info, get_packages,
    is_valid_manifest, parse_repository_info, pnpm_packages, read_name, read_private,
    read_repository_url, read_version, workspace_packages, workspace_patterns, PackageInfo,
    PackageListing, PnpmEntry, WorkspaceCandidate,
};

fn s(v: &str) -> JsonValue {
    JsonValue::Str(v.to_string())
}

fn obj(members: Vec<(&str, JsonValue)>) -> JsonValue {
    JsonValue::Object(members.into_iter().map(|(k, v)| (k.to_string(), v)).collect())
}

fn manifest(name: &str, version: &str) -> JsonValue {
    obj(vec![
        ("name", s(name)),
        ("version", s(version)),
        ("repository", obj(vec![("url", s("https://github.com/websublime/workspace-node-tools.git"))])),
        ("dependencies", obj(vec![("@scope/package-a", s("1.0.0"))])),
    ])
}

fn package(name: &str, path: &str) -> PackageInfo {
    PackageInfo {
        name: name.to_string(),
        private: false,
        package_json_path: format!("{}/package.json", path),
        package_path: path.to_string(),
        package_relative_path: String::new(),
        pkg_json: manifest(name, "1.0.0"),
        root: false,
        version: "1.0.0".to_string(),
        url: String::new(),
        repository_info: None,
        changed_files: vec![],
    }
}

#[test]
fn repository_info_of_url() {
    let info = get_package_repository_info(&"https://github.com/websublime/workspace-node-tools.git".to_string());
    assert_eq!(info.domain, "github.com");
    assert_eq!(info.orga, "websublime");
    assert_eq!(info.project, "workspace-node-tools");
    let info = parse_repository_info(&"git+https://gitlab.com/org/group/repo.git".to_string()).unwrap();
    assert_eq!(info.domain, "gitlab.com");
    assert_eq!(info.orga, "org");
    assert_eq!(info.project, "grouprepo");
    assert!(parse_repository_info(&"not a url".to_string()).is_none());
    let raw = Monorepo::get_package_repository_info(&"https://github.com/websublime/tools.git".to_string());
    assert_eq!(raw.orga, "websublime/");
    assert_eq!(raw.project, "tools.git");
}

#[test]
fn manifest_fields_with_defaults() {
    let m = manifest("@scope/a", "2.1.0");
    assert_eq!(read_name(&m), "@scope/a");
    assert_eq!(read_version(&m), "2.1.0");
    assert!(!read_private(&m));
    assert_eq!(read_repository_url(&m), Some("https://github.com/websublime/workspace-node-tools.git".to_string()));
    let empty = obj(vec![]);
    assert_eq!(read_name(&empty), "unknown");
    assert_eq!(read_version(&empty), "0.0.0");
    assert_eq!(read_repository_url(&empty), Some("https://github.com/my-orga/my-repo".to_string()));
    let private = obj(vec![("private", JsonValue::Bool(true)), ("repository", s("https://x.io/o/p"))]);
    assert!(read_private(&private));
    assert_eq!(read_repository_url(&private), Some("https://x.io/o/p".to_string()));
    let bad = obj(vec![("repository", obj(vec![("url", JsonValue::Bool(true))]))]);
    assert_eq!(read_repository_url(&bad), None);
    assert!(!is_valid_manifest(&bad));
    assert!(is_valid_manifest(&m));
}

#[test]
fn json_members() {
    let mut members = vec![("a".to_string(), s("1"))];
    set_member(&mut members, "b".to_string(), s("2"));
    set_member(&mut members, "a".to_string(), s("3"));
    let v = JsonValue::Object(members);
    assert_eq!(object_keys(&v), vec!["a", "b"]);
    assert!(matches!(get(&v, "a"), Some(JsonValue::Str(x)) if x == "3"));
    assert!(get(&v, "c").is_none());
    assert!(get(&s("x"), "a").is_none());
}

#[test]
fn update_versions_in_manifest() {
    let mut p = package("@scope/b", "/repo/packages/b");
    p.update_version("2.0.0".to_string());
    assert_eq!(p.version, "2.0.0");
    assert_eq!(read_version(&p.pkg_json), "2.0.0");
    p.update_dependency_version("@scope/package-a".to_string(), "1.1.0".to_string());
    let deps = get(&p.pkg_json, "dependencies").unwrap();
    assert!(matches!(get(deps, "@scope/package-a"), Some(JsonValue::Str(x)) if x == "1.1.0"));
    p.update_dependency_version("@scope/unknown".to_string(), "9.9.9".to_string());
    let deps = get(&p.pkg_json, "dependencies").unwrap();
    assert!(get(deps, "@scope/unknown").is_none());
    p.update_dev_dependency_version("@scope/package-a".to_string(), "1.2.0".to_string());
    assert!(get(&p.pkg_json, "devDependencies").is_none());
    let mut n = package("x", "/repo/x");
    n.pkg_json = JsonValue::Null;
    n.update_version("0.1.0".to_string());
    assert_eq!(read_version(&n.pkg_json), "0.1.0");
}

#[test]
fn changed_files_of_a_package() {
    let mut p = package("@scope/b", "/repo/packages/b");
    p.push_changed_file("/repo/packages/b/a.js".to_string());
    p.extend_changed_files(vec!["/repo/packages/b/c.js".to_string(), "/repo/other.js".to_string()]);
    assert_eq!(p.get_changed_files(), vec!["/repo/packages/b/a.js", "/repo/packages/b/c.js"]);
}

#[test]
fn workspace_globs() {
    let w = vec!["packages/*".to_string(), "apps/web".to_string()];
    assert_eq!(workspace_patterns(&w), vec!["packages/**/package.json", "apps/web/package.json"]);
}

#[test]
fn npm_workspace_packages() {
    let workspaces = vec!["packages/*".to_string()];
    let candidates = vec![
        WorkspaceCandidate { relative_path: "package.json".to_string(), pkg_json: manifest("root", "0.0.0") },
        WorkspaceCandidate { relative_path: "packages/package-a/package.json".to_string(), pkg_json: manifest("@scope/package-a", "1.0.0") },
        WorkspaceCandidate { relative_path: "packages/package-b/package.json".to_string(), pkg_json: manifest("@scope/package-b", "1.2.0") },
    ];
    let pkgs = workspace_packages(&"/repo".to_string(), &workspaces, candidates).unwrap();
    assert_eq!(pkgs.len(), 2);
    assert_eq!(pkgs[0].name, "@scope/package-a");
    assert_eq!(pkgs[0].package_json_path, "/repo/packages/package-a/package.json");
    assert_eq!(pkgs[0].package_path, "/repo/packages/package-a");
    assert_eq!(pkgs[0].package_relative_path, "packages/package-a");
    assert_eq!(pkgs[1].version, "1.2.0");
    assert_eq!(pkgs[1].repository_info.as_ref().unwrap().project, "workspace-node-tools");
}

#[test]
fn pnpm_workspace_packages() {
    let entries = vec![
        PnpmEntry { name: "root".to_string(), path: "/repo".to_string(), private: true, pkg_json: manifest("root", "0.0.0") },
        PnpmEntry { name: "@scope/package-a".to_string(), path: "/repo/packages/package-a".to_string(), private: false, pkg_json: manifest("@scope/package-a", "1.0.0") },
    ];
    let pkgs = pnpm_packages(&"/repo".to_string(), entries);
    assert_eq!(pkgs.len(), 1);
    assert_eq!(pkgs[0].package_relative_path, "packages/package-a");
    assert_eq!(pkgs[0].package_json_path, "/repo/packages/package-a/package.json");
    let none = get_packages(Some(PackageManager::Bun), &"/repo".to_string(), PackageListing::Empty).unwrap();
    assert!(none.is_empty());
}

#[test]
fn monorepo_package_manager_from_lock_files() {
    let dirs = vec![
        DirLockFiles { path: "/repo/packages/a".to_string(), files: vec![] },
        DirLockFiles { path: "/repo".to_string(), files: vec!["pnpm-lock.yaml".to_string()] },
    ];
    assert_eq!(get_monorepo_package_manager(&dirs), Some(PackageManager::Pnpm));
    assert_eq!(Monorepo::get_project_root_path(&dirs), Some("/repo".to_string()));
}

#[test]
fn changed_packages_get_their_first_file() {
    let pkgs = vec![package("a", "/repo/packages/a"), package("b", "/repo/packages/b")];
    let files = vec![
        "/repo/packages/b/one.js".to_string(),
        "/repo/packages/b/two.js".to_string(),
    ];
    let changed = get_changed_packages(pkgs, &files);
    assert_eq!(changed.len(), 1);
    assert_eq!(changed[0].name, "b");
    assert_eq!(changed[0].get_changed_files(), vec!["/repo/packages/b/one.js"]);
}
