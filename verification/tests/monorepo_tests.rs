use workspace_node_tools::agent::manager::Agent;
use workspace_node_tools::json::JsonValue;
use workspace_node_tools::monorepo::packages::{
    FoundManifest, Monorepo, MonorepoListing, PackageInfo, PackageManifest, PnpmListed, Private,
    Repository,
};
use workspace_node_tools::monorepo::repo_url::format_url;

fn manifest(repository: Option<Repository>) -> PackageManifest {
    PackageManifest {
        name: Some("@scope/a".to_string()),
        version: Some("1.2.3".to_string()),
        description: Some("A package".to_string()),
        private: None,
        repository,
        files: Some(vec!["dist".to_string()]),
        license: Some("MIT".to_string()),
    }
}

fn package(name: &str, path: &str) -> PackageInfo {
    PackageInfo {
        name: name.to_string(),
        private: false,
        package_json_path: format!("{}/package.json", path),
        package_path: path.to_string(),
        package_relative_path: path.to_string(),
        pkg_json: JsonValue::Null,
        root: false,
        version: "1.0.0".to_string(),
        url: String::new(),
        repository_info: None,
    }
}

#[test]
fn format_repo_url_of_git_ssh_url() {
    let repo = Some(Repository::Object {
        type_: Some("git".to_string()),
        url: Some("git+ssh://git@github.com/websublime/workspace-tools.git".to_string()),
        directory: None,
    });
    assert_eq!(
        Monorepo::format_repo_url(repo),
        "https://github.com/websublime/workspace-tools"
    );
}

#[test]
fn format_repo_url_of_https_url() {
    let repo = Some(Repository::Path("https://github.com/websublime/tools.git".to_string()));
    assert_eq!(Monorepo::format_repo_url(repo), "https://github.com/websublime/tools");
}

#[test]
fn format_repo_url_of_shorthand_with_path() {
    let repo = Some(Repository::Path("gitlab.com:group/sub/project".to_string()));
    assert_eq!(
        Monorepo::format_repo_url(repo),
        "https://gitlab.com/group/project/project"
    );
}

#[test]
fn format_repo_url_without_repository() {
    assert_eq!(Monorepo::format_repo_url(None), "https://github.com/my-orga/my-repo");
}

#[test]
fn format_url_refuses_what_does_not_match() {
    assert_eq!(format_url(&"no-slash-here".to_string()), None);
    assert_eq!(format_url(&"host:port".to_string()), None);
    assert_eq!(
        format_url(&"ssh://git@example.org/team/app.git/".to_string()),
        Some("https://example.org/team/app".to_string())
    );
}

#[test]
fn format_url_matches_a_later_line() {
    assert_eq!(
        format_url(&"x:y:z\nexample.org/team/app".to_string()),
        Some("https://example.org/team/app".to_string())
    );
    assert_eq!(
        format_url(&"a/b\nexample.org/team/app".to_string()),
        Some("https://a/b\nexample.org/app/app".to_string())
    );
}

#[test]
fn repository_info_of_a_formatted_url() {
    let url = Monorepo::format_repo_url(Some(Repository::Path(
        "git@github.com:websublime/workspace-tools.git".to_string(),
    )));
    assert_eq!(url, "https://github.com/websublime/workspace-tools");
    let info = Monorepo::get_package_repository_info(&url);
    assert_eq!(info.domain, "github.com");
    assert_eq!(info.orga, "websublime/");
    assert_eq!(info.project, "workspace-tools");
}

#[test]
fn validate_complete_manifests() {
    let repo = Some(Repository::Path("https://github.com/a/b".to_string()));
    assert!(Monorepo::validate_packages_json(&vec![manifest(repo)]));
    assert!(Monorepo::validate_packages_json(&vec![]));
}

#[test]
fn validate_rejects_incomplete_manifests() {
    let repo = || Some(Repository::Path("https://github.com/a/b".to_string()));
    let mut m = manifest(repo());
    m.name = Some("unknown".to_string());
    assert!(!Monorepo::validate_packages_json(&vec![m]));
    let mut m = manifest(repo());
    m.version = None;
    assert!(!Monorepo::validate_packages_json(&vec![m]));
    let mut m = manifest(repo());
    m.description = None;
    assert!(!Monorepo::validate_packages_json(&vec![m]));
    assert!(!Monorepo::validate_packages_json(&vec![manifest(None)]));
    let m = manifest(Some(Repository::Object { type_: None, url: None, directory: None }));
    assert!(!Monorepo::validate_packages_json(&vec![m]));
    let mut m = manifest(repo());
    m.files = Some(vec![]);
    assert!(!Monorepo::validate_packages_json(&vec![m]));
    let mut m = manifest(repo());
    m.license = None;
    assert!(!Monorepo::validate_packages_json(&vec![manifest(repo()), m]));
}

#[test]
fn changed_packages_are_those_under_a_changed_file() {
    let packages = vec![
        package("@scope/a", "/repo/packages/a"),
        package("@scope/b", "/repo/packages/b"),
        package("@scope/c", "/repo/packages/c"),
    ];
    let files = vec![
        "/repo/packages/c/index.js".to_string(),
        "/repo/packages/a/index.js".to_string(),
        "/repo/packages/a/lib.js".to_string(),
    ];
    let changed = Monorepo::get_changed_packages(packages, &files);
    let names: Vec<String> = changed.iter().map(|p| p.name.clone()).collect();
    assert_eq!(names, vec!["@scope/a".to_string(), "@scope/c".to_string()]);
}

#[test]
fn pnpm_packages_include_the_root() {
    let listed = vec![
        PnpmListed {
            name: "root".to_string(),
            path: "/repo".to_string(),
            private: true,
            manifest: manifest(None),
            pkg_json: JsonValue::Null,
        },
        PnpmListed {
            name: "@scope/a".to_string(),
            path: "/repo/packages/a".to_string(),
            private: false,
            manifest: manifest(Some(Repository::Path("github.com/org/a".to_string()))),
            pkg_json: JsonValue::Null,
        },
    ];
    let packages = Monorepo::get_packages(
        Some(Agent::Pnpm),
        &"/repo".to_string(),
        MonorepoListing::Pnpm(listed),
    )
    .unwrap();
    assert_eq!(packages.len(), 2);
    assert!(packages[0].root);
    assert_eq!(packages[0].package_relative_path, ".");
    assert_eq!(packages[0].url, "https://github.com/my-orga/my-repo");
    assert_eq!(packages[1].package_relative_path, "packages/a");
    assert_eq!(packages[1].package_json_path, "/repo/packages/a/package.json");
    assert_eq!(packages[1].version, "1.2.3");
    assert_eq!(packages[1].url, "https://github.com/org/a");
    let info = packages[1].repository_info.as_ref().unwrap();
    assert_eq!(info.domain, "github.com");
    assert_eq!(info.project, "a");
}

#[test]
fn workspace_packages_are_the_selected_manifests() {
    let mut private = manifest(None);
    private.private = Some(Private::True);
    private.version = None;
    let found = vec![
        FoundManifest {
            relative_path: "packages/a/package.json".to_string(),
            manifest: private,
            pkg_json: JsonValue::Null,
        },
        FoundManifest {
            relative_path: "docs/package.json".to_string(),
            manifest: manifest(None),
            pkg_json: JsonValue::Null,
        },
    ];
    let packages = Monorepo::get_packages(
        Some(Agent::Npm),
        &"/repo".to_string(),
        MonorepoListing::Workspaces(vec!["packages/*".to_string()], found),
    )
    .unwrap();
    assert_eq!(packages.len(), 1);
    assert!(packages[0].private);
    assert_eq!(packages[0].version, "0.0.0");
    assert_eq!(packages[0].package_path, "/repo/packages/a");
    assert_eq!(packages[0].package_json_path, "/repo/packages/a/package.json");
    assert_eq!(packages[0].package_relative_path, "ackages/a/package.json");
}

#[test]
fn bun_has_no_packages() {
    let packages =
        Monorepo::get_packages(Some(Agent::Bun), &"/repo".to_string(), MonorepoListing::Empty).unwrap();
    assert!(packages.is_empty());
}
