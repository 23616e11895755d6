use workspace_node_tools::agent::manager::Agent;
use workspace_node_tools::conventional::{
    conventional_options_or_default, remote_url, repository_info_or_default,
    ConventionalPackageOptions,
};
use workspace_node_tools::manager::{
    detect_package_manager, manager_of_files, test_monorepo_lock_files, walk_reverse_dir, DirLockFiles,
    PackageManager,
};
use workspace_node_tools::monorepo::errors::PackageJsonErrorEnum;
use workspace_node_tools::paths::{get_git_root_dir, get_project_root_path};
use workspace_node_tools::utils::{package_scope_name_version, parse_package_scope, strip_trailing_newline};
use workspace_node_tools::workspace_std::config::{get_changes_config, get_cliff_config};
use workspace_node_tools::workspace_std::git::{GitOutput, Repository};

fn dir(path: &str, files: Vec<&str>) -> DirLockFiles {
    DirLockFiles { path: path.to_string(), files: files.into_iter().map(|f| f.to_string()).collect() }
}

#[test]
fn package_manager_by_lock_file() {
    assert_eq!(detect_package_manager(&vec![dir("/r", vec!["package-lock.json"])]), Some(PackageManager::Npm));
    assert_eq!(detect_package_manager(&vec![dir("/r", vec!["yarn.lock"])]), Some(PackageManager::Yarn));
    assert_eq!(detect_package_manager(&vec![dir("/r", vec!["pnpm-lock.yaml"])]), Some(PackageManager::Pnpm));
    assert_eq!(detect_package_manager(&vec![dir("/r", vec!["bun.lockb"])]), Some(PackageManager::Bun));
    assert_eq!(detect_package_manager(&vec![dir("/r", vec!["README.md"])]), None);
    assert_eq!(PackageManager::Pnpm.to_string(), "pnpm");
    assert_eq!(Agent::detect(&vec![dir("/r", vec!["yarn.lock"])]), Some(Agent::Yarn));
    assert_eq!(walk_reverse_dir(&vec![dir("/r/a", vec![]), dir("/r", vec!["bun.lockb"])]), Some("/r".to_string()));
}

#[test]
fn project_root_prefers_git() {
    let dirs = vec![dir("/r/a", vec![]), dir("/r", vec!["yarn.lock"])];
    assert_eq!(get_project_root_path(Some("/git".to_string()), &dirs, &"/r/a".to_string()), Some("/git".to_string()));
    assert_eq!(get_project_root_path(None, &dirs, &"/r/a".to_string()), Some("/r".to_string()));
    assert_eq!(get_project_root_path(None, &vec![], &"/r/a".to_string()), Some("/r/a".to_string()));
    assert_eq!(get_git_root_dir(true, &"/git\n".to_string()), Some("/git".to_string()));
    assert_eq!(get_git_root_dir(false, &"".to_string()), None);
}

#[test]
fn package_scope_names() {
    let m = package_scope_name_version("@scope/package-a@1.0.0").unwrap();
    assert_eq!(m.full, "@scope/package-a@1.0.0");
    assert_eq!(m.name, "@scope/package-a");
    assert_eq!(m.version, "1.0.0");
    assert_eq!(m.path, None);
    let m = parse_package_scope("pkg@2.0.0/lib/index.js").unwrap();
    assert_eq!(m.name, "pkg");
    assert_eq!(m.version, "2.0.0");
    assert_eq!(m.path, Some("/lib/index.js".to_string()));
    let m = parse_package_scope("pkg").unwrap();
    assert_eq!(m.version, "");
    assert!(parse_package_scope("@scope").is_none());
    assert!(parse_package_scope("").is_none());
}

#[test]
fn trailing_newline_is_stripped() {
    assert_eq!(strip_trailing_newline(&"abc\n".to_string()), "abc");
    assert_eq!(strip_trailing_newline(&"abc\r\n".to_string()), "abc");
    assert_eq!(strip_trailing_newline(&"  abc  ".to_string()), "abc");
}

#[test]
fn changelog_defaults() {
    let o = conventional_options_or_default(&None);
    assert_eq!(o.version, Some("0.0.0".to_string()));
    assert_eq!(o.title, None);
    let given = Some(ConventionalPackageOptions { version: None, title: Some("# What changed?".to_string()) });
    let o = conventional_options_or_default(&given);
    assert_eq!(o.version, Some("0.0.0".to_string()));
    assert_eq!(o.title, Some("# What changed?".to_string()));
    let r = repository_info_or_default(&None);
    assert_eq!(r.orga, "my-orga");
    assert_eq!(r.project, "my-repo");
    assert_eq!(r.domain, "https://github.com");
    assert_eq!(remote_url(&r.domain, &r.orga, &r.project), "https://github.com/my-orga/my-repo");
}

#[test]
fn core_configuration() {
    let settings = get_changes_config(&None);
    assert_eq!(settings[0], ("message".to_string(), "chore(release): |---| release new version".to_string()));
    assert_eq!(settings[1].1, "github-actions[bot]");
    assert_eq!(get_cliff_config(), "cliff.toml");
}

#[test]
fn manifest_error_messages() {
    assert_eq!(PackageJsonErrorEnum::InvalidName("No valid name".to_string()).message(), "No valid name");
}

#[test]
fn repository_commands_and_outputs() {
    let repo = Repository::new(&"/repo".to_string());
    assert_eq!(repo.get_repo_path(), "/repo");
    let c = repo.add_all_command();
    assert_eq!(c.dir, "/repo");
    let ok = Some(GitOutput { success: true, stdout: Some("main\n".to_string()), stderr: Some(String::new()) });
    assert_eq!(repo.get_current_branch(ok).unwrap(), Some("main".to_string()));
    let failed = Some(GitOutput { success: false, stdout: Some(String::new()), stderr: Some("fatal".to_string()) });
    assert!(repo.get_current_branch(failed).is_err());
    assert!(repo.get_current_branch(None).is_err());
}

#[test]
fn test_monorepo_lock_files_are_detected() {
    for manager in [PackageManager::Npm, PackageManager::Yarn, PackageManager::Pnpm, PackageManager::Bun] {
        let files = test_monorepo_lock_files(manager);
        let names: Vec<String> = files.iter().map(|(name, _)| name.clone()).collect();
        assert_eq!(manager_of_files(&names), Some(manager));
    }
    let pnpm = test_monorepo_lock_files(PackageManager::Pnpm);
    assert_eq!(pnpm.len(), 2);
    assert_eq!(pnpm[0], ("pnpm-lock.yaml".to_string(), "lockfileVersion: '9.0'".to_string()));
    assert_eq!(pnpm[1].0, "pnpm-workspace.yaml");
    assert!(pnpm[1].1.contains("packages/*"));
}

#[test]
fn repository_init_reports_the_init_alone() {
    let repo = Repository::new(&"/repo".to_string());
    let ok = || Some(GitOutput { success: true, stdout: Some(String::new()), stderr: Some(String::new()) });
    let failed = || Some(GitOutput { success: false, stdout: Some(String::new()), stderr: Some("fatal".to_string()) });
    assert_eq!(repo.init(ok(), failed(), ok()).unwrap(), true);
    assert_eq!(repo.init(ok(), ok(), None).unwrap(), true);
    assert_eq!(repo.init(failed(), ok(), ok()).unwrap(), false);
}
