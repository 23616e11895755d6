use workspace_node_tools::bumps::Bump;
use workspace_node_tools::changes::{
    add_change, change_exist, changes_file_exist, get_change, get_changes, get_package_change,
    init_changes, remove_change, Change, ChangesOptions,
};
use workspace_node_tools::workspace_std::changes::{Change as CoreChange, Changes};

fn change(package: &str) -> Change {
    Change { package: package.to_string(), release_as: Bump::Major, deploy: vec!["production".to_string()] }
}

#[test]
fn init_defaults_and_options() {
    let data = init_changes(None, &None);
    assert_eq!(data.message, Some("chore(release): release new version".to_string()));
    assert_eq!(data.git_user_name, Some("Git Bot".to_string()));
    assert_eq!(data.git_user_email, Some("git.bot@domain.com".to_string()));
    let options = ChangesOptions { message: Some("release".to_string()), git_user_name: None, git_user_email: None };
    let data = init_changes(None, &Some(options));
    assert_eq!(data.message, Some("release".to_string()));
    assert_eq!(data.git_user_name, Some("Git Bot".to_string()));
}

#[test]
fn add_then_read_back() {
    let mut data = init_changes(None, &None);
    add_change(&mut data, &change("test-package"), Some("main".to_string()));
    let file = Some(data);
    let changes = get_change(&file, &"main".to_string());
    assert_eq!(changes.len(), 1);
    assert_eq!(changes[0].package, "test-package");
    let found = get_package_change(&file, &"test-package".to_string(), &"main".to_string()).unwrap();
    assert_eq!(found.deploy, vec!["production"]);
    assert!(get_package_change(&file, &"other".to_string(), &"main".to_string()).is_none());
    assert!(change_exist(&file, &"main".to_string(), &vec!["test-package".to_string()]));
    assert!(!change_exist(&file, &"main".to_string(), &vec!["test-package".to_string(), "@scope/package-a".to_string()]));
}

#[test]
fn duplicate_add_is_ignored() {
    let mut data = init_changes(None, &None);
    add_change(&mut data, &change("test-package"), None);
    add_change(&mut data, &change("test-package"), None);
    let file = Some(data);
    assert_eq!(get_change(&file, &"main".to_string()).len(), 1);
}

#[test]
fn remove_branch_changes() {
    let mut data = init_changes(None, &None);
    add_change(&mut data, &change("test-package"), Some("main".to_string()));
    assert!(remove_change(&mut data, &"main".to_string()));
    assert!(!remove_change(&mut data, &"main".to_string()));
    let file = Some(data);
    assert!(get_change(&file, &"main".to_string()).is_empty());
    let all = get_changes(file);
    assert!(!all.changes.contains_key(&"main".to_string()));
}

#[test]
fn change_file_is_found_among_root_entries() {
    assert!(changes_file_exist(&vec!["package.json".to_string(), ".changes.json".to_string()]));
    assert!(!changes_file_exist(&vec!["package.json".to_string()]));
}

#[test]
fn core_changes_add_to_existing_branch() {
    let core = Changes::new(&"/repo".to_string());
    assert_eq!(core.root(), "/repo");
    let mut config = core.init(None);
    assert_eq!(config.git_user_name, Some("github-actions[bot]".to_string()));
    config.changes.insert(
        "main".to_string(),
        workspace_node_tools::workspace_std::changes::ChangeMeta { deploy: vec![], pkgs: vec![] },
    );
    let mut file = Some(config);
    let c = CoreChange { package: "a".to_string(), release_as: "patch".to_string() };
    assert!(core.add(&mut file, c, Some(vec!["production".to_string()]), None));
    let meta = file.as_ref().unwrap().changes.get(&"main".to_string()).unwrap();
    assert_eq!(meta.pkgs.len(), 1);
    assert_eq!(meta.deploy, vec!["production"]);
    let mut none = None;
    let c = CoreChange { package: "a".to_string(), release_as: "patch".to_string() };
    assert!(!core.add(&mut none, c, None, None));
}
