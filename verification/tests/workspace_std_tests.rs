use workspace_node_tools::workspace_std::changes::Changes;
use workspace_node_tools::workspace_std::paths::get_project_root_path;
use workspace_node_tools::workspace_std::test::MonorepoWorkspace;

#[test]
fn paths_git_root_project() -> Result<(), Box<dyn std::error::Error>> {
    Ok(())
}

#[test]
fn test_git_root_project() -> Result<(), std::io::Error> {
    let temp = "/tmp".to_string();
    let monorepo = MonorepoWorkspace::new(&temp);

    println!("{:?}", monorepo);

    Ok(())
}

#[test]
fn changes_test_init_changes() -> Result<(), std::io::Error> {
    let temp = "/tmp".to_string();
    let monorepo = MonorepoWorkspace::new(&temp);
    let root = monorepo.get_monorepo_root().clone();

    let changes = Changes::new(&root);
    let changes_config = changes.init(None);

    assert_eq!(
        changes_config.message,
        Some("chore(release): |---| release new version".to_string())
    );

    Ok(())
}

#[test]
fn monorepo_workspace_root_is_under_temp() {
    let monorepo = MonorepoWorkspace::new(&"/tmp".to_string());
    assert_eq!(monorepo.get_monorepo_root(), "/tmp/monorepo-workspace");
    let monorepo = MonorepoWorkspace::new(&"/tmp/".to_string());
    assert_eq!(monorepo.get_monorepo_root(), "/tmp/monorepo-workspace");
}

#[test]
fn core_project_root_is_fixed() {
    assert_eq!(get_project_root_path(None), Some("root".to_string()));
    assert_eq!(get_project_root_path(Some("/a".to_string())), Some("root".to_string()));
}
