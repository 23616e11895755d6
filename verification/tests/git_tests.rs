use workspace_node_tools::git::commands::Git;
use workspace_node_tools::git::{
    get_all_files_changed_since_branch, get_commits_since, get_diverged_commit,
    get_last_known_publish_tag_info_for_all_packages,
    get_last_known_publish_tag_info_for_package, get_remote_or_local_tags, git_add_all,
    git_branch_from_commit, git_commit_message, git_config_status, git_current_branch,
    git_fetch_all, git_first_sha, git_first_sha_command, git_push, git_tag, git_workdir_unclean,
    publish_tags_can_be_compared, RemoteTags,
};
use workspace_node_tools::json::JsonValue;
use workspace_node_tools::packages::PackageInfo;

fn package(name: &str, version: &str, path: &str) -> PackageInfo {
    PackageInfo {
        name: name.to_string(),
        private: false,
        package_json_path: format!("{}/package.json", path),
        package_path: path.to_string(),
        package_relative_path: String::new(),
        pkg_json: JsonValue::Object(vec![]),
        root: false,
        version: version.to_string(),
        url: String::new(),
        repository_info: None,
        changed_files: vec![],
    }
}

fn tag(hash: &str, name: &str) -> RemoteTags {
    RemoteTags { hash: hash.to_string(), tag: name.to_string() }
}

fn sample_tags() -> (Vec<RemoteTags>, Vec<RemoteTags>) {
    let remote = vec![
        tag("ddd1fa69be3e6c6a8b2f18af8f8f5607106188db", "refs/tags/@b2x/workspace-node@1.0.4"),
        tag("c5353e1f3c9385c35f64e838a0a09dc4bb8f7b07", "refs/tags/@b2x/workspace-node@1.0.2"),
    ];
    let local = vec![
        tag("4a16b15bb5cfeca493c79231452e94e56487d6b4", "refs/tags/@b2x/workspace-node@0.9.9"),
        tag("ee5f8209e6d3b06fbf5712e424652e909a4cb5c2", "refs/tags/@b2x/workspace-node@1.0.5"),
    ];
    (remote, local)
}

#[test]
fn publish_tag_exact_version_is_chosen() {
    let (remote, local) = sample_tags();
    let pkg = package("@b2x/workspace-node", "1.0.2", "/repo/packages/node");
    let info = get_last_known_publish_tag_info_for_package(&pkg, &remote, &local).unwrap();
    assert_eq!(info.hash, "c5353e1f3c9385c35f64e838a0a09dc4bb8f7b07");
    assert_eq!(info.tag, "refs/tags/@b2x/workspace-node@1.0.2");
    assert_eq!(info.package, "@b2x/workspace-node");
}

#[test]
fn publish_tag_highest_version_without_exact_match() {
    let (remote, local) = sample_tags();
    let pkg = package("@b2x/workspace-node", "2.0.0", "/repo/packages/node");
    assert!(publish_tags_can_be_compared(&pkg.name, &pkg.version, &remote, &local));
    let info = get_last_known_publish_tag_info_for_package(&pkg, &remote, &local).unwrap();
    assert_eq!(info.hash, "ee5f8209e6d3b06fbf5712e424652e909a4cb5c2");
    assert_eq!(info.tag, "refs/tags/@b2x/workspace-node@1.0.5");
}

#[test]
fn publish_tag_sorted_newest_first_by_numeric_collation() {
    // "1.0" is contained in every 1.0.x tag; the newest of them comes first.
    let (remote, local) = sample_tags();
    let pkg = package("@b2x/workspace-node", "1.0", "/repo/packages/node");
    let info = get_last_known_publish_tag_info_for_package(&pkg, &remote, &local).unwrap();
    assert_eq!(info.tag, "refs/tags/@b2x/workspace-node@1.0.5");
    // Numeric collation puts 1.10.0 after 1.9.0 (a text order would not).
    let remote = vec![tag("a", "refs/tags/pkg@1.9.0"), tag("b", "refs/tags/pkg@1.10.0")];
    let pkg = package("pkg", "1", "/repo/pkg");
    let info = get_last_known_publish_tag_info_for_package(&pkg, &remote, &vec![]).unwrap();
    assert_eq!(info.hash, "b");
}

#[test]
fn publish_tag_highest_by_version_comparison() {
    // Tags whose names collate in another order than their versions: the
    // greatest version is chosen, not the first name.
    let remote = vec![tag("x", "refs/tags/a-pkg@1.0.0"), tag("y", "refs/tags/b-pkg@0.5.0")];
    let pkg = package("pkg", "3.0.0", "/repo/pkg");
    let info = get_last_known_publish_tag_info_for_package(&pkg, &remote, &vec![]).unwrap();
    assert_eq!(info.hash, "x");
}

#[test]
fn publish_tag_none_for_unknown_package() {
    let (remote, local) = sample_tags();
    let pkg = package("@other/pkg", "1.0.0", "/repo/packages/other");
    assert!(publish_tags_can_be_compared(&pkg.name, &pkg.version, &remote, &local));
    assert!(get_last_known_publish_tag_info_for_package(&pkg, &remote, &local).is_none());
}

#[test]
fn publish_tags_that_cannot_be_compared() {
    let remote = vec![tag("x", "refs/tags/pkg@abc")];
    assert!(!publish_tags_can_be_compared(
        &"pkg".to_string(),
        &"1.0.0".to_string(),
        &remote,
        &vec![]
    ));
    let pkgs = vec![package("pkg", "1.0.0", "/repo/pkg")];
    assert!(get_last_known_publish_tag_info_for_all_packages(&pkgs, &remote, &vec![]).is_none());
}

#[test]
fn publish_tags_for_all_packages_keep_found_ones() {
    let (remote, local) = sample_tags();
    let pkgs = vec![
        package("@b2x/workspace-node", "1.0.4", "/repo/packages/node"),
        package("@other/pkg", "1.0.0", "/repo/packages/other"),
    ];
    let infos = get_last_known_publish_tag_info_for_all_packages(&pkgs, &remote, &local).unwrap();
    assert_eq!(infos.len(), 1);
    assert_eq!(infos[0].as_ref().unwrap().hash, "ddd1fa69be3e6c6a8b2f18af8f8f5607106188db");
}

#[test]
fn commits_are_read_from_the_log() {
    let log = "#=#abc#=#Jane#=#jane@x.io#=#Mon, 1 Jan 2024 10:00:00 +0000#=#feat: one\n#+#\n#=#def#=#John#=#john@x.io#=#Tue, 2 Jan 2024 10:00:00 +0000#=#fix: two\n#+#\n".to_string();
    let commits = get_commits_since(true, &log);
    assert_eq!(commits.len(), 2);
    assert_eq!(commits[0].hash, "abc");
    assert_eq!(commits[0].author_name, "Jane");
    assert_eq!(commits[0].author_email, "jane@x.io");
    assert_eq!(commits[0].message, "feat: one");
    assert_eq!(commits[1].hash, "def");
    assert!(get_commits_since(false, &log).is_empty());
}

#[test]
fn tags_are_read_from_the_listing() {
    let listing = "ddd1 refs/tags/a@1.0.0\nccc2\trefs/tags/b@2.0.0\n".to_string();
    let tags = get_remote_or_local_tags(true, &listing);
    assert_eq!(tags.len(), 2);
    assert_eq!(tags[0].hash, "ddd1");
    assert_eq!(tags[0].tag, "refs/tags/a@1.0.0");
    assert_eq!(tags[1].tag, "refs/tags/b@2.0.0");
    assert_eq!(Git::get_remote_or_local_tags(false, &listing).len(), 0);
}

#[test]
fn command_arguments() {
    let cwd = "/repo".to_string();
    assert_eq!(git_add_all(&cwd).args, vec!["add", "."]);
    assert_eq!(git_add_all(&cwd).dir, "/repo");
    assert_eq!(git_fetch_all(&cwd, Some(true)).args, vec!["fetch", "origin", "--tags", "--force"]);
    assert_eq!(git_fetch_all(&cwd, None).args, vec!["fetch", "origin"]);
    assert_eq!(git_push(&cwd, Some(true)).args, vec!["push", "--follow-tags", "--no-verify"]);
    assert_eq!(git_push(&cwd, None).args, vec!["push", "--no-verify"]);
    assert_eq!(git_tag(&"v1".to_string(), None, &cwd).args, vec!["tag", "-a", "v1", "-m", "v1"]);
    assert_eq!(
        git_first_sha_command(&cwd, None).args,
        vec!["log", "main..HEAD", "--pretty=format:%h", "--reverse"]
    );
    assert_eq!(Git::fetch_all_tags(&cwd).args, vec!["fetch", "origin", "--tags", "--force"]);
    assert_eq!(
        Git::git_all_files_changed_since_sha_command(&"abc".to_string(), &cwd).args,
        vec!["--no-pager", "diff", "--name-only", "abc.."]
    );
}

#[test]
fn outputs_are_read() {
    assert_eq!(get_diverged_commit(true, &"abc123\n".to_string()), Some("abc123".to_string()));
    assert_eq!(get_diverged_commit(false, &"abc123\n".to_string()), None);
    assert_eq!(git_current_branch(&"main\n".to_string()), Some("main".to_string()));
    assert_eq!(git_current_branch(&"\n".to_string()), None);
    assert_eq!(git_branch_from_commit(&"".to_string()), None);
    assert!(git_workdir_unclean(&" M file.js\n".to_string()));
    assert!(!git_workdir_unclean(&"".to_string()));
    assert!(git_config_status(true, true));
    assert!(git_config_status(false, false));
    assert!(!git_config_status(true, false));
}

#[test]
fn commit_message_with_body_and_footer() {
    let m = git_commit_message("feat: x".to_string(), Some("body".to_string()), Some("footer".to_string()));
    assert_eq!(m, "feat: x\n\nbody\n\nfooter");
    let m = git_commit_message("feat: x".to_string(), None, Some("footer".to_string()));
    assert_eq!(m, "feat: x\n\nfooter");
}

#[test]
fn changed_files_per_package() {
    let pkgs = vec![package("a", "1.0.0", "/repo/packages/a"), package("b", "1.0.0", "/repo/packages/b")];
    let files = vec![
        "/repo/packages/b/index.js".to_string(),
        "/repo/packages/a/index.js".to_string(),
        "/repo/README.md".to_string(),
    ];
    let r = get_all_files_changed_since_branch(&pkgs, &files);
    assert_eq!(r, vec!["/repo/packages/a/index.js", "/repo/packages/b/index.js"]);
    let r = Git::get_all_files_changed_since_tag_infos(&pkgs, &vec![None, Some(files.clone())]);
    assert_eq!(r, vec!["/repo/packages/b/index.js"]);
}

#[test]
fn changed_files_since_tags_are_listed_once() {
    let pkgs = vec![package("a", "1.0.0", "/r/a"), package("b", "1.0.0", "/r/a/b")];
    let files = vec!["/r/a/b/x".to_string(), "/r/a/y".to_string()];
    let r = Git::get_all_files_changed_since_tag_infos(&pkgs, &vec![Some(files.clone()), Some(files.clone())]);
    assert_eq!(r, vec!["/r/a/b/x", "/r/a/y"]);
}

#[test]
fn first_sha_is_the_oldest_commit() {
    assert_eq!(git_first_sha(&"a1b2c3d\ne4f5a6b\n9c8d7e6".to_string()), "a1b2c3d");
    assert_eq!(git_first_sha(&"a1b2c3d".to_string()), "a1b2c3d");
    assert_eq!(git_first_sha(&"".to_string()), "");
}
