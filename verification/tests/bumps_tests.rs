use workspace_node_tools::bumps::{
    bump_parsed, get_bumps, next_version, snapshot_prerelease, recommended_release, release_commit_message, Bump, BumpOptions,
};
use workspace_node_tools::changes::Change;
use workspace_node_tools::json::{get, JsonValue};
use workspace_node_tools::packages::{read_version, PackageInfo};

fn s(v: &str) -> JsonValue {
    JsonValue::Str(v.to_string())
}

fn obj(members: Vec<(&str, JsonValue)>) -> JsonValue {
    JsonValue::Object(members.into_iter().map(|(k, v)| (k.to_string(), v)).collect())
}

fn package(name: &str, version: &str, deps: Vec<(&str, JsonValue)>) -> PackageInfo {
    PackageInfo {
        name: name.to_string(),
        private: false,
        package_json_path: format!("/repo/packages/{}/package.json", name),
        package_path: format!("/repo/packages/{}", name),
        package_relative_path: format!("packages/{}", name),
        pkg_json: obj(vec![("name", s(name)), ("version", s(version)), ("dependencies", obj(deps))]),
        root: false,
        version: version.to_string(),
        url: String::new(),
        repository_info: None,
        changed_files: vec![],
    }
}

fn options(changes: Vec<Change>, sync: bool) -> BumpOptions {
    BumpOptions {
        changes,
        since: None,
        release_as: None,
        fetch_all: None,
        fetch_tags: None,
        sync_deps: Some(sync),
        push: None,
        cwd: None,
    }
}

fn change(name: &str, bump: Bump) -> Change {
    Change { package: name.to_string(), release_as: bump, deploy: vec!["production".to_string()] }
}

#[test]
fn next_versions() {
    let v = "1.2.3".to_string();
    let none = String::new();
    assert_eq!(next_version(&v, Bump::Major, &none), Some("2.0.0".to_string()));
    assert_eq!(next_version(&v, Bump::Minor, &none), Some("1.3.0".to_string()));
    assert_eq!(next_version(&v, Bump::Patch, &none), Some("1.2.4".to_string()));
    assert_eq!(next_version(&"1.2.3-beta.1+build".to_string(), Bump::Patch, &none), Some("1.2.4".to_string()));
    assert_eq!(next_version(&"9.10.99".to_string(), Bump::Patch, &none), Some("9.10.100".to_string()));
    assert_eq!(next_version(&v, Bump::Snapshot, &"abc1234".to_string()), Some("1.2.3-alpha.0.abc1234".to_string()));
    assert_eq!(next_version(&v, Bump::Snapshot, &"0123".to_string()), Some("1.2.3".to_string()));
    assert_eq!(next_version(&"abc".to_string(), Bump::Patch, &none), None);
    assert_eq!(Bump::bump_major(&"0.9.0".to_string()), "1.0.0");
    assert_eq!(Bump::bump_minor(&"0.9.0".to_string()), "0.10.0");
    assert_eq!(Bump::bump_patch(&"0.9.0".to_string()), "0.9.1");
    assert_eq!(Bump::bump_snapshot(&"0.9.0".to_string(), &"f00d".to_string()), "0.9.0-alpha.0.f00d");
}

#[test]
fn single_bump() {
    let pkgs = vec![package("a", "1.0.0", vec![]), package("b", "1.0.0", vec![])];
    let bumps = get_bumps(&options(vec![change("a", Bump::Minor)], false), pkgs, &String::new()).unwrap();
    assert_eq!(bumps.len(), 1);
    assert_eq!(bumps[0].from, "1.0.0");
    assert_eq!(bumps[0].to, "1.1.0");
    assert_eq!(bumps[0].package_info.name, "a");
    assert_eq!(bumps[0].package_info.version, "1.1.0");
    assert_eq!(read_version(&bumps[0].package_info.pkg_json), "1.1.0");
}

#[test]
fn dependency_sync_bumps_dependents() {
    let pkgs = vec![
        package("a", "1.0.0", vec![]),
        package("b", "2.0.0", vec![("a", s("1.0.0"))]),
        package("c", "3.0.0", vec![]),
    ];
    let bumps = get_bumps(&options(vec![change("a", Bump::Major)], true), pkgs, &String::new()).unwrap();
    assert_eq!(bumps.len(), 2);
    assert_eq!(bumps[0].package_info.name, "a");
    assert_eq!(bumps[0].to, "2.0.0");
    assert_eq!(bumps[1].package_info.name, "b");
    assert_eq!(bumps[1].to, "2.0.1");
    let deps = get(&bumps[1].package_info.pkg_json, "dependencies").unwrap();
    assert!(matches!(get(deps, "a"), Some(JsonValue::Str(x)) if x == "2.0.0"));
}

#[test]
fn no_sync_no_dependents() {
    let pkgs = vec![package("a", "1.0.0", vec![]), package("b", "2.0.0", vec![("a", s("1.0.0"))])];
    let bumps = get_bumps(&options(vec![change("a", Bump::Patch)], false), pkgs, &String::new()).unwrap();
    assert_eq!(bumps.len(), 1);
    assert_eq!(bumps[0].to, "1.0.1");
}

#[test]
fn changed_package_keeps_its_own_change_under_sync() {
    let pkgs = vec![package("a", "1.0.0", vec![]), package("b", "2.0.0", vec![("a", s("1.0.0"))])];
    let changes = vec![change("a", Bump::Patch), change("b", Bump::Minor)];
    let bumps = get_bumps(&options(changes, true), pkgs, &String::new()).unwrap();
    assert_eq!(bumps.len(), 2);
    assert_eq!(bumps[1].to, "2.1.0");
}

#[test]
fn bump_of_a_non_semver_version_fails() {
    let pkgs = vec![package("a", "one", vec![])];
    assert!(get_bumps(&options(vec![change("a", Bump::Patch)], false), pkgs, &String::new()).is_none());
}

#[test]
fn recommended_release_defaults() {
    let (b, d) = recommended_release(None, &None);
    assert_eq!(b, Bump::Patch);
    assert_eq!(d, vec!["production"]);
    let (b, d) = recommended_release(Some(Bump::Major), &Some(change("a", Bump::Minor)));
    assert_eq!(b, Bump::Major);
    assert_eq!(d, vec!["production"]);
    assert_eq!(release_commit_message(&None), "chore: release version");
}

#[test]
fn bumps_of_parsed_versions() {
    let none = String::new();
    assert_eq!(bump_parsed(1, 2, 3, Bump::Major, &none), Some("2.0.0".to_string()));
    assert_eq!(bump_parsed(1, 2, 3, Bump::Minor, &none), Some("1.3.0".to_string()));
    assert_eq!(bump_parsed(1, 2, 3, Bump::Patch, &none), Some("1.2.4".to_string()));
    assert_eq!(bump_parsed(1, 2, 3, Bump::Snapshot, &"alpha.0.abc".to_string()), Some("1.2.3-alpha.0.abc".to_string()));
    assert_eq!(bump_parsed(u64::MAX, 0, 0, Bump::Major, &none), None);
}

#[test]
fn snapshot_prereleases() {
    assert_eq!(snapshot_prerelease(&"a1b2c3".to_string()), "alpha.0.a1b2c3");
    assert_eq!(snapshot_prerelease(&"01".to_string()), "");
    assert_eq!(snapshot_prerelease(&"x y".to_string()), "");
    assert_eq!(snapshot_prerelease(&"".to_string()), "");
}
