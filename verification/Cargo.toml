[package]
name = "workspace_node_tools"
version = "0.1.0"
edition = "2021"
publish = false

[dependencies]
icu = "1.5"
version-compare = "0.2"
semver = "1"
serde = { version = "1", features = ["derive"] }
serde_json = "1"
execute = "0.2"
wax = "0.6"
git2 = { version = "0.19", default-features = false }
git-cliff-core = { version = "~2.5", default-features = false }
chrono = "0.4"
regex = "1"
package_json_schema = "0.2"
thiserror = "1"
