//! What a package's changelog is generated from: the options of the
//! generation, the repository it links to and where the changelog lives.
use crate::packages::{PackageInfo, PackageRepositoryInfo};
use crate::text::{path_join, path_join_seq};
use vstd::prelude::*;

verus! {

/// Options of a changelog: the version it is for and its title.
#[derive(Debug, Clone)]
pub struct ConventionalPackageOptions {
    pub version: Option<String>,
    pub title: Option<String>,
}

/// The options a changelog is generated with: those given, the version
/// defaulting to `0.0.0` and the title to nothing; without options, version
/// `0.0.0` and no title.
pub fn conventional_options_or_default(options: &Option<ConventionalPackageOptions>) -> (r:
    ConventionalPackageOptions)
    ensures
        match options {
            Some(o) => (r.version matches Some(v) && v@ == match o.version {
                Some(x) => x@,
                None => "0.0.0"@,
            }) && (r.title matches Some(t) && t@ == match o.title {
                Some(x) => x@,
                None => Seq::<char>::empty(),
            }),
            None => (r.version matches Some(v) && v@ == "0.0.0"@) && r.title is None,
        },
{
    match options {
        Some(o) => {
            let version = match &o.version {
                Some(v) => v.clone(),
                None => String::from_str("0.0.0"),
            };
            let title = match &o.title {
                Some(t) => t.clone(),
                None => String::new(),
            };
            ConventionalPackageOptions { version: Some(version), title: Some(title) }
        },
        None => ConventionalPackageOptions { version: Some(String::from_str("0.0.0")), title: None },
    }
}

/// The repository a changelog links to: the package's, else
/// `https://github.com/my-orga/my-repo`.
pub fn repository_info_or_default(info: &Option<PackageRepositoryInfo>) -> (r: PackageRepositoryInfo)
    ensures
        match info {
            Some(i) => r.domain@ == i.domain@ && r.orga@ == i.orga@ && r.project@ == i.project@,
            None => r.domain@ == "https://github.com"@ && r.orga@ == "my-orga"@ && r.project@
                == "my-repo"@,
        },
{
    match info {
        Some(i) => PackageRepositoryInfo {
            domain: i.domain.clone(),
            orga: i.orga.clone(),
            project: i.project.clone(),
        },
        None => PackageRepositoryInfo {
            domain: String::from_str("https://github.com"),
            orga: String::from_str("my-orga"),
            project: String::from_str("my-repo"),
        },
    }
}

/// The URL of the repository the changelog links to: `domain/owner/repo`.
pub fn remote_url(domain: &String, owner: &String, repo: &String) -> (r: String)
    ensures
        r@ == domain@ + "/"@ + owner@ + "/"@ + repo@,
{
    domain.clone().concat("/").concat(owner.as_str()).concat("/").concat(repo.as_str())
}

/// Where the changelog of a package lives: `CHANGELOG.md` in its directory.
pub fn changelog_path(package_info: &PackageInfo) -> (r: String)
    ensures
        r@ == path_join_seq(package_info.package_path@, "CHANGELOG.md"@),
{
    path_join(&package_info.package_path, &String::from_str("CHANGELOG.md"))
}

} // verus!
