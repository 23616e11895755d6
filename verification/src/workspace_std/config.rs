//! The workspace configuration: the release settings of its change file and
//! the changelog configuration.
use crate::branch_map::BranchMap;
use crate::workspace_std::changes::{
    default_git_user_email, default_git_user_name, default_release_message,
};
use vstd::prelude::*;

verus! {

/// A package to release, how (as text), and where to deploy it.
#[derive(Debug)]
pub struct Change {
    pub package: String,
    pub release_as: String,
    pub deploy: Vec<String>,
}

/// The change file's content.
#[derive(Debug)]
pub struct ChangesFileData {
    pub message: Option<String>,
    pub git_user_name: Option<String>,
    pub git_user_email: Option<String>,
    pub changes: BranchMap<Vec<Change>>,
}

/// The release settings as (key, value) pairs.
pub open spec fn setting_views(s: Seq<(String, String)>) -> Seq<(Seq<char>, Seq<char>)> {
    s.map_values(|e: (String, String)| (e.0@, e.1@))
}

/// The release settings: `message`, `git_user_name` and `git_user_email`,
/// from the change file when there is one (`file`, whose three settings must
/// be set), else their defaults.
pub fn get_changes_config(file: &Option<ChangesFileData>) -> (r: Vec<(String, String)>)
    requires
        file matches Some(d) ==> d.message is Some && d.git_user_name is Some && d.git_user_email is Some,
    ensures
        setting_views(r@) == match file {
            Some(d) => seq![
                ("message"@, d.message->0@),
                ("git_user_name"@, d.git_user_name->0@),
                ("git_user_email"@, d.git_user_email->0@),
            ],
            None => seq![
                ("message"@, default_release_message()),
                ("git_user_name"@, default_git_user_name()),
                ("git_user_email"@, default_git_user_email()),
            ],
        },
{
    let (message, name, email) = match file {
        Some(d) => (
            d.message.as_ref().unwrap().clone(),
            d.git_user_name.as_ref().unwrap().clone(),
            d.git_user_email.as_ref().unwrap().clone(),
        ),
        None => (
            String::from_str("chore(release): |---| release new version"),
            String::from_str("github-actions[bot]"),
            String::from_str("github-actions[bot]@users.noreply.git.com"),
        ),
    };
    let mut r: Vec<(String, String)> = Vec::new();
    r.push((String::from_str("message"), message));
    r.push((String::from_str("git_user_name"), name));
    r.push((String::from_str("git_user_email"), email));
    assert(setting_views(r@) =~= match file {
        Some(d) => seq![
            ("message"@, d.message->0@),
            ("git_user_name"@, d.git_user_name->0@),
            ("git_user_email"@, d.git_user_email->0@),
        ],
        None => seq![
            ("message"@, default_release_message()),
            ("git_user_name"@, default_git_user_name()),
            ("git_user_email"@, default_git_user_email()),
        ],
    });
    r
}

/// The changelog configuration file: `cliff.toml`.
pub fn get_cliff_config() -> (r: String)
    ensures
        r@ == "cliff.toml"@,
{
    String::from_str("cliff.toml")
}

} // verus!
