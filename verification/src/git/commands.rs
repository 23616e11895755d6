//! The git helpers grouped under one name, `Git`, as the changelog and
//! release code calls them.
pub use crate::git::{Commit, PublishTagInfo, RemoteTags};

use crate::git::{
    all_publish_tags_comparable, commit_view, get_all_files_changed_since_branch,
    get_commits_since, get_last_known_publish_tag_info_for_all_packages,
    get_last_known_publish_tag_info_for_package, get_remote_or_local_tags, package_paths,
    publish_info, publish_infos, publish_tags_comparable, tag_pairs,
};
use crate::packages::PackageInfo;
use crate::text::views;
use crate::workspace_std::git::{
    changed_paths, commit_log_well_formed, commits_of, files_under, files_under_each,
    filter_files_under, push_arg, push_string, tag_listing_well_formed, tags_of,
    GitCommand,
};
use vstd::prelude::*;

verus! {

/// The git helpers.
#[derive(Debug, Clone, Copy)]
pub struct Git;

/// The hash of the first of `tags` published for the package `name`.
pub open spec fn tag_hash_of(tags: Seq<PublishTagInfo>, name: Seq<char>) -> Option<Seq<char>>
    decreases tags.len(),
{
    if tags.len() == 0 {
        None
    } else if tags[0].package@ == name {
        Some(tags[0].hash@)
    } else {
        tag_hash_of(tags.drop_first(), name)
    }
}

/// The files under each package's directory among those changed since its
/// tag (`None` for a package without a tag), package by package.
pub open spec fn files_since_tags(pkgs: Seq<PackageInfo>, changed: Seq<Option<Seq<Seq<char>>>>) -> Seq<
    Seq<char>,
>
    decreases pkgs.len(),
{
    if pkgs.len() == 0 || changed.len() == 0 {
        Seq::empty()
    } else {
        files_since_tags(pkgs.drop_last(), changed.drop_last()) + match changed.last() {
            Some(files) => files_under(files, pkgs.last().package_path@),
            None => Seq::empty(),
        }
    }
}

/// `s` with every repeat of an earlier element removed, in the order of
/// first occurrence.
pub open spec fn without_repeats(s: Seq<Seq<char>>) -> Seq<Seq<char>>
    decreases s.len(),
{
    if s.len() == 0 {
        Seq::empty()
    } else if without_repeats(s.drop_last()).contains(s.last()) {
        without_repeats(s.drop_last())
    } else {
        without_repeats(s.drop_last()).push(s.last())
    }
}

/// Removing repeats leaves each element once, and the same elements.
pub proof fn lemma_without_repeats(s: Seq<Seq<char>>)
    ensures
        without_repeats(s).no_duplicates(),
        forall|f: Seq<char>| without_repeats(s).contains(f) <==> s.contains(f),
    decreases s.len(),
{
    if s.len() > 0 {
        let d = without_repeats(s.drop_last());
        lemma_without_repeats(s.drop_last());
        assert forall|f: Seq<char>| without_repeats(s).contains(f) <==> s.contains(f) by {
            if s.contains(f) {
                let i = choose|i: int| 0 <= i < s.len() && s[i] == f;
                if i < s.len() - 1 {
                    assert(s.drop_last()[i] == f);
                }
            }
            if s.drop_last().contains(f) {
                let i = choose|i: int| 0 <= i < s.drop_last().len() && s.drop_last()[i] == f;
                assert(s[i] == f);
            }
            if !d.contains(s.last()) {
                if d.push(s.last()).contains(f) {
                    let i = choose|i: int| 0 <= i < d.push(s.last()).len() && d.push(s.last())[i] == f;
                    if i < d.len() {
                        assert(d[i] == f);
                    }
                }
                if d.contains(f) {
                    let i = choose|i: int| 0 <= i < d.len() && d[i] == f;
                    assert(d.push(s.last())[i] == f);
                }
                assert(d.push(s.last())[d.len() as int] == s.last());
            }
        }
    }
}

/// Whether `v` holds the text `s`.
fn holds_string(v: &Vec<String>, s: &String) -> (b: bool)
    ensures
        b == views(v@).contains(s@),
{
    let c = crate::text::to_chars(s.as_str());
    let mut i: usize = 0;
    while i < v.len()
        invariant
            i <= v@.len(),
            c@ == s@,
            forall|k: int| 0 <= k < i ==> v@[k]@ != s@,
        decreases v.len() - i,
    {
        if crate::text::chars_eq(&crate::text::to_chars(v[i].as_str()), &c) {
            assert(views(v@)[i as int] == s@);
            return true;
        }
        i = i + 1;
    }
    assert(!views(v@).contains(s@)) by {
        if views(v@).contains(s@) {
            let k = choose|k: int| 0 <= k < views(v@).len() && views(v@)[k] == s@;
            assert(v@[k]@ == s@);
        }
    }
    false
}

/// The views of optional file lists.
pub open spec fn optional_views(v: Seq<Option<Vec<String>>>) -> Seq<Option<Seq<Seq<char>>>> {
    v.map_values(
        |o: Option<Vec<String>>|
            match o {
                Some(f) => Some(views(f@)),
                None => None,
            },
    )
}

impl Git {
    /// `git fetch origin`, run in `cwd`. Its exit status tells whether it
    /// worked.
    pub fn fetch_all(cwd: &String) -> (c: GitCommand)
        ensures
            c.dir@ == cwd@,
            views(c.args@) == seq!["fetch"@, "origin"@],
    {
        let mut c = GitCommand { dir: cwd.clone(), args: Vec::new() };
        push_arg(&mut c.args, "fetch");
        push_arg(&mut c.args, "origin");
        c
    }

    /// `git fetch origin --tags --force`, run in `cwd`. Its exit status
    /// tells whether it worked.
    pub fn fetch_all_tags(cwd: &String) -> (c: GitCommand)
        ensures
            c.dir@ == cwd@,
            views(c.args@) == seq!["fetch"@, "origin"@, "--tags"@, "--force"@],
    {
        let mut c = GitCommand { dir: cwd.clone(), args: Vec::new() };
        push_arg(&mut c.args, "fetch");
        push_arg(&mut c.args, "origin");
        push_arg(&mut c.args, "--tags");
        push_arg(&mut c.args, "--force");
        c
    }

    /// The commits of a log (see `crate::git::get_commits_since`).
    pub fn get_commits_since(succeeded: bool, stdout: &String) -> (r: Vec<Commit>)
        requires
            succeeded ==> commit_log_well_formed(stdout@),
        ensures
            r@.map_values(|c: Commit| commit_view(c)) == if succeeded {
                commits_of(stdout@)
            } else {
                Seq::empty()
            },
    {
        get_commits_since(succeeded, stdout)
    }

    /// The tags of a listing (see `crate::git::get_remote_or_local_tags`).
    pub fn get_remote_or_local_tags(succeeded: bool, stdout: &String) -> (r: Vec<RemoteTags>)
        requires
            succeeded ==> tag_listing_well_formed(stdout@),
        ensures
            tag_pairs(r@) == if succeeded {
                tags_of(stdout@)
            } else {
                Seq::empty()
            },
    {
        get_remote_or_local_tags(succeeded, stdout)
    }

    /// The last tag a package was published under (see
    /// `crate::git::get_last_known_publish_tag_info_for_package`).
    pub fn get_last_known_publish_tag_info_for_package(
        package_info: &PackageInfo,
        remote_tags: &Vec<RemoteTags>,
        local_tags: &Vec<RemoteTags>,
    ) -> (r: Option<PublishTagInfo>)
        requires
            publish_tags_comparable(
                package_info.name@,
                package_info.version@,
                remote_tags@ + local_tags@,
            ),
        ensures
            r == publish_info(package_info.name, package_info.version@, remote_tags@ + local_tags@),
    {
        get_last_known_publish_tag_info_for_package(package_info, remote_tags, local_tags)
    }

    /// The last publish tags of all the packages (see
    /// `crate::git::get_last_known_publish_tag_info_for_all_packages`).
    pub fn get_last_known_publish_tag_info_for_all_packages(
        package_info: &Vec<PackageInfo>,
        remote_tags: &Vec<RemoteTags>,
        local_tags: &Vec<RemoteTags>,
    ) -> (r: Option<Vec<Option<PublishTagInfo>>>)
        ensures
            r is Some <==> all_publish_tags_comparable(package_info@, remote_tags@ + local_tags@),
            r matches Some(v) ==> v@ == publish_infos(package_info@, remote_tags@ + local_tags@),
    {
        get_last_known_publish_tag_info_for_all_packages(package_info, remote_tags, local_tags)
    }

    /// `git --no-pager diff --name-only <sha>..`, run in `cwd`.
    pub fn git_all_files_changed_since_sha_command(sha: &String, cwd: &String) -> (c: GitCommand)
        ensures
            c.dir@ == cwd@,
            views(c.args@) == seq!["--no-pager"@, "diff"@, "--name-only"@, sha@ + ".."@],
    {
        let mut c = GitCommand { dir: cwd.clone(), args: Vec::new() };
        push_arg(&mut c.args, "--no-pager");
        push_arg(&mut c.args, "diff");
        push_arg(&mut c.args, "--name-only");
        let range = sha.clone().concat("..");
        push_string(&mut c.args, &range);
        c
    }

    /// The paths under `root` of the files that the diff names (see
    /// `crate::git::git_all_files_changed_since_sha`).
    pub fn git_all_files_changed_since_sha(root: &String, succeeded: bool, stdout: &String) -> (r:
        Vec<String>)
        ensures
            views(r@) == if succeeded {
                changed_paths(root@, stdout@)
            } else {
                Seq::empty()
            },
    {
        crate::git::git_all_files_changed_since_sha(root, succeeded, stdout)
    }

    /// The hash of the first tag published for the package.
    pub fn tag_hash_for(package_info: &PackageInfo, tag_info: &Vec<PublishTagInfo>) -> (r: Option<
        String,
    >)
        ensures
            match r {
                Some(h) => tag_hash_of(tag_info@, package_info.name@) == Some(h@),
                None => tag_hash_of(tag_info@, package_info.name@) is None,
            },
    {
        let mut i: usize = 0;
        assert(tag_info@.skip(0) =~= tag_info@);
        while i < tag_info.len()
            invariant
                i <= tag_info@.len(),
                tag_hash_of(tag_info@, package_info.name@) == tag_hash_of(
                    tag_info@.skip(i as int),
                    package_info.name@,
                ),
            decreases tag_info.len() - i,
        {
            assert(tag_info@.skip(i as int)[0] == tag_info@[i as int]);
            if tag_info[i].package == package_info.name {
                return Some(tag_info[i].hash.clone());
            }
            assert(tag_info@.skip(i as int).drop_first() =~= tag_info@.skip(i + 1));
            i = i + 1;
        }
        None
    }

    /// The changed files under the directory of a package with a tag, with
    /// repeats removed, in the order of first occurrence: `changed[i]` holds
    /// the files changed since the tag of the `i`-th package (see
    /// `tag_hash_for`), `None` when it has no tag.
    pub fn get_all_files_changed_since_tag_infos(
        package_info: &Vec<PackageInfo>,
        changed: &Vec<Option<Vec<String>>>,
    ) -> (r: Vec<String>)
        requires
            changed@.len() == package_info@.len(),
        ensures
            views(r@) == without_repeats(files_since_tags(package_info@, optional_views(changed@))),
            views(r@).no_duplicates(),
            forall|f: Seq<char>|
                views(r@).contains(f) <==> files_since_tags(package_info@, optional_views(changed@)).contains(
                    f,
                ),
    {
        let ghost cs = optional_views(changed@);
        let mut all_files: Vec<String> = Vec::new();
        let mut i: usize = 0;
        while i < package_info.len()
            invariant
                i <= package_info@.len(),
                changed@.len() == package_info@.len(),
                cs == optional_views(changed@),
                views(all_files@) == files_since_tags(package_info@.take(i as int), cs.take(i as int)),
            decreases package_info.len() - i,
        {
            assert(package_info@.take(i + 1).drop_last() =~= package_info@.take(i as int));
            assert(cs.take(i + 1).drop_last() =~= cs.take(i as int));
            assert(package_info@.take(i + 1).last() == package_info@[i as int]);
            assert(cs.take(i + 1).last() == cs[i as int]);
            match &changed[i] {
                Some(files) => {
                    let mut pkg_files = filter_files_under(files, &package_info[i].package_path);
                    let ghost before = views(all_files@);
                    let ghost added = views(pkg_files@);
                    all_files.append(&mut pkg_files);
                    assert(views(all_files@) =~= before + added);
                },
                None => {
                    assert(views(all_files@) =~= views(all_files@) + Seq::<Seq<char>>::empty());
                },
            }
            i = i + 1;
        }
        assert(package_info@.take(i as int) =~= package_info@);
        assert(cs.take(i as int) =~= cs);
        let ghost all = views(all_files@);
        let mut out: Vec<String> = Vec::new();
        let mut j: usize = 0;
        while j < all_files.len()
            invariant
                j <= all_files@.len(),
                all == views(all_files@),
                views(out@) == without_repeats(all.take(j as int)),
            decreases all_files.len() - j,
        {
            assert(all.take(j + 1).drop_last() =~= all.take(j as int));
            assert(all.take(j + 1).last() == all_files@[j as int]@);
            if !holds_string(&out, &all_files[j]) {
                let ghost before = views(out@);
                out.push(all_files[j].clone());
                assert(views(out@) =~= before.push(all_files@[j as int]@));
            }
            j = j + 1;
        }
        assert(all.take(j as int) =~= all);
        proof {
            lemma_without_repeats(all);
        }
        out
    }

    /// The changed files under each package's directory (see
    /// `crate::git::get_all_files_changed_since_branch`).
    pub fn get_all_files_changed_since_branch(package_info: &Vec<PackageInfo>, files: &Vec<String>) -> (r:
        Vec<String>)
        ensures
            views(r@) == files_under_each(views(files@), package_paths(package_info@)),
    {
        get_all_files_changed_since_branch(package_info, files)
    }
}

} // verus!
