//! The packages of a monorepo: what each `package.json` says of its package,
//! the workspaces that select them, and the packages touched by a change.
use crate::json::{
    entry_views, json_get, lemma_lookup_index, lookup, lookup_index, object_members, with_member,
    JsonValue,
};
use crate::text::{
    from_chars, replace_chars, replace_from, replace_seq, starts_with_seq, substring,
    to_chars, views,
};
use crate::utils::{lemma_non_slash_end, non_slash_end, non_slash_run};
use crate::text::{ends_with_chars, ends_with_seq, path_join, path_join_seq};
use crate::manager::{detect_from, detect_package_manager, DirLockFiles, PackageManager};
use vstd::prelude::*;

verus! {

/// The host, organisation and project of a package's repository.
#[derive(Debug, Clone)]
pub struct PackageRepositoryInfo {
    pub domain: String,
    pub orga: String,
    pub project: String,
}

/// Whether `c` is a lower-case ASCII letter.
pub open spec fn is_lower(c: char) -> bool {
    'a' <= c && c <= 'z'
}

/// The end of the run of lower-case ASCII letters of `s` that starts at `i`.
pub open spec fn lower_run_end(s: Seq<char>, i: int) -> int
    decreases s.len() + 1 - i,
{
    if i < 0 || i >= s.len() || !is_lower(s[i]) {
        i
    } else {
        lower_run_end(s, i + 1)
    }
}

/// The first line feed of `s` at or after `i`, or the end of `s`.
pub open spec fn line_end(s: Seq<char>, i: int) -> int
    decreases s.len() + 1 - i,
{
    if i < 0 || i >= s.len() || s[i] == '\n' {
        i
    } else {
        line_end(s, i + 1)
    }
}

/// The match of `protocol://domain/org/project` that starts at `p`, as the
/// end of the protocol, the slash after the domain, the slash after the
/// organisation and the end of the project (the end of the line).
pub open spec fn url_match_at(s: Seq<char>, p: int) -> Option<(int, int, int, int)> {
    if !(0 <= p < s.len() && is_lower(s[p])) {
        None
    } else {
        let e = lower_run_end(s, p);
        if !(e < s.len() && s.len() - e >= 3 && s[e] == ':' && s[e + 1] == '/' && s[e + 2] == '/') {
            None
        } else {
            let d = non_slash_end(s, e + 3);
            if d >= s.len() {
                None
            } else {
                let o = non_slash_end(s, d + 1);
                if o >= s.len() {
                    None
                } else {
                    Some((e, d, o, line_end(s, o + 1)))
                }
            }
        }
    }
}

/// The leftmost match in `s` that starts at `p` or later.
pub open spec fn url_match_from(s: Seq<char>, p: int) -> Option<(int, int, int, int)>
    decreases s.len() + 1 - p,
{
    if p < 0 || p >= s.len() {
        None
    } else if url_match_at(s, p) is Some {
        url_match_at(s, p)
    } else {
        url_match_from(s, p + 1)
    }
}

/// The domain, organisation and project that the pattern
/// `((?<protocol>[a-z]+)://)((?<domain>[^/]*)/)(?<org>([^/]*)/)(?<project>(.*))(\.git)?`
/// finds in `url`, with every `/` taken out of each and `.git` taken out of
/// the project; `None` when it finds nothing.
pub open spec fn repository_parts(url: Seq<char>) -> Option<(Seq<char>, Seq<char>, Seq<char>)> {
    match url_match_from(url, 0) {
        Some((e, d, o, end)) => Some(
            (
                url.subrange(e + 3, d),
                url.subrange(d + 1, o),
                replace_seq(replace_seq(url.subrange(o + 1, end), "/"@, Seq::empty()), ".git"@, Seq::empty()),
            ),
        ),
        None => None,
    }
}

proof fn lemma_lower_run_end(s: Seq<char>, i: int)
    requires
        0 <= i <= s.len(),
    ensures
        i <= lower_run_end(s, i) <= s.len(),
    decreases s.len() + 1 - i,
{
    if i < s.len() && is_lower(s[i]) {
        lemma_lower_run_end(s, i + 1);
    }
}

pub(crate) proof fn lemma_line_end(s: Seq<char>, i: int)
    requires
        0 <= i <= s.len(),
    ensures
        i <= line_end(s, i) <= s.len(),
    decreases s.len() + 1 - i,
{
    if i < s.len() && s[i] != '\n' {
        lemma_line_end(s, i + 1);
    }
}

/// Replacing with nothing adds no character: a character that `s[i..]`
/// lacks, the result lacks too.
proof fn lemma_replace_lacks(s: Seq<char>, p: Seq<char>, i: int, c: char)
    requires
        0 <= i <= s.len(),
        forall|j: int| i <= j < s.len() ==> s[j] != c,
    ensures
        forall|j: int|
            0 <= j < replace_from(s, p, Seq::empty(), i).len() ==> #[trigger] replace_from(
                s,
                p,
                Seq::empty(),
                i,
            )[j] != c,
    decreases s.len() - i,
{
    crate::text::lemma_find_from_range(s, p, i);
    let k = crate::text::find_from(s, p, i);
    if !(p.len() == 0 || k < i || k + p.len() > s.len()) {
        lemma_replace_lacks(s, p, k + p.len(), c);
        let r = replace_from(s, p, Seq::empty(), i);
        let a = s.subrange(i, k);
        let b = replace_from(s, p, Seq::empty(), k + p.len());
        assert(r == a + Seq::<char>::empty() + b);
        assert forall|j: int| 0 <= j < r.len() implies #[trigger] r[j] != c by {
            if j < a.len() {
                assert(r[j] == s[i + j]);
            } else {
                assert(r[j] == b[j - a.len()]);
            }
        }
    }
}

/// Taking out every `/` leaves none.
proof fn lemma_replace_removes_slash(s: Seq<char>, i: int)
    requires
        0 <= i <= s.len(),
    ensures
        forall|j: int|
            0 <= j < replace_from(s, "/"@, Seq::empty(), i).len() ==> #[trigger] replace_from(
                s,
                "/"@,
                Seq::empty(),
                i,
            )[j] != '/',
    decreases s.len() - i,
{
    reveal_strlit("/");
    let p = "/"@;
    crate::text::lemma_find_from_range(s, p, i);
    let k = crate::text::find_from(s, p, i);
    let r = replace_from(s, p, Seq::empty(), i);
    if p.len() == 0 || k < i || k + p.len() > s.len() {
        assert forall|j: int| 0 <= j < r.len() implies #[trigger] r[j] != '/' by {
            assert(r[j] == s[i + j]);
            if s[i + j] == '/' {
                assert(s.subrange(i + j, i + j + 1) =~= p);
                assert(crate::text::occurs_at(s, p, i + j));
            }
        }
    } else {
        lemma_replace_removes_slash(s, k + 1);
        let a = s.subrange(i, k);
        let b = replace_from(s, p, Seq::empty(), k + 1);
        assert(r == a + Seq::<char>::empty() + b);
        assert forall|j: int| 0 <= j < r.len() implies #[trigger] r[j] != '/' by {
            if j < a.len() {
                assert(r[j] == s[i + j]);
                if s[i + j] == '/' {
                    assert(s.subrange(i + j, i + j + 1) =~= p);
                    assert(crate::text::occurs_at(s, p, i + j));
                }
            } else {
                assert(r[j] == b[j - a.len()]);
            }
        }
    }
}

/// The domain, organisation and project read from a repository URL hold no
/// `/`.
pub proof fn law_repository_parts_hold_no_slash(url: Seq<char>)
    ensures
        repository_parts(url) matches Some((d, o, p)) ==> (forall|j: int| 0 <= j < d.len() ==> #[trigger] d[j] != '/')
            && (forall|j: int| 0 <= j < o.len() ==> #[trigger] o[j] != '/') && (forall|j: int|
            0 <= j < p.len() ==> #[trigger] p[j] != '/'),
{
    reveal_strlit("/");
    reveal_strlit(".git");
    if url_match_from(url, 0) is Some {
        let (e, d, o, end) = url_match_from(url, 0)->0;
        lemma_url_match_from(url, 0);
        lemma_lower_run_end(url, url_match_from_start(url, 0));
        lemma_non_slash_all(url, e + 3);
        lemma_non_slash_all(url, d + 1);
        let raw = url.subrange(o + 1, end);
        lemma_replace_removes_slash(raw, 0);
        let no_slash = replace_seq(raw, "/"@, Seq::empty());
        lemma_replace_lacks(no_slash, ".git"@, 0, '/');
        let dom = url.subrange(e + 3, d);
        let org = url.subrange(d + 1, o);
        assert forall|j: int| 0 <= j < dom.len() implies #[trigger] dom[j] != '/' by {
            assert(dom[j] == url[e + 3 + j]);
        }
        assert forall|j: int| 0 <= j < org.len() implies #[trigger] org[j] != '/' by {
            assert(org[j] == url[d + 1 + j]);
        }
    }
}

/// Every character of `s[i..non_slash_end(s, i))` is not `/`.
proof fn lemma_non_slash_all(s: Seq<char>, i: int)
    requires
        0 <= i <= s.len(),
    ensures
        forall|j: int| i <= j < non_slash_end(s, i) ==> #[trigger] s[j] != '/',
    decreases s.len() + 1 - i,
{
    if i < s.len() && s[i] != '/' {
        lemma_non_slash_all(s, i + 1);
    }
}

/// Where the leftmost match starts.
spec fn url_match_from_start(s: Seq<char>, p: int) -> int
    decreases s.len() + 1 - p,
{
    if p < 0 || p >= s.len() {
        p
    } else if url_match_at(s, p) is Some {
        p
    } else {
        url_match_from_start(s, p + 1)
    }
}

/// The leftmost match is the match at its start, and lies within `s`.
proof fn lemma_url_match_from(s: Seq<char>, p: int)
    requires
        0 <= p,
    ensures
        url_match_from(s, p) is Some ==> 0 <= url_match_from_start(s, p) < s.len() && url_match_at(
            s,
            url_match_from_start(s, p),
        ) == url_match_from(s, p),
        url_match_from(s, p) matches Some((e, d, o, end)) ==> e + 3 <= d < o < end <= s.len() && d
            == non_slash_end(s, e + 3) && o == non_slash_end(s, d + 1),
    decreases s.len() + 1 - p,
{
    if p < s.len() && url_match_at(s, p) is None {
        lemma_url_match_from(s, p + 1);
    }
    if url_match_from(s, p) is Some {
        let q = url_match_from_start(s, p);
        let e = lower_run_end(s, q);
        lemma_lower_run_end(s, q);
        lemma_non_slash_end(s, e + 3);
        let d = non_slash_end(s, e + 3);
        lemma_non_slash_end(s, d + 1);
        lemma_line_end(s, non_slash_end(s, d + 1) + 1);
    }
}

fn lower_run(s: &Vec<char>, i: usize) -> (e: usize)
    requires
        i <= s.len(),
    ensures
        e == lower_run_end(s@, i as int),
{
    let mut e = i;
    while e < s.len() && 'a' <= s[e] && s[e] <= 'z'
        invariant
            i <= e <= s.len(),
            lower_run_end(s@, i as int) == lower_run_end(s@, e as int),
        decreases s.len() - e,
    {
        e = e + 1;
    }
    e
}

pub(crate) fn line_run(s: &Vec<char>, i: usize) -> (e: usize)
    requires
        i <= s.len(),
    ensures
        e == line_end(s@, i as int),
{
    let mut e = i;
    while e < s.len() && s[e] != '\n'
        invariant
            i <= e <= s.len(),
            line_end(s@, i as int) == line_end(s@, e as int),
        decreases s.len() - e,
    {
        e = e + 1;
    }
    e
}

fn url_match_at_exec(s: &Vec<char>, p: usize) -> (r: Option<(usize, usize, usize, usize)>)
    requires
        p < s.len(),
    ensures
        match r {
            Some((e, d, o, end)) => url_match_at(s@, p as int) == Some(
                (e as int, d as int, o as int, end as int),
            ),
            None => url_match_at(s@, p as int) is None,
        },
        match url_match_at(s@, p as int) {
            Some((e, d, o, end)) => e + 3 <= d < o < end <= s.len(),
            None => true,
        },
{
    if !('a' <= s[p] && s[p] <= 'z') {
        return None;
    }
    let e = lower_run(s, p);
    proof {
        lemma_lower_run_end(s@, p as int);
    }
    if !(e < s.len() && s.len() - e >= 3 && s[e] == ':' && s[e + 1] == '/' && s[e + 2] == '/') {
        return None;
    }
    let d = non_slash_run(s, e + 3);
    proof {
        lemma_non_slash_end(s@, e + 3);
    }
    if d >= s.len() {
        return None;
    }
    let o = non_slash_run(s, d + 1);
    proof {
        lemma_non_slash_end(s@, d + 1);
    }
    if o >= s.len() {
        return None;
    }
    let end = line_run(s, o + 1);
    proof {
        lemma_line_end(s@, o + 1);
    }
    Some((e, d, o, end))
}

/// The leftmost match of `protocol://domain/org/project` in `s` (see
/// `url_match_from`).
pub(crate) fn find_url_match(s: &Vec<char>) -> (r: Option<(usize, usize, usize, usize)>)
    ensures
        match r {
            Some((e, d, o, end)) => url_match_from(s@, 0) == Some(
                (e as int, d as int, o as int, end as int),
            ) && e + 3 <= d < o < end <= s@.len(),
            None => url_match_from(s@, 0) is None,
        },
{
    let mut p: usize = 0;
    while p < s.len()
        invariant
            p <= s@.len(),
            url_match_from(s@, 0) == url_match_from(s@, p as int),
        decreases s.len() - p,
    {
        match url_match_at_exec(s, p) {
            Some(m) => {
                return Some(m);
            },
            None => {},
        }
        p = p + 1;
    }
    None
}

/// The domain, organisation and project of a repository URL (see
/// `repository_parts`); `None` when the URL does not have that shape.
pub fn parse_repository_info(url: &String) -> (r: Option<PackageRepositoryInfo>)
    ensures
        match r {
            Some(info) => repository_parts(url@) == Some((info.domain@, info.orga@, info.project@)),
            None => repository_parts(url@) is None,
        },
{
    let s = to_chars(url.as_str());
    let mut p: usize = 0;
    while p < s.len()
        invariant
            p <= s@.len(),
            s@ == url@,
            url_match_from(s@, 0) == url_match_from(s@, p as int),
        decreases s.len() - p,
    {
        match url_match_at_exec(&s, p) {
            Some((e, d, o, end)) => {
                let slash = to_chars("/");
                let dot_git = to_chars(".git");
                let nothing: Vec<char> = Vec::new();
                proof {
                    reveal_strlit("/");
                    reveal_strlit(".git");
                }
                let mut project_chars: Vec<char> = Vec::new();
                let mut k = o + 1;
                while k < end
                    invariant
                        o + 1 <= k <= end <= s@.len(),
                        project_chars@ == s@.subrange(o + 1, k as int),
                    decreases end - k,
                {
                    project_chars.push(s[k]);
                    k = k + 1;
                }
                let without_slash = replace_chars(&project_chars, &slash, &nothing);
                let project = replace_chars(&without_slash, &dot_git, &nothing);
                assert(nothing@ =~= Seq::<char>::empty());
                return Some(
                    PackageRepositoryInfo {
                        domain: substring(&s, e + 3, d),
                        orga: substring(&s, d + 1, o),
                        project: from_chars(project.as_slice()),
                    },
                );
            },
            None => {},
        }
        p = p + 1;
    }
    None
}

/// The repository information of `url` (`url` must have the shape that
/// `repository_parts` reads).
pub fn get_package_repository_info(url: &String) -> (r: PackageRepositoryInfo)
    requires
        repository_parts(url@) is Some,
    ensures
        repository_parts(url@) == Some((r.domain@, r.orga@, r.project@)),
{
    match parse_repository_info(url) {
        Some(info) => info,
        None => {
            assert(false);
            PackageRepositoryInfo {
                domain: String::new(),
                orga: String::new(),
                project: String::new(),
            }
        },
    }
}

/// The repository URL a manifest falls back to.
pub open spec fn default_repository_url() -> Seq<char> {
    "https://github.com/my-orga/my-repo"@
}

/// The `version` of a manifest when it is a string, else `0.0.0`.
pub open spec fn version_of(pkg_json: JsonValue) -> Seq<char> {
    match json_get(pkg_json, "version"@) {
        Some(JsonValue::Str(v)) => v@,
        _ => "0.0.0"@,
    }
}

/// The `name` of a manifest when it is a string, else `unknown`.
pub open spec fn name_of(pkg_json: JsonValue) -> Seq<char> {
    match json_get(pkg_json, "name"@) {
        Some(JsonValue::Str(v)) => v@,
        _ => "unknown"@,
    }
}

/// The `private` flag of a manifest when it is a boolean, else `false`.
pub open spec fn private_of(pkg_json: JsonValue) -> bool {
    match json_get(pkg_json, "private"@) {
        Some(JsonValue::Bool(b)) => b,
        _ => false,
    }
}

/// The repository URL of a manifest: `repository` itself when it is a
/// string, its `url` when it is an object that has one, else the default.
/// `None` when `repository.url` is there but is not a string.
pub open spec fn repository_url_of(pkg_json: JsonValue) -> Option<Seq<char>> {
    match json_get(pkg_json, "repository"@) {
        Some(JsonValue::Object(entries)) => match lookup(entry_views(entries@), "url"@) {
            Some(JsonValue::Str(u)) => Some(u@),
            Some(_) => None,
            None => Some(default_repository_url()),
        },
        Some(JsonValue::Str(u)) => Some(u@),
        _ => Some(default_repository_url()),
    }
}

/// Whether a package can be read from `pkg_json`: its repository URL is
/// there and has the `protocol://domain/org/project` shape.
pub open spec fn manifest_ok(pkg_json: JsonValue) -> bool {
    match repository_url_of(pkg_json) {
        Some(u) => repository_parts(u) is Some,
        None => false,
    }
}

/// The version a manifest declares (see `version_of`).
pub fn read_version(pkg_json: &JsonValue) -> (r: String)
    ensures
        r@ == version_of(*pkg_json),
{
    match crate::json::get(pkg_json, "version") {
        Some(JsonValue::Str(v)) => v.clone(),
        _ => String::from_str("0.0.0"),
    }
}

/// The name a manifest declares (see `name_of`).
pub fn read_name(pkg_json: &JsonValue) -> (r: String)
    ensures
        r@ == name_of(*pkg_json),
{
    match crate::json::get(pkg_json, "name") {
        Some(JsonValue::Str(v)) => v.clone(),
        _ => String::from_str("unknown"),
    }
}

/// The `private` flag a manifest declares (see `private_of`).
pub fn read_private(pkg_json: &JsonValue) -> (r: bool)
    ensures
        r == private_of(*pkg_json),
{
    match crate::json::get(pkg_json, "private") {
        Some(JsonValue::Bool(b)) => *b,
        _ => false,
    }
}

/// The repository URL a manifest declares (see `repository_url_of`).
pub fn read_repository_url(pkg_json: &JsonValue) -> (r: Option<String>)
    ensures
        match r {
            Some(u) => repository_url_of(*pkg_json) == Some(u@),
            None => repository_url_of(*pkg_json) is None,
        },
{
    match crate::json::get(pkg_json, "repository") {
        Some(JsonValue::Object(entries)) => {
            proof {
                crate::json::lemma_lookup_index(entry_views(entries@), "url"@);
            }
            match crate::json::find_member(entries, "url") {
                Some(i) => match &entries[i].1 {
                    JsonValue::Str(u) => Some(u.clone()),
                    _ => None,
                },
                None => Some(String::from_str("https://github.com/my-orga/my-repo")),
            }
        },
        Some(JsonValue::Str(u)) => Some(u.clone()),
        _ => Some(String::from_str("https://github.com/my-orga/my-repo")),
    }
}

/// Whether a package can be read from `pkg_json` (see `manifest_ok`).
pub fn is_valid_manifest(pkg_json: &JsonValue) -> (r: bool)
    ensures
        r == manifest_ok(*pkg_json),
{
    match read_repository_url(pkg_json) {
        Some(u) => parse_repository_info(&u).is_some(),
        None => false,
    }
}

/// A package of the monorepo.
#[derive(Debug)]
pub struct PackageInfo {
    pub name: String,
    pub private: bool,
    pub package_json_path: String,
    pub package_path: String,
    pub package_relative_path: String,
    pub pkg_json: JsonValue,
    pub root: bool,
    pub version: String,
    pub url: String,
    pub repository_info: Option<PackageRepositoryInfo>,
    pub changed_files: Vec<String>,
}

/// Whether `p` is `q` but for its changed files.
pub open spec fn same_package(p: PackageInfo, q: PackageInfo) -> bool {
    &&& p.name == q.name
    &&& p.private == q.private
    &&& p.package_json_path == q.package_json_path
    &&& p.package_path == q.package_path
    &&& p.package_relative_path == q.package_relative_path
    &&& p.pkg_json == q.pkg_json
    &&& p.root == q.root
    &&& p.version == q.version
    &&& p.url == q.url
    &&& p.repository_info == q.repository_info
}

/// Whether `p` is `q` but for its manifest.
pub open spec fn same_package_but_manifest(p: PackageInfo, q: PackageInfo) -> bool {
    &&& p.name == q.name
    &&& p.private == q.private
    &&& p.package_json_path == q.package_json_path
    &&& p.package_path == q.package_path
    &&& p.package_relative_path == q.package_relative_path
    &&& p.root == q.root
    &&& p.version == q.version
    &&& p.url == q.url
    &&& p.repository_info == q.repository_info
    &&& p.changed_files == q.changed_files
}

/// Whether `new_v` is the object `old_v` with its member `key` (which it has)
/// replaced by an object whose members are `members`, all else in place.
pub open spec fn edits_member(
    old_v: JsonValue,
    new_v: JsonValue,
    key: Seq<char>,
    members: Seq<(Seq<char>, JsonValue)>,
) -> bool {
    let i = lookup_index(object_members(old_v), key);
    &&& new_v is Object
    &&& object_members(new_v).len() == object_members(old_v).len()
    &&& forall|j: int|
        0 <= j < object_members(old_v).len() && j != i ==> object_members(new_v)[j] == object_members(
            old_v,
        )[j]
    &&& object_members(new_v)[i].0 == key
    &&& object_members(new_v)[i].1 is Object
    &&& object_members(object_members(new_v)[i].1) == members
}

/// Whether the object member `section` of `pkg_json` names `dependency`.
pub open spec fn declares(pkg_json: JsonValue, section: Seq<char>, dependency: Seq<char>) -> bool {
    match json_get(pkg_json, section) {
        Some(deps) => json_get(deps, dependency) is Some,
        None => false,
    }
}

/// What setting `dependency` to `version` in the object `section` of
/// `pkg_json` gives: the edit when `section` names the dependency, else
/// `pkg_json` unchanged.
pub open spec fn dependency_updated(
    old_json: JsonValue,
    new_json: JsonValue,
    section: Seq<char>,
    dependency: Seq<char>,
    version: String,
) -> bool {
    if declares(old_json, section, dependency) {
        edits_member(
            old_json,
            new_json,
            section,
            with_member(
                object_members(json_get(old_json, section)->0),
                dependency,
                JsonValue::Str(version),
            ),
        )
    } else {
        new_json == old_json
    }
}

/// `pkg_json` with `dependency` set to `version` in its object `section`
/// when that section names it.
fn update_section(pkg_json: JsonValue, section: &str, dependency: String, version: String) -> (r:
    JsonValue)
    requires
        pkg_json is Object,
        json_get(pkg_json, section@) is Some ==> json_get(pkg_json, section@)->0 is Object,
    ensures
        dependency_updated(pkg_json, r, section@, dependency@, version),
{
    let ghost old_json = pkg_json;
    match pkg_json {
        JsonValue::Object(mut entries) => {
            let ghost ev = entry_views(entries@);
            proof {
                lemma_lookup_index(ev, section@);
            }
            let found = crate::json::find_member(&entries, section);
            if found.is_none() {
                return JsonValue::Object(entries);
            }
            let i = found.unwrap();
            assert(ev[i as int].1 == entries@[i as int].1);
            let names_it = match &entries[i].1 {
                JsonValue::Object(members) => {
                    proof {
                        lemma_lookup_index(entry_views(members@), dependency@);
                    }
                    crate::json::find_member(members, dependency.as_str()).is_some()
                },
                _ => false,
            };
            if !names_it {
                return JsonValue::Object(entries);
            }
            let (name, deps) = entries.remove(i);
            match deps {
                JsonValue::Object(mut members) => {
                    crate::json::set_member(&mut members, dependency, JsonValue::Str(version));
                    entries.insert(i, (name, JsonValue::Object(members)));
                    assert(entry_views(entries@) =~= ev.update(
                        i as int,
                        (section@, entry_views(entries@)[i as int].1),
                    ));
                    JsonValue::Object(entries)
                },
                other => {
                    entries.insert(i, (name, other));
                    JsonValue::Object(entries)
                },
            }
        },
        other => other,
    }
}

/// What setting a dependency in a section does to what the manifest reads:
/// the other members keep their values; in the section, the dependency
/// (when listed) gets the new version and the rest keep theirs.
pub proof fn lemma_section_edit(
    old_json: JsonValue,
    new_json: JsonValue,
    section: Seq<char>,
    dependency: Seq<char>,
    version: String,
)
    requires
        old_json is Object,
        dependency_updated(old_json, new_json, section, dependency, version),
    ensures
        new_json is Object,
        forall|k: Seq<char>| k != section ==> #[trigger] json_get(new_json, k) == json_get(old_json, k),
        json_get(old_json, section) is None ==> json_get(new_json, section) is None,
        json_get(old_json, section) matches Some(sec) ==> {
            &&& json_get(new_json, section) matches Some(sec2)
            &&& (json_get(sec, dependency) is Some ==> sec2 is Object)
            &&& forall|d: Seq<char>|
                #[trigger] json_get(sec2, d) == if d == dependency && json_get(sec, dependency) is Some {
                    Some(JsonValue::Str(version))
                } else {
                    json_get(sec, d)
                }
        },
{
    if declares(old_json, section, dependency) {
        let a = object_members(old_json);
        let b = object_members(new_json);
        lemma_lookup_index(a, section);
        let i = lookup_index(a, section);
        assert forall|j: int| 0 <= j < a.len() implies (#[trigger] a[j]).0 == b[j].0 by {}
        assert forall|k: Seq<char>| k != section implies #[trigger] json_get(new_json, k) == json_get(
            old_json,
            k,
        ) by {
            assert forall|j: int| 0 <= j < a.len() && (#[trigger] a[j]).0 == k implies a[j].1
                == b[j].1 by {}
            crate::json::lemma_lookup_same(a, b, k);
        }
        assert forall|j: int| 0 <= j < i implies (#[trigger] b[j]).0 != section by {}
        crate::json::lemma_lookup_at(b, section, i);
        let sec = json_get(old_json, section)->0;
        let sec2 = b[i].1;
        assert forall|d: Seq<char>| #[trigger] json_get(sec2, d) == if d == dependency && json_get(
            sec,
            dependency,
        ) is Some {
            Some(JsonValue::Str(version))
        } else {
            json_get(sec, d)
        } by {
            crate::json::lemma_lookup_with_member(
                object_members(sec),
                dependency,
                JsonValue::Str(version),
                d,
            );
        }
    }
}

impl PackageInfo {
    /// Adds `file` to the changed files.
    pub fn push_changed_file(&mut self, file: String)
        ensures
            same_package(*final(self), *old(self)),
            final(self).changed_files@ == old(self).changed_files@.push(file),
    {
        self.changed_files.push(file);
    }

    /// The changed files.
    pub fn get_changed_files(&self) -> (r: Vec<String>)
        ensures
            r@ == self.changed_files@,
    {
        let mut out: Vec<String> = Vec::new();
        let mut i: usize = 0;
        while i < self.changed_files.len()
            invariant
                i <= self.changed_files@.len(),
                out@ == self.changed_files@.take(i as int),
            decreases self.changed_files.len() - i,
        {
            out.push(self.changed_files[i].clone());
            assert(out@ =~= self.changed_files@.take(i + 1));
            i = i + 1;
        }
        assert(out@ =~= self.changed_files@);
        out
    }

    /// Adds the files of `files` that lie under the package's directory.
    pub fn extend_changed_files(&mut self, files: Vec<String>)
        ensures
            same_package(*final(self), *old(self)),
            views(final(self).changed_files@) == views(old(self).changed_files@) + crate::workspace_std::git::files_under(
                views(files@),
                old(self).package_path@,
            ),
    {
        let mut found = crate::workspace_std::git::filter_files_under(&files, &self.package_path);
        let ghost before = self.changed_files@;
        let ghost added = found@;
        self.changed_files.append(&mut found);
        assert(views(self.changed_files@) =~= views(before) + views(added));
    }

    /// Sets the version, in the package and in its manifest (a `null`
    /// manifest becomes an object).
    pub fn update_version(&mut self, version: String)
        requires
            old(self).pkg_json is Object || old(self).pkg_json is Null,
        ensures
            final(self).version == version,
            final(self).pkg_json is Object,
            object_members(final(self).pkg_json) == with_member(
                object_members(old(self).pkg_json),
                "version"@,
                JsonValue::Str(version),
            ),
            final(self).name == old(self).name,
            final(self).private == old(self).private,
            final(self).package_json_path == old(self).package_json_path,
            final(self).package_path == old(self).package_path,
            final(self).package_relative_path == old(self).package_relative_path,
            final(self).root == old(self).root,
            final(self).url == old(self).url,
            final(self).repository_info == old(self).repository_info,
            final(self).changed_files == old(self).changed_files,
    {
        self.version = version.clone();
        let mut pkg_json = JsonValue::Null;
        std::mem::swap(&mut pkg_json, &mut self.pkg_json);
        let key = String::from_str("version");
        let updated = match pkg_json {
            JsonValue::Object(mut entries) => {
                crate::json::set_member(&mut entries, key, JsonValue::Str(version));
                JsonValue::Object(entries)
            },
            _ => {
                let mut entries: Vec<(String, JsonValue)> = Vec::new();
                crate::json::set_member(&mut entries, key, JsonValue::Str(version));
                JsonValue::Object(entries)
            },
        };
        self.pkg_json = updated;
    }

    /// Sets `dependency` to `version` in the manifest's `dependencies` when
    /// it is listed there.
    pub fn update_dependency_version(&mut self, dependency: String, version: String)
        requires
            old(self).pkg_json is Object,
            json_get(old(self).pkg_json, "dependencies"@) is Some ==> json_get(
                old(self).pkg_json,
                "dependencies"@,
            )->0 is Object,
        ensures
            dependency_updated(
                old(self).pkg_json,
                final(self).pkg_json,
                "dependencies"@,
                dependency@,
                version,
            ),
            same_package_but_manifest(*final(self), *old(self)),
    {
        let mut pkg_json = JsonValue::Null;
        std::mem::swap(&mut pkg_json, &mut self.pkg_json);
        self.pkg_json = update_section(pkg_json, "dependencies", dependency, version);
    }

    /// Sets `dependency` to `version` in the manifest's `devDependencies`
    /// when it is listed there.
    pub fn update_dev_dependency_version(&mut self, dependency: String, version: String)
        requires
            old(self).pkg_json is Object,
            json_get(old(self).pkg_json, "devDependencies"@) is Some ==> json_get(
                old(self).pkg_json,
                "devDependencies"@,
            )->0 is Object,
        ensures
            dependency_updated(
                old(self).pkg_json,
                final(self).pkg_json,
                "devDependencies"@,
                dependency@,
                version,
            ),
            same_package_but_manifest(*final(self), *old(self)),
    {
        let mut pkg_json = JsonValue::Null;
        std::mem::swap(&mut pkg_json, &mut self.pkg_json);
        self.pkg_json = update_section(pkg_json, "devDependencies", dependency, version);
    }
}

/// Whether `p` is the package read from `pkg_json` under these names and
/// paths, with no changed files yet.
pub open spec fn read_package(
    p: PackageInfo,
    name: Seq<char>,
    private: bool,
    package_json_path: Seq<char>,
    package_path: Seq<char>,
    relative_path: Seq<char>,
    pkg_json: JsonValue,
    root: bool,
) -> bool {
    &&& p.name@ == name
    &&& p.private == private
    &&& p.package_json_path@ == package_json_path
    &&& p.package_path@ == package_path
    &&& p.package_relative_path@ == relative_path
    &&& p.pkg_json == pkg_json
    &&& p.root == root
    &&& p.version@ == version_of(pkg_json)
    &&& repository_url_of(pkg_json) == Some(p.url@)
    &&& p.repository_info matches Some(info) && repository_parts(p.url@) == Some(
        (info.domain@, info.orga@, info.project@),
    )
    &&& p.changed_files@.len() == 0
}

fn package_from_manifest(
    name: String,
    private: bool,
    package_json_path: String,
    package_path: String,
    relative_path: String,
    pkg_json: JsonValue,
    root: bool,
) -> (p: PackageInfo)
    requires
        manifest_ok(pkg_json),
    ensures
        read_package(
            p,
            name@,
            private,
            package_json_path@,
            package_path@,
            relative_path@,
            pkg_json,
            root,
        ),
{
    let version = read_version(&pkg_json);
    let url = match read_repository_url(&pkg_json) {
        Some(u) => u,
        None => {
            assert(false);
            String::new()
        },
    };
    let info = get_package_repository_info(&url);
    PackageInfo {
        name,
        private,
        package_json_path,
        package_path,
        package_relative_path: relative_path,
        pkg_json,
        root,
        version,
        url,
        repository_info: Some(info),
        changed_files: Vec::new(),
    }
}

/// A package that `pnpm list -r --depth -1 --json` reports, with the
/// manifest read from its directory.
#[derive(Debug)]
pub struct PnpmEntry {
    pub name: String,
    pub path: String,
    pub private: bool,
    pub pkg_json: JsonValue,
}

/// Whether a package of the pnpm listing can be read: its manifest is usable
/// and its directory is the project root or lies under it.
pub open spec fn pnpm_entry_ok(root: Seq<char>, e: PnpmEntry) -> bool {
    &&& manifest_ok(e.pkg_json)
    &&& (e.path@ == root || starts_with_seq(e.path@, root))
}

/// The entries of a pnpm listing other than the project root, in order.
pub open spec fn pnpm_members(root: Seq<char>, entries: Seq<PnpmEntry>) -> Seq<PnpmEntry>
    decreases entries.len(),
{
    if entries.len() == 0 {
        Seq::empty()
    } else if entries.last().path@ == root {
        pnpm_members(root, entries.drop_last())
    } else {
        pnpm_members(root, entries.drop_last()).push(entries.last())
    }
}

/// Whether `p` is the package that the pnpm entry `e` describes.
pub open spec fn pnpm_package(p: PackageInfo, root: Seq<char>, e: PnpmEntry) -> bool {
    read_package(
        p,
        e.name@,
        e.private,
        e.path@ + "/package.json"@,
        e.path@,
        e.path@.skip(root.len() + 1int),
        e.pkg_json,
        false,
    )
}

/// The packages of a pnpm workspace, from its listing: every entry but the
/// project root itself.
pub fn pnpm_packages(project_root: &String, entries: Vec<PnpmEntry>) -> (r: Vec<PackageInfo>)
    requires
        forall|i: int| 0 <= i < entries@.len() ==> pnpm_entry_ok(project_root@, #[trigger] entries@[i]),
    ensures
        r@.len() == pnpm_members(project_root@, entries@).len(),
        forall|k: int|
            0 <= k < r@.len() ==> pnpm_package(
                #[trigger] r@[k],
                project_root@,
                pnpm_members(project_root@, entries@)[k],
            ),
{
    let ghost all = entries@;
    let n = entries.len();
    assert(all.len() == n);
    let root_chars = to_chars(project_root.as_str());
    let mut rest = entries;
    let mut out: Vec<PackageInfo> = Vec::new();
    let mut i: usize = 0;
    while rest.len() > 0
        invariant
            i + rest@.len() == all.len(),
            all.len() <= usize::MAX,
            rest@ == all.skip(i as int),
            root_chars@ == project_root@,
            forall|j: int| 0 <= j < all.len() ==> pnpm_entry_ok(project_root@, #[trigger] all[j]),
            out@.len() == pnpm_members(project_root@, all.take(i as int)).len(),
            forall|k: int|
                0 <= k < out@.len() ==> pnpm_package(
                    #[trigger] out@[k],
                    project_root@,
                    pnpm_members(project_root@, all.take(i as int))[k],
                ),
        decreases rest.len(),
    {
        let e = rest.remove(0);
        assert(e == all[i as int]);
        assert(all.take(i + 1).drop_last() =~= all.take(i as int));
        assert(all.take(i + 1).last() == all[i as int]);
        assert(rest@ =~= all.skip(i + 1));
        let path_chars = to_chars(e.path.as_str());
        if !chars_eq_string(&path_chars, &root_chars) {
            let PnpmEntry { name, path, private, pkg_json } = e;
            assert(pnpm_entry_ok(project_root@, all[i as int]));
            assert(path_chars@.len() > root_chars@.len()) by {
                assert(path_chars@.take(root_chars@.len() as int) == root_chars@);
                if path_chars@.len() == root_chars@.len() {
                    assert(path_chars@ =~= root_chars@);
                }
            }
            assert(root_chars.len() < path_chars.len());
            let relative = substring(&path_chars, root_chars.len() + 1, path_chars.len());
            assert(path_chars@.subrange(root_chars@.len() + 1int, path_chars@.len() as int) =~= path@.skip(
                project_root@.len() + 1int,
            ));
            let mut json_path = path.clone();
            json_path.append("/package.json");
            let pkg = package_from_manifest(name, private, json_path, path, relative, pkg_json, false);
            out.push(pkg);
        }
        i = i + 1;
    }
    assert(all.take(i as int) =~= all);
    out
}

fn chars_eq_string(a: &Vec<char>, b: &Vec<char>) -> (r: bool)
    ensures
        r == (a@ == b@),
{
    crate::text::chars_eq(a, b)
}

/// The glob that selects the manifests of one `workspaces` entry of the
/// root manifest: an entry that ends with `/*` gets `*/package.json`
/// appended, any other `/package.json`.
pub open spec fn workspace_pattern(workspace: Seq<char>) -> Seq<char> {
    if ends_with_seq(workspace, "/*"@) {
        workspace + "*/package.json"@
    } else {
        workspace + "/package.json"@
    }
}

/// The globs of the workspace entries, in order.
pub open spec fn workspace_patterns_of(workspaces: Seq<Seq<char>>) -> Seq<Seq<char>> {
    workspaces.map_values(|w: Seq<char>| workspace_pattern(w))
}

/// The globs that select the manifests of the workspace entries.
pub fn workspace_patterns(workspaces: &Vec<String>) -> (r: Vec<String>)
    ensures
        views(r@) == workspace_patterns_of(views(workspaces@)),
{
    let star = to_chars("/*");
    proof {
        reveal_strlit("/*");
    }
    let mut out: Vec<String> = Vec::new();
    let mut i: usize = 0;
    while i < workspaces.len()
        invariant
            i <= workspaces@.len(),
            star@ == "/*"@,
            views(out@) == workspace_patterns_of(views(workspaces@)).take(i as int),
        decreases workspaces.len() - i,
    {
        let w = to_chars(workspaces[i].as_str());
        let mut pattern = workspaces[i].clone();
        if ends_with_chars(&w, &star) {
            pattern.append("*/package.json");
        } else {
            pattern.append("/package.json");
        }
        let ghost before = out@;
        out.push(pattern);
        assert(views(out@) =~= views(before).push(workspace_pattern(workspaces@[i as int]@)));
        assert(workspace_patterns_of(views(workspaces@)).take(i + 1) =~= workspace_patterns_of(
            views(workspaces@),
        ).take(i as int).push(workspace_pattern(workspaces@[i as int]@)));
        i = i + 1;
    }
    assert(workspace_patterns_of(views(workspaces@)).take(i as int) =~= workspace_patterns_of(
        views(workspaces@),
    ));
    out
}

/// Whether the path `path`, relative to the project root, matches any of
/// the globs `patterns` (as `wax` reads globs); `None` when one of them is
/// not a glob.
pub uninterp spec fn globs_match(patterns: Seq<Seq<char>>, path: Seq<char>) -> Option<bool>;

/// Asks `wax` whether `path` matches any of `patterns`: each is built with
/// `wax::Glob::new`, joined with `wax::any` and tested with
/// `Pattern::is_match`. The contract only names the result
/// (`globs_match`): it depends on the texts alone; `None` stands for a
/// pattern that `wax` refuses.
#[verifier::external_body]
pub(crate) fn any_glob_matches(patterns: &Vec<String>, path: &String) -> (r: Option<bool>)
    ensures
        r == globs_match(views(patterns@), path@),
{
    let globs = patterns.iter().map(|p| wax::Glob::new(p.as_str())).collect::<Result<Vec<_>, _>>();
    let any = wax::any(globs.ok()?).ok()?;
    Some(wax::Pattern::is_match(&any, wax::CandidatePath::from(std::path::Path::new(path.as_str()))))
}

/// A `package.json` found under the project root (outside `node_modules`,
/// `src`, `dist` and `tests`), by its path relative to the root, with its
/// contents.
#[derive(Debug)]
pub struct WorkspaceCandidate {
    pub relative_path: String,
    pub pkg_json: JsonValue,
}

/// The directory of a manifest path that ends with `/package.json`.
pub open spec fn manifest_dir(path: Seq<char>) -> Seq<char> {
    path.take(path.len() - 13)
}

/// Whether a candidate can be handled: the globs can be tested on it, and
/// when they select it, its manifest is usable and its path ends with
/// `/package.json`.
pub open spec fn candidate_ok(patterns: Seq<Seq<char>>, c: WorkspaceCandidate) -> bool {
    match globs_match(patterns, c.relative_path@) {
        None => false,
        Some(selected) => selected ==> manifest_ok(c.pkg_json) && ends_with_seq(
            c.relative_path@,
            "/package.json"@,
        ),
    }
}

/// The candidates that the globs select, in order.
pub open spec fn workspace_members(patterns: Seq<Seq<char>>, cands: Seq<WorkspaceCandidate>) -> Seq<
    WorkspaceCandidate,
>
    decreases cands.len(),
{
    if cands.len() == 0 {
        Seq::empty()
    } else if globs_match(patterns, cands.last().relative_path@) == Some(true) {
        workspace_members(patterns, cands.drop_last()).push(cands.last())
    } else {
        workspace_members(patterns, cands.drop_last())
    }
}

/// Whether `p` is the package that the selected candidate `c` describes.
pub open spec fn workspace_package(p: PackageInfo, root: Seq<char>, c: WorkspaceCandidate) -> bool {
    read_package(
        p,
        name_of(c.pkg_json),
        private_of(c.pkg_json),
        path_join_seq(root, c.relative_path@),
        path_join_seq(root, manifest_dir(c.relative_path@)),
        manifest_dir(c.relative_path@),
        c.pkg_json,
        false,
    )
}

/// The packages of an npm or yarn workspace: the candidates that the globs
/// of the `workspaces` entries select, in order. `None` when a candidate
/// cannot be handled (see `candidate_ok`).
pub fn workspace_packages(
    project_root: &String,
    workspaces: &Vec<String>,
    candidates: Vec<WorkspaceCandidate>,
) -> (r: Option<Vec<PackageInfo>>)
    ensures
        r is Some <==> forall|i: int|
            0 <= i < candidates@.len() ==> candidate_ok(
                workspace_patterns_of(views(workspaces@)),
                #[trigger] candidates@[i],
            ),
        r matches Some(v) ==> {
            let members = workspace_members(workspace_patterns_of(views(workspaces@)), candidates@);
            &&& v@.len() == members.len()
            &&& forall|k: int|
                0 <= k < v@.len() ==> workspace_package(#[trigger] v@[k], project_root@, members[k])
        },
{
    let patterns = workspace_patterns(workspaces);
    let ghost pats = views(patterns@);
    let ghost all = candidates@;
    let n = candidates.len();
    let suffix = to_chars("/package.json");
    proof {
        reveal_strlit("/package.json");
    }
    let mut rest = candidates;
    let mut out: Vec<PackageInfo> = Vec::new();
    let mut i: usize = 0;
    while rest.len() > 0
        invariant
            i + rest@.len() == all.len(),
            all.len() == n,
            all == candidates@,
            rest@ == all.skip(i as int),
            pats == views(patterns@),
            pats == workspace_patterns_of(views(workspaces@)),
            suffix@ == "/package.json"@,
            forall|j: int| 0 <= j < i ==> candidate_ok(pats, #[trigger] all[j]),
            out@.len() == workspace_members(pats, all.take(i as int)).len(),
            forall|k: int|
                0 <= k < out@.len() ==> workspace_package(
                    #[trigger] out@[k],
                    project_root@,
                    workspace_members(pats, all.take(i as int))[k],
                ),
        decreases rest.len(),
    {
        let c = rest.remove(0);
        assert(c == all[i as int]);
        assert(all.take(i + 1).drop_last() =~= all.take(i as int));
        assert(all.take(i + 1).last() == all[i as int]);
        assert(rest@ =~= all.skip(i + 1));
        match any_glob_matches(&patterns, &c.relative_path) {
            None => {
                assert(!candidate_ok(pats, all[i as int]));
                return None;
            },
            Some(false) => {},
            Some(true) => {
                let rel = to_chars(c.relative_path.as_str());
                if !ends_with_chars(&rel, &suffix) || !is_valid_manifest(&c.pkg_json) {
                    assert(!candidate_ok(pats, all[i as int]));
                    return None;
                }
                let WorkspaceCandidate { relative_path, pkg_json } = c;
                let name = read_name(&pkg_json);
                let private = read_private(&pkg_json);
                proof {
                    reveal_strlit("/package.json");
                }
                assert(suffix@.len() == 13);
                assert(rel.len() >= 13);
                let dir = substring(&rel, 0, rel.len() - 13);
                assert(rel@.subrange(0, rel@.len() - 13) =~= manifest_dir(relative_path@));
                let json_path = path_join(project_root, &relative_path);
                let package_path = path_join(project_root, &dir);
                let pkg = package_from_manifest(
                    name,
                    private,
                    json_path,
                    package_path,
                    dir,
                    pkg_json,
                    false,
                );
                out.push(pkg);
            },
        }
        i = i + 1;
    }
    assert(all.take(i as int) =~= all);
    Some(out)
}

/// What the project's files say of its packages, as its package manager
/// lists them.
#[derive(Debug)]
pub enum PackageListing {
    /// The packages that pnpm lists.
    Pnpm(Vec<PnpmEntry>),
    /// The `workspaces` entries of the root manifest and the manifests found
    /// under the root (npm and yarn).
    Workspaces(Vec<String>, Vec<WorkspaceCandidate>),
    /// Nothing to list (bun, or no package manager).
    Empty,
}

/// The package manager of a project whose root is the first of `dirs` (see
/// `detect_package_manager`).
pub fn get_monorepo_package_manager(dirs: &Vec<DirLockFiles>) -> (r: Option<PackageManager>)
    ensures
        r == detect_from(dirs@, 0),
{
    detect_package_manager(dirs)
}

/// The listing that the package manager calls for.
pub open spec fn listing_fits(manager: Option<PackageManager>, listing: PackageListing) -> bool {
    match manager {
        Some(PackageManager::Pnpm) => listing is Pnpm,
        Some(PackageManager::Npm) | Some(PackageManager::Yarn) => listing is Workspaces,
        _ => listing is Empty,
    }
}

/// The packages of the monorepo at `project_root`: for pnpm, every listed
/// package but the root; for npm and yarn, the manifests that the
/// workspaces select; none for bun or an unknown manager. `None` when a
/// workspace candidate cannot be handled.
pub fn get_packages(
    manager: Option<PackageManager>,
    project_root: &String,
    listing: PackageListing,
) -> (r: Option<Vec<PackageInfo>>)
    requires
        listing_fits(manager, listing),
        listing matches PackageListing::Pnpm(entries) ==> forall|i: int|
            0 <= i < entries@.len() ==> pnpm_entry_ok(project_root@, #[trigger] entries@[i]),
    ensures
        match listing {
            PackageListing::Pnpm(entries) => r matches Some(v) && v@.len() == pnpm_members(
                project_root@,
                entries@,
            ).len() && forall|k: int|
                0 <= k < v@.len() ==> pnpm_package(
                    #[trigger] v@[k],
                    project_root@,
                    pnpm_members(project_root@, entries@)[k],
                ),
            PackageListing::Workspaces(workspaces, candidates) => {
                let patterns = workspace_patterns_of(views(workspaces@));
                let members = workspace_members(patterns, candidates@);
                &&& (r is Some <==> forall|i: int|
                    0 <= i < candidates@.len() ==> candidate_ok(patterns, #[trigger] candidates@[i]))
                &&& r matches Some(v) ==> v@.len() == members.len() && forall|k: int|
                    0 <= k < v@.len() ==> workspace_package(#[trigger] v@[k], project_root@, members[k])
            },
            PackageListing::Empty => r matches Some(v) && v@.len() == 0,
        },
{
    match listing {
        PackageListing::Pnpm(entries) => Some(pnpm_packages(project_root, entries)),
        PackageListing::Workspaces(workspaces, candidates) => workspace_packages(
            project_root,
            &workspaces,
            candidates,
        ),
        PackageListing::Empty => Some(Vec::new()),
    }
}

/// The packages of `pkgs` with a file of `files` under their directory, in
/// order.
pub open spec fn changed_members(pkgs: Seq<PackageInfo>, files: Seq<Seq<char>>) -> Seq<PackageInfo>
    decreases pkgs.len(),
{
    if pkgs.len() == 0 {
        Seq::empty()
    } else if crate::workspace_std::git::files_under(files, pkgs.last().package_path@).len() > 0 {
        changed_members(pkgs.drop_last(), files).push(pkgs.last())
    } else {
        changed_members(pkgs.drop_last(), files)
    }
}

/// Whether `p` is `q` with the first of `files` under its directory added to
/// its changed files.
pub open spec fn with_first_change(p: PackageInfo, q: PackageInfo, files: Seq<Seq<char>>) -> bool {
    &&& same_package(p, q)
    &&& views(p.changed_files@) == views(q.changed_files@).push(
        crate::workspace_std::git::files_under(files, q.package_path@)[0],
    )
}

/// The packages touched by the changed files: each package with a changed
/// file under its directory, once, with the first such file added to its
/// changed files.
pub fn get_changed_packages(packages: Vec<PackageInfo>, changed_files: &Vec<String>) -> (r: Vec<
    PackageInfo,
>)
    ensures
        r@.len() == changed_members(packages@, views(changed_files@)).len(),
        forall|k: int|
            0 <= k < r@.len() ==> with_first_change(
                #[trigger] r@[k],
                changed_members(packages@, views(changed_files@))[k],
                views(changed_files@),
            ),
{
    let ghost all = packages@;
    let ghost files = views(changed_files@);
    let n = packages.len();
    let mut rest = packages;
    let mut out: Vec<PackageInfo> = Vec::new();
    let mut i: usize = 0;
    while rest.len() > 0
        invariant
            i + rest@.len() == all.len(),
            all.len() == n,
            rest@ == all.skip(i as int),
            files == views(changed_files@),
            out@.len() == changed_members(all.take(i as int), files).len(),
            forall|k: int|
                0 <= k < out@.len() ==> with_first_change(
                    #[trigger] out@[k],
                    changed_members(all.take(i as int), files)[k],
                    files,
                ),
        decreases rest.len(),
    {
        let mut pkg = rest.remove(0);
        assert(pkg == all[i as int]);
        assert(all.take(i + 1).drop_last() =~= all.take(i as int));
        assert(all.take(i + 1).last() == all[i as int]);
        assert(rest@ =~= all.skip(i + 1));
        let under = crate::workspace_std::git::filter_files_under(changed_files, &pkg.package_path);
        if under.len() > 0 {
            assert(views(under@)[0] == under@[0]@);
            let ghost before = pkg;
            pkg.push_changed_file(under[0].clone());
            assert(views(pkg.changed_files@) =~= views(before.changed_files@).push(under@[0]@));
            out.push(pkg);
        }
        i = i + 1;
    }
    assert(all.take(i as int) =~= all);
    out
}

/// Reading the version after setting it gives what was set, and every other
/// member reads as before.
pub proof fn law_version_read_after_update(old_json: JsonValue, new_json: JsonValue, version: String)
    requires
        new_json is Object,
        object_members(new_json) == with_member(
            object_members(old_json),
            "version"@,
            JsonValue::Str(version),
        ),
    ensures
        version_of(new_json) == version@,
        forall|k: Seq<char>| k != "version"@ ==> #[trigger] json_get(new_json, k) == json_get(old_json, k),
{
    crate::json::lemma_lookup_with_member(
        object_members(old_json),
        "version"@,
        JsonValue::Str(version),
        "version"@,
    );
    assert forall|k: Seq<char>| k != "version"@ implies #[trigger] json_get(new_json, k) == json_get(
        old_json,
        k,
    ) by {
        crate::json::lemma_lookup_with_member(
            object_members(old_json),
            "version"@,
            JsonValue::Str(version),
            k,
        );
    }
}

/// Reading a dependency after setting it in a section that lists it gives
/// the version set; a section that does not list it is left as it was.
pub proof fn law_dependency_read_after_update(
    old_json: JsonValue,
    new_json: JsonValue,
    section: Seq<char>,
    dependency: Seq<char>,
    version: String,
)
    requires
        old_json is Object,
        dependency_updated(old_json, new_json, section, dependency, version),
    ensures
        declares(old_json, section, dependency) ==> (json_get(new_json, section) matches Some(sec)
            && json_get(sec, dependency) == Some(JsonValue::Str(version))),
        !declares(old_json, section, dependency) ==> new_json == old_json,
{
    lemma_section_edit(old_json, new_json, section, dependency, version);
}

/// The files under a directory start with it.
pub proof fn lemma_files_under(files: Seq<Seq<char>>, dir: Seq<char>)
    ensures
        forall|k: int|
            0 <= k < crate::workspace_std::git::files_under(files, dir).len() ==> starts_with_seq(
                #[trigger] crate::workspace_std::git::files_under(files, dir)[k],
                dir,
            ),
    decreases files.len(),
{
    if files.len() > 0 {
        let d = files.drop_last();
        lemma_files_under(d, dir);
        let before = crate::workspace_std::git::files_under(d, dir);
        let r = crate::workspace_std::git::files_under(files, dir);
        assert forall|k: int| 0 <= k < r.len() implies starts_with_seq(#[trigger] r[k], dir) by {
            if k < before.len() {
                assert(r[k] == before[k]);
            }
        }
    }
}

/// A package reported as changed has, as its new changed file, a file that
/// lies under its directory.
pub proof fn law_changed_file_lies_under_package(p: PackageInfo, q: PackageInfo, files: Seq<Seq<char>>)
    requires
        crate::workspace_std::git::files_under(files, q.package_path@).len() > 0,
        with_first_change(p, q, files),
    ensures
        views(p.changed_files@).len() == views(q.changed_files@).len() + 1,
        starts_with_seq(views(p.changed_files@).last(), p.package_path@),
{
    lemma_files_under(files, q.package_path@);
}

} // verus!
