//! Git commands of the monorepo tools and the reading of their output, and
//! the choice of the last tag a package was published under.
//!
//! Each command is built as a `GitCommand` run in the project root; the
//! function of the command's name reads what the process printed.
pub mod commands;
pub mod conventional;

use crate::collation::{collate, collation_order};
use crate::packages::PackageInfo;
use crate::text::{contains_chars, contains_seq, from_chars, replace_chars, replace_seq, to_chars};
use crate::utils::{package_scope_name_version, parse_package_scope, scope_parse};
use crate::versions::{version_greater, version_is_greater, version_parses};
use crate::text::views;
use crate::workspace_std::git::{
    changed_paths, commit_log_well_formed, commits_of, files_under_each, filter_files_under,
    parse_changed_paths, parse_commits, parse_tags, push_arg, push_string, tag_listing_well_formed,
    tags_of, CommitFields, GitCommand, RepositoryCommit, RepositoryRemoteTags,
};
use crate::workspace_std::utils::{stripped, strip_trailing_newline};
use vstd::prelude::*;

verus! {

/// A commit, as the log prints it.
#[derive(Debug, Clone)]
pub struct Commit {
    pub hash: String,
    pub author_name: String,
    pub author_email: String,
    pub author_date: String,
    pub message: String,
}

/// A tag and the hash it points to.
#[derive(Debug, Clone)]
pub struct RemoteTags {
    pub hash: String,
    pub tag: String,
}

/// The tag a package was last published under.
#[derive(Debug, Clone)]
pub struct PublishTagInfo {
    pub hash: String,
    pub tag: String,
    pub package: String,
}

/// The index of the first element of `s` that satisfies `f`, or `-1`.
pub open spec fn first_index<A>(s: Seq<A>, f: spec_fn(A) -> bool) -> int
    decreases s.len(),
{
    if s.len() == 0 {
        -1
    } else if f(s[0]) {
        0
    } else if first_index(s.drop_first(), f) < 0 {
        -1
    } else {
        first_index(s.drop_first(), f) + 1
    }
}

/// `first_index` is the `j` before which nothing satisfies `f` and at which
/// (unless it is the end) something does.
pub proof fn lemma_first_index<A>(s: Seq<A>, f: spec_fn(A) -> bool, j: int)
    requires
        0 <= j <= s.len(),
        forall|k: int| 0 <= k < j ==> !f(#[trigger] s[k]),
        j < s.len() ==> f(s[j]),
    ensures
        first_index(s, f) == if j == s.len() {
            -1
        } else {
            j
        },
    decreases s.len(),
{
    if s.len() > 0 && j > 0 {
        let d = s.drop_first();
        assert forall|k: int| 0 <= k < j - 1 implies !f(#[trigger] d[k]) by {
            assert(d[k] == s[k + 1]);
        }
        if j - 1 < d.len() {
            assert(d[j - 1] == s[j]);
        }
        lemma_first_index(d, f, j - 1);
    }
}

/// A tag's name without its `refs/tags/` prefixes.
pub open spec fn tag_key(tag: Seq<char>) -> Seq<char> {
    replace_seq(tag, "refs/tags/"@, Seq::empty())
}

/// Whether `x` goes before `e` in the newest-first order of tags: its name
/// collates after `e`'s.
pub open spec fn goes_before(x: RemoteTags, e: RemoteTags) -> bool {
    collation_order(tag_key(x.tag@), tag_key(e.tag@)) == 1
}

/// Where `x` goes in `s`: before the first tag it goes before, else last.
pub open spec fn insert_position(s: Seq<RemoteTags>, x: RemoteTags) -> int {
    let i = first_index(s, |e: RemoteTags| goes_before(x, e));
    if i < 0 {
        s.len() as int
    } else {
        i
    }
}

/// The tags of `s` sorted newest first by the collation of their names,
/// tags of equal rank keeping their order (a stable sort).
pub open spec fn sorted_tags(s: Seq<RemoteTags>) -> Seq<RemoteTags>
    decreases s.len(),
{
    if s.len() == 0 {
        Seq::empty()
    } else {
        let t = sorted_tags(s.drop_last());
        t.insert(insert_position(t, s.last()), s.last())
    }
}

/// The names of `s` without their `refs/tags/` prefixes.
pub open spec fn tag_keys(s: Seq<RemoteTags>) -> Seq<Seq<char>> {
    s.map_values(|t: RemoteTags| tag_key(t.tag@))
}

/// The version part of a tag name read as `[@scope/]name[@version][/path]`.
pub open spec fn tag_version(t: Seq<char>) -> Seq<char> {
    match scope_parse(t) {
        Some((_, v, _)) => v,
        None => Seq::empty(),
    }
}

/// Whether the version of a tag name can be compared: the name follows
/// `[@scope/]name[@version][/path]` and its version parses.
pub open spec fn tag_comparable(t: Seq<char>) -> bool {
    scope_parse(t) matches Some((_, v, _)) && version_parses(v)
}

/// The tag name with the greatest version among the names of `keys` that
/// contain `name`; of equal versions the first.
pub open spec fn highest_tag(keys: Seq<Seq<char>>, name: Seq<char>) -> Option<Seq<char>>
    decreases keys.len(),
{
    if keys.len() == 0 {
        None
    } else {
        let prev = highest_tag(keys.drop_last(), name);
        let t = keys.last();
        if !contains_seq(t, name) {
            prev
        } else {
            match prev {
                None => Some(t),
                Some(h) => if version_greater(tag_version(t), tag_version(h)) {
                    Some(t)
                } else {
                    Some(h)
                },
            }
        }
    }
}

/// The index, in the sorted names `keys`, of the tag a package `name` at
/// `version` was last published under: the first name that contains
/// `name@version`; else the first that contains the name of highest version
/// among those that contain `name`; `-1` when there is none.
pub open spec fn publish_tag_index(keys: Seq<Seq<char>>, name: Seq<char>, version: Seq<char>) -> int {
    let exact = first_index(keys, |k: Seq<char>| contains_seq(k, name + "@"@ + version));
    if exact >= 0 {
        exact
    } else {
        match highest_tag(keys, name) {
            Some(h) => first_index(keys, |k: Seq<char>| contains_seq(k, h)),
            None => -1,
        }
    }
}

/// The last tag the package `name` at `version` was published under, among
/// `tags` (see `publish_tag_index`).
pub open spec fn publish_info(name: String, version: Seq<char>, tags: Seq<RemoteTags>) -> Option<
    PublishTagInfo,
> {
    let sorted = sorted_tags(tags);
    let i = publish_tag_index(tag_keys(sorted), name@, version);
    if i < 0 {
        None
    } else {
        Some(PublishTagInfo { hash: sorted[i].hash, tag: sorted[i].tag, package: name })
    }
}

/// Whether the name of `t` contains `exact`, and whether, if it contains
/// `name`, its version can be compared.
fn tag_checks(t: &RemoteTags, exact: &Vec<char>, name: &Vec<char>) -> (r: (bool, bool))
    ensures
        r.0 == contains_seq(tag_key(t.tag@), exact@),
        r.1 == (contains_seq(tag_key(t.tag@), name@) ==> tag_comparable(tag_key(t.tag@))),
{
    let key = key_of(&t.tag);
    let kc = to_chars(key.as_str());
    let e = contains_chars(&kc, exact);
    if contains_chars(&kc, name) {
        let ok = match parse_package_scope(key.as_str()) {
            Some(m) => version_is_greater(m.version.as_str(), m.version.as_str()).is_some(),
            None => false,
        };
        (e, ok)
    } else {
        (e, true)
    }
}

/// Whether the tags can be searched for the package `name` at `version`:
/// a tag name contains `name@version`, or every tag name that contains
/// `name` has a version that can be compared.
pub open spec fn publish_tags_comparable(name: Seq<char>, version: Seq<char>, tags: Seq<RemoteTags>) -> bool {
    ||| exists|i: int| 0 <= i < tags.len() && contains_seq(tag_key(tags[i].tag@), name + "@"@ + version)
    ||| forall|i: int|
        0 <= i < tags.len() && contains_seq(tag_key(#[trigger] tags[i].tag@), name) ==> tag_comparable(
            tag_key(tags[i].tag@),
        )
}

/// `insert_position` is the first place whose tag `x` goes before.
proof fn lemma_insert_position(s: Seq<RemoteTags>, x: RemoteTags, j: int)
    requires
        0 <= j <= s.len(),
        forall|k: int| 0 <= k < j ==> !goes_before(x, #[trigger] s[k]),
        j < s.len() ==> goes_before(x, s[j]),
    ensures
        insert_position(s, x) == j,
{
    let f = |e: RemoteTags| goes_before(x, e);
    assert forall|k: int| 0 <= k < j implies !f(#[trigger] s[k]) by {}
    lemma_first_index(s, f, j);
}

/// Sorting keeps the tags: the sorted tags are those of `s`, as often.
pub proof fn lemma_sorted_tags(s: Seq<RemoteTags>)
    ensures
        sorted_tags(s).to_multiset() == s.to_multiset(),
        sorted_tags(s).len() == s.len(),
    decreases s.len(),
{
    broadcast use vstd::seq_lib::to_multiset_insert, vstd::seq_lib::to_multiset_build, vstd::seq_lib::to_multiset_len;

    if s.len() == 0 {
        assert(sorted_tags(s) =~= s);
    } else {
        let d = s.drop_last();
        let t = sorted_tags(d);
        let x = s.last();
        lemma_sorted_tags(d);
        lemma_first_index_range(t, |e: RemoteTags| goes_before(x, e));
        let p = insert_position(t, x);
        assert(0 <= p <= t.len());
        assert(s =~= d.push(x));
        assert(t.insert(p, x).to_multiset() == t.to_multiset().insert(x));
        assert(d.push(x).to_multiset() =~= d.to_multiset().insert(x));
    }
}

/// A tag is among the sorted tags exactly when it is among `s`.
pub proof fn lemma_sorted_contains(s: Seq<RemoteTags>, a: RemoteTags)
    ensures
        sorted_tags(s).contains(a) <==> s.contains(a),
{
    broadcast use vstd::seq_lib::to_multiset_contains;

    lemma_sorted_tags(s);
    assert(sorted_tags(s).contains(a) <==> sorted_tags(s).to_multiset().count(a) > 0);
    assert(s.contains(a) <==> s.to_multiset().count(a) > 0);
}

pub proof fn lemma_first_index_range<A>(s: Seq<A>, f: spec_fn(A) -> bool)
    ensures
        -1 <= first_index(s, f) < s.len(),
        first_index(s, f) >= 0 ==> f(s[first_index(s, f)]),
        forall|k: int| 0 <= k < first_index(s, f) ==> !f(#[trigger] s[k]),
        first_index(s, f) < 0 ==> forall|k: int| 0 <= k < s.len() ==> !f(#[trigger] s[k]),
    decreases s.len(),
{
    if s.len() > 0 && !f(s[0]) {
        let d = s.drop_first();
        lemma_first_index_range(d, f);
        assert forall|k: int| 1 <= k < s.len() implies s[k] == d[k - 1] by {}
    }
}

/// A tag and its name without `refs/tags/`, ready to be sorted.
struct KeyedTag {
    key: String,
    tag: RemoteTags,
}

fn copy_tag(t: &RemoteTags) -> (r: RemoteTags)
    ensures
        r == *t,
{
    RemoteTags { hash: t.hash.clone(), tag: t.tag.clone() }
}

fn key_of(tag: &String) -> (r: String)
    ensures
        r@ == tag_key(tag@),
{
    let prefix = to_chars("refs/tags/");
    proof {
        reveal_strlit("refs/tags/");
    }
    let nothing: Vec<char> = Vec::new();
    let k = replace_chars(&to_chars(tag.as_str()), &prefix, &nothing);
    assert(nothing@ =~= Seq::<char>::empty());
    from_chars(k.as_slice())
}

/// `tags` sorted newest first (see `sorted_tags`), each with its key.
fn sort_tags(tags: &Vec<RemoteTags>) -> (r: Vec<KeyedTag>)
    ensures
        r@.map_values(|e: KeyedTag| e.tag) == sorted_tags(tags@),
        forall|k: int| 0 <= k < r@.len() ==> (#[trigger] r@[k]).key@ == tag_key(r@[k].tag.tag@),
{
    let mut out: Vec<KeyedTag> = Vec::new();
    let mut i: usize = 0;
    while i < tags.len()
        invariant
            i <= tags@.len(),
            out@.map_values(|e: KeyedTag| e.tag) == sorted_tags(tags@.take(i as int)),
            forall|k: int| 0 <= k < out@.len() ==> (#[trigger] out@[k]).key@ == tag_key(out@[k].tag.tag@),
        decreases tags.len() - i,
    {
        let x = copy_tag(&tags[i]);
        let kx = key_of(&x.tag);
        let ghost t = out@.map_values(|e: KeyedTag| e.tag);
        let mut j: usize = 0;
        while j < out.len() && collate(kx.as_str(), out[j].key.as_str()) != 1
            invariant
                j <= out@.len(),
                t == out@.map_values(|e: KeyedTag| e.tag),
                kx@ == tag_key(x.tag@),
                forall|k: int| 0 <= k < out@.len() ==> (#[trigger] out@[k]).key@ == tag_key(out@[k].tag.tag@),
                forall|k: int| 0 <= k < j ==> !goes_before(x, #[trigger] t[k]),
            decreases out.len() - j,
        {
            assert(t[j as int] == out@[j as int].tag);
            j = j + 1;
        }
        proof {
            if j < out.len() {
                assert(t[j as int] == out@[j as int].tag);
            }
            lemma_insert_position(t, x, j as int);
            assert(tags@.take(i + 1).drop_last() =~= tags@.take(i as int));
            assert(tags@.take(i + 1).last() == tags@[i as int]);
        }
        let ghost before = out@;
        out.insert(j, KeyedTag { key: kx, tag: x });
        assert(out@.map_values(|e: KeyedTag| e.tag) =~= t.insert(j as int, x));
        assert forall|k: int| 0 <= k < out@.len() implies (#[trigger] out@[k]).key@ == tag_key(
            out@[k].tag.tag@,
        ) by {
            if k < j {
                assert(out@[k] == before[k]);
            } else if k > j {
                assert(out@[k] == before[k - 1]);
            }
        }
        i = i + 1;
    }
    assert(tags@.take(i as int) =~= tags@);
    out
}

/// The keys of sorted tags.
spec fn keys_of(entries: Seq<KeyedTag>) -> Seq<Seq<char>> {
    entries.map_values(|e: KeyedTag| e.key@)
}

proof fn lemma_keys_of(entries: Seq<KeyedTag>)
    requires
        forall|k: int| 0 <= k < entries.len() ==> (#[trigger] entries[k]).key@ == tag_key(entries[k].tag.tag@),
    ensures
        keys_of(entries) == tag_keys(entries.map_values(|e: KeyedTag| e.tag)),
{
    assert(keys_of(entries) =~= tag_keys(entries.map_values(|e: KeyedTag| e.tag)));
}

/// The first entry whose key contains `p`.
fn find_containing(entries: &Vec<KeyedTag>, p: &Vec<char>) -> (r: Option<usize>)
    ensures
        match r {
            Some(i) => i < entries@.len() && i == first_index(
                keys_of(entries@),
                |k: Seq<char>| contains_seq(k, p@),
            ),
            None => first_index(keys_of(entries@), |k: Seq<char>| contains_seq(k, p@)) < 0,
        },
{
    let ghost keys = keys_of(entries@);
    let ghost f = |k: Seq<char>| contains_seq(k, p@);
    let mut i: usize = 0;
    while i < entries.len()
        invariant
            i <= entries@.len(),
            keys == keys_of(entries@),
            f == (|k: Seq<char>| contains_seq(k, p@)),
            forall|k: int| 0 <= k < i ==> !f(#[trigger] keys[k]),
        decreases entries.len() - i,
    {
        assert(keys[i as int] == entries@[i as int].key@);
        if contains_chars(&to_chars(entries[i].key.as_str()), p) {
            proof {
                lemma_first_index(keys, f, i as int);
            }
            return Some(i);
        }
        i = i + 1;
    }
    proof {
        lemma_first_index(keys, f, i as int);
    }
    None
}

/// The entry whose key is `highest_tag` of the keys for `name`.
fn highest_index(entries: &Vec<KeyedTag>, name: &Vec<char>) -> (r: Option<usize>)
    requires
        forall|k: int|
            0 <= k < entries@.len() && contains_seq(#[trigger] keys_of(entries@)[k], name@)
                ==> tag_comparable(keys_of(entries@)[k]),
    ensures
        match r {
            Some(h) => h < entries@.len() && highest_tag(keys_of(entries@), name@) == Some(
                keys_of(entries@)[h as int],
            ),
            None => highest_tag(keys_of(entries@), name@) is None,
        },
{
    let ghost keys = keys_of(entries@);
    let mut highest: Option<usize> = None;
    let mut i: usize = 0;
    while i < entries.len()
        invariant
            i <= entries@.len(),
            keys == keys_of(entries@),
            forall|k: int|
                0 <= k < entries@.len() && contains_seq(#[trigger] keys[k], name@) ==> tag_comparable(
                    keys[k],
                ),
            match highest {
                Some(h) => h < i && highest_tag(keys.take(i as int), name@) == Some(keys[h as int])
                    && contains_seq(keys[h as int], name@),
                None => highest_tag(keys.take(i as int), name@) is None,
            },
        decreases entries.len() - i,
    {
        assert(keys.take(i + 1).drop_last() =~= keys.take(i as int));
        assert(keys.take(i + 1).last() == keys[i as int]);
        assert(keys[i as int] == entries@[i as int].key@);
        let key = to_chars(entries[i].key.as_str());
        if contains_chars(&key, name) {
            let h = match highest {
                Some(h) => h,
                None => i,
            };
            assert(keys[h as int] == entries@[h as int].key@);
            assert(tag_comparable(keys[i as int]));
            assert(tag_comparable(keys[h as int]));
            let current = package_scope_name_version(entries[i].key.as_str());
            let top = package_scope_name_version(entries[h].key.as_str());
            match (current, top) {
                (Some(c), Some(t)) => {
                    match version_is_greater(c.version.as_str(), t.version.as_str()) {
                        Some(true) => {
                            highest = Some(i);
                        },
                        _ => {
                            highest = Some(h);
                        },
                    }
                },
                _ => {
                    highest = Some(h);
                },
            }
        }
        i = i + 1;
    }
    assert(keys.take(i as int) =~= keys);
    highest
}

/// When no sorted name contains `name@version`, every sorted name that
/// contains `name` has a comparable version.
proof fn lemma_comparable_when_no_exact(tags: Seq<RemoteTags>, name: Seq<char>, version: Seq<char>)
    requires
        publish_tags_comparable(name, version, tags),
        first_index(tag_keys(sorted_tags(tags)), |k: Seq<char>| contains_seq(k, name + "@"@ + version))
            < 0,
    ensures
        forall|k: int|
            0 <= k < tags.len() && contains_seq(#[trigger] tag_keys(sorted_tags(tags))[k], name)
                ==> tag_comparable(tag_keys(sorted_tags(tags))[k]),
{
    let sorted = sorted_tags(tags);
    let keys = tag_keys(sorted);
    let f = |k: Seq<char>| contains_seq(k, name + "@"@ + version);
    lemma_sorted_tags(tags);
    lemma_first_index_range(keys, f);
    if exists|i: int| 0 <= i < tags.len() && contains_seq(tag_key(tags[i].tag@), name + "@"@ + version) {
        let i0 = choose|i: int|
            0 <= i < tags.len() && contains_seq(tag_key(tags[i].tag@), name + "@"@ + version);
        lemma_sorted_contains(tags, tags[i0]);
        assert(tags.contains(tags[i0]));
        let k0 = choose|k: int| 0 <= k < sorted.len() && sorted[k] == tags[i0];
        assert(keys[k0] == tag_key(sorted[k0].tag@));
        assert(!f(keys[k0]));
    }
    assert forall|k: int|
        0 <= k < tags.len() && contains_seq(#[trigger] keys[k], name) implies tag_comparable(keys[k]) by {
        lemma_sorted_contains(tags, sorted[k]);
        assert(sorted.contains(sorted[k]));
        let j0 = choose|j: int| 0 <= j < tags.len() && tags[j] == sorted[k];
        assert(keys[k] == tag_key(sorted[k].tag@));
        assert(contains_seq(tag_key(tags[j0].tag@), name));
    }
}

/// The last tag the package was published under, among the remote tags and
/// then the local ones (see `publish_info`).
pub fn get_last_known_publish_tag_info_for_package(
    package_info: &PackageInfo,
    remote_tags: &Vec<RemoteTags>,
    local_tags: &Vec<RemoteTags>,
) -> (r: Option<PublishTagInfo>)
    requires
        publish_tags_comparable(
            package_info.name@,
            package_info.version@,
            remote_tags@ + local_tags@,
        ),
    ensures
        r == publish_info(package_info.name, package_info.version@, remote_tags@ + local_tags@),
{
    let mut all: Vec<RemoteTags> = Vec::new();
    let mut i: usize = 0;
    while i < remote_tags.len()
        invariant
            i <= remote_tags@.len(),
            all@ == remote_tags@.take(i as int),
        decreases remote_tags.len() - i,
    {
        all.push(copy_tag(&remote_tags[i]));
        assert(all@ =~= remote_tags@.take(i + 1));
        i = i + 1;
    }
    let mut j: usize = 0;
    while j < local_tags.len()
        invariant
            j <= local_tags@.len(),
            all@ == remote_tags@ + local_tags@.take(j as int),
        decreases local_tags.len() - j,
    {
        all.push(copy_tag(&local_tags[j]));
        assert(all@ =~= remote_tags@ + local_tags@.take(j + 1));
        j = j + 1;
    }
    assert(remote_tags@.take(remote_tags@.len() as int) =~= remote_tags@);
    assert(local_tags@.take(local_tags@.len() as int) =~= local_tags@);
    let ghost tags = all@;
    let entries = sort_tags(&all);
    let ghost sorted = sorted_tags(tags);
    let ghost keys = tag_keys(sorted);
    proof {
        lemma_keys_of(entries@);
        lemma_sorted_tags(tags);
    }
    assert(keys_of(entries@) == keys);
    let name = to_chars(package_info.name.as_str());
    let package_tag = package_info.name.clone().concat("@").concat(package_info.version.as_str());
    proof {
        reveal_strlit("@");
    }
    let exact_pattern = to_chars(package_tag.as_str());
    let ghost exact_f = |k: Seq<char>| contains_seq(k, package_info.name@ + "@"@ + package_info.version@);
    assert(exact_pattern@ == package_info.name@ + "@"@ + package_info.version@);
    let found = match find_containing(&entries, &exact_pattern) {
        Some(i) => Some(i),
        None => {
            proof {
                lemma_comparable_when_no_exact(tags, package_info.name@, package_info.version@);
            }
            match highest_index(&entries, &name) {
                Some(h) => {
                    let top = to_chars(entries[h].key.as_str());
                    find_containing(&entries, &top)
                },
                None => None,
            }
        },
    };
    match found {
        Some(i) => {
            assert(entries@.map_values(|e: KeyedTag| e.tag)[i as int] == entries@[i as int].tag);
            assert(entries@[i as int].tag == sorted[i as int]);
            Some(
                PublishTagInfo {
                    hash: entries[i].tag.hash.clone(),
                    tag: entries[i].tag.tag.clone(),
                    package: package_info.name.clone(),
                },
            )
        },
        None => None,
    }
}

/// A text that contains `a + b` contains `a`.
pub proof fn lemma_contains_prefix(k: Seq<char>, a: Seq<char>, b: Seq<char>)
    requires
        contains_seq(k, a + b),
    ensures
        contains_seq(k, a),
{
    let i = choose|i: int| crate::text::occurs_at(k, a + b, i);
    assert(k.subrange(i, i + a.len()) =~= (a + b).subrange(0, a.len() as int));
    assert((a + b).subrange(0, a.len() as int) =~= a);
    assert(crate::text::occurs_at(k, a, i));
}

/// `highest_tag` is one of the names that contain `name`, and there is one
/// exactly when a name contains `name`.
pub proof fn lemma_highest_tag(keys: Seq<Seq<char>>, name: Seq<char>)
    ensures
        highest_tag(keys, name) is Some <==> exists|k: int| 0 <= k < keys.len() && contains_seq(#[trigger] keys[k], name),
        highest_tag(keys, name) matches Some(h) ==> keys.contains(h) && contains_seq(h, name),
    decreases keys.len(),
{
    if keys.len() > 0 {
        let d = keys.drop_last();
        lemma_highest_tag(d, name);
        if exists|k: int| 0 <= k < d.len() && contains_seq(#[trigger] d[k], name) {
            let k0 = choose|k: int| 0 <= k < d.len() && contains_seq(#[trigger] d[k], name);
            assert(keys[k0] == d[k0]);
        }
        if exists|k: int| 0 <= k < keys.len() && contains_seq(#[trigger] keys[k], name) {
            let k0 = choose|k: int| 0 <= k < keys.len() && contains_seq(#[trigger] keys[k], name);
            if k0 < d.len() {
                assert(d[k0] == keys[k0]);
            }
        }
        if highest_tag(d, name) is Some {
            let h = highest_tag(d, name)->0;
            let j = choose|j: int| 0 <= j < d.len() && d[j] == h;
            assert(keys[j] == h);
        }
        assert(keys[keys.len() - 1] == keys.last());
    }
}

/// The tag chosen for a package is one of the given tags, and is reported
/// for that package.
pub proof fn law_publish_tag_is_one_of_the_tags(name: String, version: Seq<char>, tags: Seq<RemoteTags>)
    ensures
        publish_info(name, version, tags) matches Some(p) ==> p.package == name && exists|i: int|
            0 <= i < tags.len() && tags[i].hash == p.hash && tags[i].tag == p.tag,
{
    let sorted = sorted_tags(tags);
    let keys = tag_keys(sorted);
    lemma_sorted_tags(tags);
    let f = |k: Seq<char>| contains_seq(k, name@ + "@"@ + version);
    lemma_first_index_range(keys, f);
    match highest_tag(keys, name@) {
        Some(h) => {
            lemma_first_index_range(keys, |k: Seq<char>| contains_seq(k, h));
        },
        None => {},
    }
    let i = publish_tag_index(keys, name@, version);
    if i >= 0 {
        assert(i < sorted.len());
        lemma_sorted_contains(tags, sorted[i]);
        assert(sorted.contains(sorted[i]));
        let j = choose|j: int| 0 <= j < tags.len() && tags[j] == sorted[i];
        assert(tags[j].hash == sorted[i].hash && tags[j].tag == sorted[i].tag);
    }
}

/// When a tag names the package at its version (`name@version`), that is the
/// kind of tag chosen.
pub proof fn law_exact_tag_is_chosen(name: String, version: Seq<char>, tags: Seq<RemoteTags>)
    requires
        exists|i: int| 0 <= i < tags.len() && contains_seq(tag_key(tags[i].tag@), name@ + "@"@ + version),
    ensures
        publish_info(name, version, tags) matches Some(p) && contains_seq(
            tag_key(p.tag@),
            name@ + "@"@ + version,
        ),
{
    let sorted = sorted_tags(tags);
    let keys = tag_keys(sorted);
    let f = |k: Seq<char>| contains_seq(k, name@ + "@"@ + version);
    let i0 = choose|i: int| 0 <= i < tags.len() && contains_seq(tag_key(tags[i].tag@), name@ + "@"@ + version);
    lemma_sorted_tags(tags);
    lemma_sorted_contains(tags, tags[i0]);
    assert(tags.contains(tags[i0]));
    let k0 = choose|k: int| 0 <= k < sorted.len() && sorted[k] == tags[i0];
    assert(keys[k0] == tag_key(sorted[k0].tag@));
    assert(f(keys[k0]));
    lemma_first_index_range(keys, f);
    let e = first_index(keys, f);
    assert(e >= 0);
    assert(keys[e] == tag_key(sorted[e].tag@));
}

/// No tag is chosen for a package that no tag names.
pub proof fn law_no_tag_without_the_package_name(name: String, version: Seq<char>, tags: Seq<RemoteTags>)
    requires
        forall|i: int| 0 <= i < tags.len() ==> !contains_seq(tag_key(#[trigger] tags[i].tag@), name@),
    ensures
        publish_info(name, version, tags) is None,
{
    let sorted = sorted_tags(tags);
    let keys = tag_keys(sorted);
    let f = |k: Seq<char>| contains_seq(k, name@ + "@"@ + version);
    lemma_sorted_tags(tags);
    assert forall|k: int| 0 <= k < keys.len() implies !contains_seq(#[trigger] keys[k], name@) by {
        lemma_sorted_contains(tags, sorted[k]);
        assert(sorted.contains(sorted[k]));
        let j = choose|j: int| 0 <= j < tags.len() && tags[j] == sorted[k];
        assert(keys[k] == tag_key(tags[j].tag@));
    }
    assert forall|k: int| 0 <= k < keys.len() implies !f(#[trigger] keys[k]) by {
        if f(keys[k]) {
            assert(name@ + "@"@ + version =~= name@ + ("@"@ + version));
            lemma_contains_prefix(keys[k], name@, "@"@ + version);
        }
    }
    lemma_first_index_range(keys, f);
    if first_index(keys, f) >= 0 {
        assert(f(keys[first_index(keys, f)]));
    }
    lemma_highest_tag(keys, name@);
}

/// A tag is chosen for a package that some tag names (when the tags can be
/// searched).
pub proof fn law_some_tag_with_the_package_name(name: String, version: Seq<char>, tags: Seq<RemoteTags>)
    requires
        exists|i: int| 0 <= i < tags.len() && contains_seq(tag_key(#[trigger] tags[i].tag@), name@),
    ensures
        publish_info(name, version, tags) is Some,
{
    let sorted = sorted_tags(tags);
    let keys = tag_keys(sorted);
    let f = |k: Seq<char>| contains_seq(k, name@ + "@"@ + version);
    lemma_sorted_tags(tags);
    let i0 = choose|i: int| 0 <= i < tags.len() && contains_seq(tag_key(#[trigger] tags[i].tag@), name@);
    lemma_sorted_contains(tags, tags[i0]);
    assert(tags.contains(tags[i0]));
    let k0 = choose|k: int| 0 <= k < sorted.len() && sorted[k] == tags[i0];
    assert(keys[k0] == tag_key(sorted[k0].tag@));
    lemma_highest_tag(keys, name@);
    lemma_first_index_range(keys, f);
    if first_index(keys, f) < 0 {
        let h = highest_tag(keys, name@)->0;
        let g = |k: Seq<char>| contains_seq(k, h);
        let j = choose|j: int| 0 <= j < keys.len() && keys[j] == h;
        assert(crate::text::occurs_at(h, h, 0)) by {
            assert(h.subrange(0, h.len() as int) =~= h);
        }
        assert(g(keys[j]));
        lemma_first_index_range(keys, g);
    }
}

/// Whether the tags can be searched for the package (see
/// `publish_tags_comparable`).
pub fn publish_tags_can_be_compared(
    name: &String,
    version: &String,
    remote_tags: &Vec<RemoteTags>,
    local_tags: &Vec<RemoteTags>,
) -> (b: bool)
    ensures
        b == publish_tags_comparable(name@, version@, remote_tags@ + local_tags@),
{
    let ghost tags = remote_tags@ + local_tags@;
    let name_chars = to_chars(name.as_str());
    let package_tag = name.clone().concat("@").concat(version.as_str());
    proof {
        reveal_strlit("@");
    }
    let exact = to_chars(package_tag.as_str());
    let mut has_exact = false;
    let mut all_comparable = true;
    let mut i: usize = 0;
    while i < remote_tags.len()
        invariant
            i <= remote_tags@.len(),
            tags == remote_tags@ + local_tags@,
            name_chars@ == name@,
            exact@ == name@ + "@"@ + version@,
            has_exact == exists|k: int|
                0 <= k < i && contains_seq(tag_key(tags[k].tag@), name@ + "@"@ + version@),
            all_comparable == forall|k: int|
                0 <= k < i && contains_seq(tag_key(#[trigger] tags[k].tag@), name@) ==> tag_comparable(
                    tag_key(tags[k].tag@),
                ),
        decreases remote_tags.len() - i,
    {
        assert(remote_tags@[i as int] == tags[i as int]);
        let (e, c) = tag_checks(&remote_tags[i], &exact, &name_chars);
        has_exact = has_exact || e;
        all_comparable = all_comparable && c;
        i = i + 1;
    }
    let mut j: usize = 0;
    while j < local_tags.len()
        invariant
            j <= local_tags@.len(),
            tags == remote_tags@ + local_tags@,
            name_chars@ == name@,
            exact@ == name@ + "@"@ + version@,
            has_exact == exists|k: int|
                0 <= k < remote_tags@.len() + j && contains_seq(
                    tag_key(tags[k].tag@),
                    name@ + "@"@ + version@,
                ),
            all_comparable == forall|k: int|
                0 <= k < remote_tags@.len() + j && contains_seq(tag_key(#[trigger] tags[k].tag@), name@)
                    ==> tag_comparable(tag_key(tags[k].tag@)),
        decreases local_tags.len() - j,
    {
        assert(local_tags@[j as int] == tags[remote_tags@.len() + j]);
        let (e, c) = tag_checks(&local_tags[j], &exact, &name_chars);
        has_exact = has_exact || e;
        all_comparable = all_comparable && c;
        j = j + 1;
    }
    has_exact || all_comparable
}

/// Whether the tags of every package can be searched.
pub open spec fn all_publish_tags_comparable(pkgs: Seq<PackageInfo>, tags: Seq<RemoteTags>) -> bool {
    forall|i: int|
        0 <= i < pkgs.len() ==> publish_tags_comparable(
            (#[trigger] pkgs[i]).name@,
            pkgs[i].version@,
            tags,
        )
}

/// The publish tags of the packages that have one, in order.
pub open spec fn publish_infos(pkgs: Seq<PackageInfo>, tags: Seq<RemoteTags>) -> Seq<Option<PublishTagInfo>>
    decreases pkgs.len(),
{
    if pkgs.len() == 0 {
        Seq::empty()
    } else {
        let prev = publish_infos(pkgs.drop_last(), tags);
        let info = publish_info(pkgs.last().name, pkgs.last().version@, tags);
        if info is Some {
            prev.push(info)
        } else {
            prev
        }
    }
}

/// The last publish tags of all the packages that have one, among the same
/// remote and local tags; `None` when the tags of a package cannot be
/// searched (see `publish_tags_comparable`).
pub fn get_last_known_publish_tag_info_for_all_packages(
    package_info: &Vec<PackageInfo>,
    remote_tags: &Vec<RemoteTags>,
    local_tags: &Vec<RemoteTags>,
) -> (r: Option<Vec<Option<PublishTagInfo>>>)
    ensures
        r is Some <==> all_publish_tags_comparable(package_info@, remote_tags@ + local_tags@),
        r matches Some(v) ==> v@ == publish_infos(package_info@, remote_tags@ + local_tags@),
{
    let ghost tags = remote_tags@ + local_tags@;
    let mut out: Vec<Option<PublishTagInfo>> = Vec::new();
    let mut i: usize = 0;
    while i < package_info.len()
        invariant
            i <= package_info@.len(),
            tags == remote_tags@ + local_tags@,
            forall|k: int|
                0 <= k < i ==> publish_tags_comparable(
                    (#[trigger] package_info@[k]).name@,
                    package_info@[k].version@,
                    tags,
                ),
            out@ == publish_infos(package_info@.take(i as int), tags),
        decreases package_info.len() - i,
    {
        let pkg = &package_info[i];
        if !publish_tags_can_be_compared(&pkg.name, &pkg.version, remote_tags, local_tags) {
            return None;
        }
        let info = get_last_known_publish_tag_info_for_package(pkg, remote_tags, local_tags);
        assert(package_info@.take(i + 1).drop_last() =~= package_info@.take(i as int));
        assert(package_info@.take(i + 1).last() == package_info@[i as int]);
        if info.is_some() {
            out.push(info);
        }
        i = i + 1;
    }
    assert(package_info@.take(i as int) =~= package_info@);
    Some(out)
}

fn command_in(cwd: &String) -> (c: GitCommand)
    ensures
        c.dir@ == cwd@,
        c.args@.len() == 0,
{
    GitCommand { dir: cwd.clone(), args: Vec::new() }
}

/// `git add .`, run in `cwd`: stages every change. Its exit status tells
/// whether it worked.
pub fn git_add_all(cwd: &String) -> (c: GitCommand)
    ensures
        c.dir@ == cwd@,
        views(c.args@) == seq!["add"@, "."@],
{
    let mut c = command_in(cwd);
    push_arg(&mut c.args, "add");
    push_arg(&mut c.args, ".");
    c
}

/// `git add <file>`, run in `cwd`. Its exit status tells whether it worked.
pub fn git_add(cwd: &String, file: &String) -> (c: GitCommand)
    ensures
        c.dir@ == cwd@,
        views(c.args@) == seq!["add"@, file@],
{
    let mut c = command_in(cwd);
    push_arg(&mut c.args, "add");
    push_string(&mut c.args, file);
    c
}

/// `git config user.name <username>` and `git config user.email <email>`,
/// both run in `cwd`.
pub fn git_config(username: &String, email: &String, cwd: &String) -> (r: (GitCommand, GitCommand))
    ensures
        r.0.dir@ == cwd@,
        views(r.0.args@) == seq!["config"@, "user.name"@, username@],
        r.1.dir@ == cwd@,
        views(r.1.args@) == seq!["config"@, "user.email"@, email@],
{
    let mut user = command_in(cwd);
    push_arg(&mut user.args, "config");
    push_arg(&mut user.args, "user.name");
    push_string(&mut user.args, username);
    let mut mail = command_in(cwd);
    push_arg(&mut mail.args, "config");
    push_arg(&mut mail.args, "user.email");
    push_string(&mut mail.args, email);
    (user, mail)
}

/// What the configuration reports from the exit statuses of its two
/// commands: whether they agree.
pub fn git_config_status(user_succeeded: bool, email_succeeded: bool) -> (r: bool)
    ensures
        r == (user_succeeded == email_succeeded),
{
    user_succeeded == email_succeeded
}

/// `git fetch origin`, with `--tags --force` when tags are asked for, run in
/// `cwd`. Its exit status tells whether it worked.
pub fn git_fetch_all(cwd: &String, fetch_tags: Option<bool>) -> (c: GitCommand)
    ensures
        c.dir@ == cwd@,
        views(c.args@) == seq!["fetch"@, "origin"@] + if fetch_tags == Some(true) {
            seq!["--tags"@, "--force"@]
        } else {
            seq![]
        },
{
    let mut c = command_in(cwd);
    push_arg(&mut c.args, "fetch");
    push_arg(&mut c.args, "origin");
    if fetch_tags == Some(true) {
        push_arg(&mut c.args, "--tags");
        push_arg(&mut c.args, "--force");
    }
    assert(views(c.args@) =~= seq!["fetch"@, "origin"@] + if fetch_tags == Some(true) {
        seq!["--tags"@, "--force"@]
    } else {
        seq![]
    });
    c
}

/// `git merge-base <refer> HEAD`, run in `cwd`.
pub fn get_diverged_commit_command(refer: &String, cwd: &String) -> (c: GitCommand)
    ensures
        c.dir@ == cwd@,
        views(c.args@) == seq!["merge-base"@, refer@, "HEAD"@],
{
    let mut c = command_in(cwd);
    push_arg(&mut c.args, "merge-base");
    push_string(&mut c.args, refer);
    push_arg(&mut c.args, "HEAD");
    c
}

/// The commit where the branches diverged: what git printed, stripped, when
/// it succeeded.
pub fn get_diverged_commit(succeeded: bool, stdout: &String) -> (r: Option<String>)
    ensures
        match r {
            Some(s) => succeeded && s@ == stripped(stdout@),
            None => !succeeded,
        },
{
    if succeeded {
        Some(strip_trailing_newline(stdout))
    } else {
        None
    }
}

/// `git rev-parse --short HEAD`, run in `cwd`.
pub fn git_current_sha_command(cwd: &String) -> (c: GitCommand)
    ensures
        c.dir@ == cwd@,
        views(c.args@) == seq!["rev-parse"@, "--short"@, "HEAD"@],
{
    let mut c = command_in(cwd);
    push_arg(&mut c.args, "rev-parse");
    push_arg(&mut c.args, "--short");
    push_arg(&mut c.args, "HEAD");
    c
}

/// The current commit: what git printed, stripped.
pub fn git_current_sha(stdout: &String) -> (r: String)
    ensures
        r@ == stripped(stdout@),
{
    strip_trailing_newline(stdout)
}

/// `git rev-parse --short HEAD~1`, run in `cwd`.
pub fn git_previous_sha_command(cwd: &String) -> (c: GitCommand)
    ensures
        c.dir@ == cwd@,
        views(c.args@) == seq!["rev-parse"@, "--short"@, "HEAD~1"@],
{
    let mut c = command_in(cwd);
    push_arg(&mut c.args, "rev-parse");
    push_arg(&mut c.args, "--short");
    push_arg(&mut c.args, "HEAD~1");
    c
}

/// The previous commit: what git printed, stripped.
pub fn git_previous_sha(stdout: &String) -> (r: String)
    ensures
        r@ == stripped(stdout@),
{
    strip_trailing_newline(stdout)
}

/// The first-commit query for `branch` (`main` when none is given), run in
/// `cwd`: the short hashes of the commits of `branch..HEAD`, oldest first.
pub fn git_first_sha_command(cwd: &String, branch: Option<String>) -> (c: GitCommand)
    ensures
        c.dir@ == cwd@,
        views(c.args@) == seq![
            "log"@,
            (match branch {
                Some(b) => b@,
                None => "main"@,
            }) + "..HEAD"@,
            "--pretty=format:%h"@,
            "--reverse"@,
        ],
{
    let branch = match branch {
        Some(branch) => branch,
        None => String::from_str("main"),
    };
    let range = branch.concat("..HEAD");
    let mut c = command_in(cwd);
    push_arg(&mut c.args, "log");
    push_string(&mut c.args, &range);
    push_arg(&mut c.args, "--pretty=format:%h");
    push_arg(&mut c.args, "--reverse");
    c
}

/// The first line of `s`.
pub open spec fn first_line(s: Seq<char>) -> Seq<char> {
    s.take(crate::packages::line_end(s, 0))
}

/// The first commit of the branch: the first line of what the query of
/// `git_first_sha_command` printed (the oldest commit), stripped; empty when
/// git printed nothing.
pub fn git_first_sha(stdout: &String) -> (r: String)
    ensures
        r@ == stripped(first_line(stdout@)),
{
    let chars = crate::text::to_chars(stdout.as_str());
    let e = crate::packages::line_run(&chars, 0);
    proof {
        crate::packages::lemma_line_end(chars@, 0);
    }
    let line = crate::text::substring(&chars, 0, e);
    assert(chars@.subrange(0, e as int) =~= first_line(stdout@));
    strip_trailing_newline(&line)
}

/// `git status --porcelain`, run in `cwd`.
pub fn git_workdir_unclean_command(cwd: &String) -> (c: GitCommand)
    ensures
        c.dir@ == cwd@,
        views(c.args@) == seq!["status"@, "--porcelain"@],
{
    let mut c = command_in(cwd);
    push_arg(&mut c.args, "status");
    push_arg(&mut c.args, "--porcelain");
    c
}

/// Whether the work tree has uncommitted changes: git printed something.
pub fn git_workdir_unclean(stdout: &String) -> (r: bool)
    ensures
        r == (stripped(stdout@).len() > 0),
{
    let s = strip_trailing_newline(stdout);
    !s.as_str().is_empty()
}

fn optional_text(stdout: &String) -> (r: Option<String>)
    ensures
        match r {
            Some(s) => s@ == stripped(stdout@) && s@.len() > 0,
            None => stripped(stdout@).len() == 0,
        },
{
    let s = strip_trailing_newline(stdout);
    if s.as_str().is_empty() {
        None
    } else {
        Some(s)
    }
}

/// `git rev-parse --abbrev-ref HEAD`, run in `cwd`.
pub fn git_current_branch_command(cwd: &String) -> (c: GitCommand)
    ensures
        c.dir@ == cwd@,
        views(c.args@) == seq!["rev-parse"@, "--abbrev-ref"@, "HEAD"@],
{
    let mut c = command_in(cwd);
    push_arg(&mut c.args, "rev-parse");
    push_arg(&mut c.args, "--abbrev-ref");
    push_arg(&mut c.args, "HEAD");
    c
}

/// The current branch: what git printed, stripped; `None` when that is
/// empty.
pub fn git_current_branch(stdout: &String) -> (r: Option<String>)
    ensures
        match r {
            Some(s) => s@ == stripped(stdout@) && s@.len() > 0,
            None => stripped(stdout@).len() == 0,
        },
{
    optional_text(stdout)
}

/// `git --no-pager branch --no-color --no-column --format
/// "%(refname:lstrip=2)" --contains <commit>`, run in `cwd`.
pub fn git_branch_from_commit_command(commit: &String, cwd: &String) -> (c: GitCommand)
    ensures
        c.dir@ == cwd@,
        views(c.args@) == seq![
            "--no-pager"@,
            "branch"@,
            "--no-color"@,
            "--no-column"@,
            "--format"@,
            "\"%(refname:lstrip=2)\""@,
            "--contains"@,
            commit@,
        ],
{
    let mut c = command_in(cwd);
    push_arg(&mut c.args, "--no-pager");
    push_arg(&mut c.args, "branch");
    push_arg(&mut c.args, "--no-color");
    push_arg(&mut c.args, "--no-column");
    push_arg(&mut c.args, "--format");
    push_arg(&mut c.args, "\"%(refname:lstrip=2)\"");
    push_arg(&mut c.args, "--contains");
    push_string(&mut c.args, commit);
    c
}

/// The branches that hold the commit: what git printed, stripped; `None`
/// when that is empty.
pub fn git_branch_from_commit(stdout: &String) -> (r: Option<String>)
    ensures
        match r {
            Some(s) => s@ == stripped(stdout@) && s@.len() > 0,
            None => stripped(stdout@).len() == 0,
        },
{
    optional_text(stdout)
}

/// `git tag -a <tag> -m <message>`, the message defaulting to the tag, run
/// in `cwd`. Its exit status tells whether it worked.
pub fn git_tag(tag: &String, message: Option<String>, cwd: &String) -> (c: GitCommand)
    ensures
        c.dir@ == cwd@,
        views(c.args@) == seq![
            "tag"@,
            "-a"@,
            tag@,
            "-m"@,
            match message {
                Some(m) => m@,
                None => tag@,
            },
        ],
{
    let msg = match message {
        Some(m) => m,
        None => tag.clone(),
    };
    let mut c = command_in(cwd);
    push_arg(&mut c.args, "tag");
    push_arg(&mut c.args, "-a");
    push_string(&mut c.args, tag);
    push_arg(&mut c.args, "-m");
    push_string(&mut c.args, &msg);
    c
}

/// `git push [--follow-tags] --no-verify`, run in `cwd`. Its exit status
/// tells whether it worked.
pub fn git_push(cwd: &String, follow_tags: Option<bool>) -> (c: GitCommand)
    ensures
        c.dir@ == cwd@,
        views(c.args@) == seq!["push"@] + (if follow_tags == Some(true) {
            seq!["--follow-tags"@]
        } else {
            seq![]
        }) + seq!["--no-verify"@],
{
    let mut c = command_in(cwd);
    push_arg(&mut c.args, "push");
    if follow_tags == Some(true) {
        push_arg(&mut c.args, "--follow-tags");
    }
    push_arg(&mut c.args, "--no-verify");
    assert(views(c.args@) =~= seq!["push"@] + (if follow_tags == Some(true) {
        seq!["--follow-tags"@]
    } else {
        seq![]
    }) + seq!["--no-verify"@]);
    c
}

/// A commit message: the message, then the body and the footer when given,
/// each after a blank line.
pub open spec fn commit_message_of(message: Seq<char>, body: Option<Seq<char>>, footer: Option<Seq<char>>) -> Seq<char> {
    let with_body = match body {
        Some(b) => message + "\n\n"@ + b,
        None => message,
    };
    match footer {
        Some(f) => with_body + "\n\n"@ + f,
        None => with_body,
    }
}

/// The message of a commit (see `commit_message_of`).
pub fn git_commit_message(message: String, body: Option<String>, footer: Option<String>) -> (r: String)
    ensures
        r@ == commit_message_of(
            message@,
            match body {
                Some(b) => Some(b@),
                None => None,
            },
            match footer {
                Some(f) => Some(f@),
                None => None,
            },
        ),
{
    let mut m = message;
    match body {
        Some(b) => {
            m.append("\n\n");
            m.append(b.as_str());
        },
        None => {},
    }
    match footer {
        Some(f) => {
            m.append("\n\n");
            m.append(f.as_str());
        },
        None => {},
    }
    m
}

/// `git commit -F <message_file> --no-verify`, run in `cwd`. Its exit
/// status tells whether it worked.
pub fn git_commit(message_file: &String, cwd: &String) -> (c: GitCommand)
    ensures
        c.dir@ == cwd@,
        views(c.args@) == seq!["commit"@, "-F"@, message_file@, "--no-verify"@],
{
    let mut c = command_in(cwd);
    push_arg(&mut c.args, "commit");
    push_arg(&mut c.args, "-F");
    push_string(&mut c.args, message_file);
    push_arg(&mut c.args, "--no-verify");
    c
}

/// `git --no-pager diff --name-only <sha>`, run in `cwd`.
pub fn git_all_files_changed_since_sha_command(sha: &String, cwd: &String) -> (c: GitCommand)
    ensures
        c.dir@ == cwd@,
        views(c.args@) == seq!["--no-pager"@, "diff"@, "--name-only"@, sha@],
{
    let mut c = command_in(cwd);
    push_arg(&mut c.args, "--no-pager");
    push_arg(&mut c.args, "diff");
    push_arg(&mut c.args, "--name-only");
    push_string(&mut c.args, sha);
    c
}

/// The paths under `root` of the files that the diff names, when git
/// succeeded; of these the caller keeps those that exist.
pub fn git_all_files_changed_since_sha(root: &String, succeeded: bool, stdout: &String) -> (r: Vec<
    String,
>)
    ensures
        views(r@) == if succeeded {
            changed_paths(root@, stdout@)
        } else {
            Seq::empty()
        },
{
    if succeeded {
        parse_changed_paths(root, stdout)
    } else {
        let r: Vec<String> = Vec::new();
        assert(views(r@) =~= Seq::<Seq<char>>::empty());
        r
    }
}

/// `git --no-pager log --format=<commit format> --date=rfc2822`, limited to
/// the commits after `since` and to the path `relative` when given, run in
/// `cwd`.
pub fn get_commits_since_command(cwd: &String, since: Option<String>, relative: Option<String>) -> (c:
    GitCommand)
    ensures
        c.dir@ == cwd@,
        views(c.args@) == seq![
            "--no-pager"@,
            "log"@,
            "--format=#=#%H#=#%an#=#%ae#=#%ad#=#%B#+#"@,
            "--date=rfc2822"@,
        ] + (match since {
            Some(s) => seq![s@ + ".."@],
            None => seq![],
        }) + (match relative {
            Some(p) => seq!["--"@, p@],
            None => seq![],
        }),
{
    let repo = crate::workspace_std::git::Repository::new(cwd);
    repo.get_commits_since_command(since, relative)
}

/// The fields of a commit.
pub open spec fn commit_view(c: Commit) -> CommitFields {
    CommitFields {
        hash: c.hash@,
        author_name: c.author_name@,
        author_email: c.author_email@,
        author_date: c.author_date@,
        message: c.message@,
    }
}

/// The commits of the log, newest first as git prints them; none when git
/// failed.
pub fn get_commits_since(succeeded: bool, stdout: &String) -> (r: Vec<Commit>)
    requires
        succeeded ==> commit_log_well_formed(stdout@),
    ensures
        r@.map_values(|c: Commit| commit_view(c)) == if succeeded {
            commits_of(stdout@)
        } else {
            Seq::empty()
        },
{
    let mut out: Vec<Commit> = Vec::new();
    if !succeeded {
        assert(out@.map_values(|c: Commit| commit_view(c)) =~= Seq::<CommitFields>::empty());
        return out;
    }
    let commits = parse_commits(stdout);
    let ghost cs = commits@.map_values(|c: RepositoryCommit| c@);
    let mut i: usize = 0;
    while i < commits.len()
        invariant
            i <= commits@.len(),
            cs == commits@.map_values(|c: RepositoryCommit| c@),
            out@.map_values(|c: Commit| commit_view(c)) == cs.take(i as int),
        decreases commits.len() - i,
    {
        let rc = &commits[i];
        let c = Commit {
            hash: rc.get_hash().clone(),
            author_name: rc.get_author_name().clone(),
            author_email: rc.get_author_email().clone(),
            author_date: rc.get_author_date().clone(),
            message: rc.get_message().clone(),
        };
        assert(commit_view(c) == cs[i as int]);
        let ghost before = out@;
        out.push(c);
        assert(out@.map_values(|c: Commit| commit_view(c)) =~= before.map_values(
            |c: Commit| commit_view(c),
        ).push(commit_view(c)));
        assert(cs.take(i + 1) =~= cs.take(i as int).push(cs[i as int]));
        i = i + 1;
    }
    assert(cs.take(i as int) =~= cs);
    out
}

/// `git show-ref --tags` for local tags, else `git ls-remote --tags origin`,
/// run in `cwd`.
pub fn get_remote_or_local_tags_command(cwd: &String, local: Option<bool>) -> (c: GitCommand)
    ensures
        c.dir@ == cwd@,
        views(c.args@) == if local == Some(true) {
            seq!["show-ref"@, "--tags"@]
        } else {
            seq!["ls-remote"@, "--tags"@, "origin"@]
        },
{
    let repo = crate::workspace_std::git::Repository::new(cwd);
    repo.get_remote_or_local_tags_command(local)
}

/// The (hash, tag) pairs of tags.
pub open spec fn tag_pairs(tags: Seq<RemoteTags>) -> Seq<(Seq<char>, Seq<char>)> {
    tags.map_values(|t: RemoteTags| (t.hash@, t.tag@))
}

/// The tags of the listing, in the order git printed them; none when git
/// failed.
pub fn get_remote_or_local_tags(succeeded: bool, stdout: &String) -> (r: Vec<RemoteTags>)
    requires
        succeeded ==> tag_listing_well_formed(stdout@),
    ensures
        tag_pairs(r@) == if succeeded {
            tags_of(stdout@)
        } else {
            Seq::empty()
        },
{
    let mut out: Vec<RemoteTags> = Vec::new();
    if !succeeded {
        assert(tag_pairs(out@) =~= Seq::<(Seq<char>, Seq<char>)>::empty());
        return out;
    }
    let tags = parse_tags(stdout);
    let ghost ts = tags@.map_values(|t: RepositoryRemoteTags| t@);
    let mut i: usize = 0;
    while i < tags.len()
        invariant
            i <= tags@.len(),
            ts == tags@.map_values(|t: RepositoryRemoteTags| t@),
            tag_pairs(out@) == ts.take(i as int),
        decreases tags.len() - i,
    {
        let t = RemoteTags { hash: tags[i].get_hash().clone(), tag: tags[i].get_tag().clone() };
        assert((t.hash@, t.tag@) == ts[i as int]);
        let ghost before = out@;
        out.push(t);
        assert(tag_pairs(out@) =~= tag_pairs(before).push((t.hash@, t.tag@)));
        assert(ts.take(i + 1) =~= ts.take(i as int).push(ts[i as int]));
        i = i + 1;
    }
    assert(ts.take(i as int) =~= ts);
    out
}

/// The directories of the packages, in order.
pub open spec fn package_paths(pkgs: Seq<PackageInfo>) -> Seq<Seq<char>> {
    pkgs.map_values(|p: PackageInfo| p.package_path@)
}

/// The changed files (`files`, what `git_all_files_changed_since_sha` kept
/// for the branch) that lie under each package's directory, package by
/// package.
pub fn get_all_files_changed_since_branch(package_info: &Vec<PackageInfo>, files: &Vec<String>) -> (r:
    Vec<String>)
    ensures
        views(r@) == files_under_each(views(files@), package_paths(package_info@)),
{
    let ghost dirs = package_paths(package_info@);
    let mut all_files: Vec<String> = Vec::new();
    let mut i: usize = 0;
    while i < package_info.len()
        invariant
            i <= package_info@.len(),
            dirs == package_paths(package_info@),
            views(all_files@) == files_under_each(views(files@), dirs.take(i as int)),
        decreases package_info.len() - i,
    {
        let mut pkg_files = filter_files_under(files, &package_info[i].package_path);
        let ghost before = views(all_files@);
        let ghost added = views(pkg_files@);
        all_files.append(&mut pkg_files);
        proof {
            assert(dirs.take(i + 1).drop_last() =~= dirs.take(i as int));
            assert(dirs.take(i + 1).last() == package_info@[i as int].package_path@);
            assert(views(all_files@) =~= before + added);
        }
        i = i + 1;
    }
    assert(dirs.take(i as int) =~= dirs);
    all_files
}

/// Reporting the publish tags of all packages reports, for every package
/// whose own publish tag is found, that tag (what the one-package query
/// gives), and nothing else: each entry is the publish tag of one of the
/// packages, and there are no more entries than packages.
pub proof fn law_all_packages_report_each_publish_tag(pkgs: Seq<PackageInfo>, tags: Seq<RemoteTags>)
    ensures
        forall|i: int|
            0 <= i < pkgs.len() && (#[trigger] publish_info(pkgs[i].name, pkgs[i].version@, tags)) is Some
                ==> publish_infos(pkgs, tags).contains(publish_info(pkgs[i].name, pkgs[i].version@, tags)),
        forall|k: int|
            0 <= k < publish_infos(pkgs, tags).len() ==> (#[trigger] publish_infos(pkgs, tags)[k]) is Some
                && exists|i: int|
                0 <= i < pkgs.len() && publish_infos(pkgs, tags)[k] == publish_info(
                    pkgs[i].name,
                    pkgs[i].version@,
                    tags,
                ),
        publish_infos(pkgs, tags).len() <= pkgs.len(),
    decreases pkgs.len(),
{
    if pkgs.len() > 0 {
        let prev_pkgs = pkgs.drop_last();
        law_all_packages_report_each_publish_tag(prev_pkgs, tags);
        let prev = publish_infos(prev_pkgs, tags);
        let last = pkgs.last();
        let info = publish_info(last.name, last.version@, tags);
        let res = publish_infos(pkgs, tags);
        assert forall|i: int|
            0 <= i < pkgs.len() && (#[trigger] publish_info(pkgs[i].name, pkgs[i].version@, tags)) is Some
                implies res.contains(publish_info(pkgs[i].name, pkgs[i].version@, tags)) by {
            if i < pkgs.len() - 1 {
                assert(prev_pkgs[i] == pkgs[i]);
                assert(publish_info(prev_pkgs[i].name, prev_pkgs[i].version@, tags) is Some);
                let j = choose|j: int| 0 <= j < prev.len() && prev[j] == publish_info(pkgs[i].name, pkgs[i].version@, tags);
                if info is Some {
                    assert(res[j] == prev[j]);
                } else {
                    assert(res[j] == prev[j]);
                }
            } else {
                assert(res[prev.len() as int] == info);
            }
        }
        assert forall|k: int| 0 <= k < res.len() implies (#[trigger] res[k]) is Some && exists|i: int|
            0 <= i < pkgs.len() && res[k] == publish_info(pkgs[i].name, pkgs[i].version@, tags) by {
            if k < prev.len() {
                assert(res[k] == prev[k]);
                assert(prev[k] is Some);
                let i = choose|i: int| 0 <= i < prev_pkgs.len() && prev[k] == publish_info(prev_pkgs[i].name, prev_pkgs[i].version@, tags);
                assert(prev_pkgs[i] == pkgs[i]);
            } else {
                assert(res[k] == info);
                assert(pkgs[pkgs.len() - 1] == last);
            }
        }
    }
}

/// Whether the entries of `res` are the publish tags of the packages at
/// the increasing positions `idx`, and every package left out has none.
pub open spec fn tags_at_positions(pkgs: Seq<PackageInfo>, tags: Seq<RemoteTags>, res: Seq<Option<PublishTagInfo>>, idx: Seq<int>) -> bool {
    &&& idx.len() == res.len()
    &&& forall|a: int, b: int| 0 <= a < b < idx.len() ==> idx[a] < idx[b]
    &&& forall|k: int|
        0 <= k < idx.len() ==> 0 <= idx[k] < pkgs.len() && #[trigger] res[k] == publish_info(
            pkgs[idx[k]].name,
            pkgs[idx[k]].version@,
            tags,
        )
    &&& forall|i: int|
        0 <= i < pkgs.len() && !idx.contains(i) ==> (#[trigger] publish_info(
            pkgs[i].name,
            pkgs[i].version@,
            tags,
        )) is None
}

/// Reporting the publish tags of all packages lists them in the order of
/// the packages: there are positions `idx` of the packages, increasing, such
/// that the `k`-th entry is the publish tag of package `idx[k]`, and every
/// package left out has no publish tag.
pub proof fn law_publish_tags_in_package_order(pkgs: Seq<PackageInfo>, tags: Seq<RemoteTags>)
    ensures
        exists|idx: Seq<int>| #[trigger] tags_at_positions(pkgs, tags, publish_infos(pkgs, tags), idx),
    decreases pkgs.len(),
{
    if pkgs.len() == 0 {
        let idx = Seq::<int>::empty();
        assert(tags_at_positions(pkgs, tags, publish_infos(pkgs, tags), idx));
    } else {
        let prev_pkgs = pkgs.drop_last();
        law_publish_tags_in_package_order(prev_pkgs, tags);
        let prev = publish_infos(prev_pkgs, tags);
        let idx0 = choose|idx: Seq<int>| #[trigger] tags_at_positions(prev_pkgs, tags, prev, idx);
        let n = pkgs.len() - 1;
        let last = pkgs.last();
        let info = publish_info(last.name, last.version@, tags);
        let res = publish_infos(pkgs, tags);
        let idx = if info is Some {
            idx0.push(n)
        } else {
            idx0
        };
        assert(idx.len() == res.len());
        assert forall|a: int, b: int| 0 <= a < b < idx.len() implies idx[a] < idx[b] by {
            if b == idx0.len() {
                assert(idx[a] == idx0[a]);
                assert(prev[a] == publish_info(prev_pkgs[idx0[a]].name, prev_pkgs[idx0[a]].version@, tags));
                assert(idx0[a] < prev_pkgs.len());
            } else {
                assert(idx[a] == idx0[a] && idx[b] == idx0[b]);
            }
        }
        assert forall|k: int| 0 <= k < idx.len() implies 0 <= idx[k] < pkgs.len() && #[trigger] res[k] == publish_info(
            pkgs[idx[k]].name,
            pkgs[idx[k]].version@,
            tags,
        ) by {
            if k < idx0.len() {
                assert(idx[k] == idx0[k]);
                assert(res[k] == prev[k]);
                assert(prev_pkgs[idx0[k]] == pkgs[idx0[k]]);
            } else {
                assert(idx[k] == n);
                assert(res[k] == info);
            }
        }
        assert forall|i: int| 0 <= i < pkgs.len() && !idx.contains(i) implies (#[trigger] publish_info(
            pkgs[i].name,
            pkgs[i].version@,
            tags,
        )) is None by {
            if i < n {
                assert(prev_pkgs[i] == pkgs[i]);
                if idx0.contains(i) {
                    let k = choose|k: int| 0 <= k < idx0.len() && idx0[k] == i;
                    assert(idx[k] == i);
                }
            } else {
                if info is Some {
                    assert(idx[idx0.len() as int] == n);
                }
            }
        }
        assert(tags_at_positions(pkgs, tags, res, idx));
    }
}

} // verus!
