//! Version bumps of the packages that changed.
use crate::branch_map::BranchMap;
use crate::changes::{change_views, first_change_for, has_package, index_of_package, Change, ChangeView};
use crate::json::{json_get, lemma_lookup_index, member_names, object_members, JsonValue};
use crate::git::{first_index, lemma_first_index};
use crate::packages::{lemma_section_edit, PackageInfo};
use crate::text::{from_chars, split_seq, views};
use vstd::prelude::*;

verus! {

/// The kind of version bump to perform.
#[derive(Debug, Clone, Copy, PartialEq, Eq, Structural)]
pub enum Bump {
    Major,
    Minor,
    Patch,
    Snapshot,
}

/// What `semver::Version::parse` reads in `text`: the major, minor and
/// patch numbers and the texts of the pre-release and build metadata;
/// `None` when `text` is not a semantic version.
pub uninterp spec fn semver_parse(text: Seq<char>) -> Option<(u64, u64, u64, Seq<char>, Seq<char>)>;

/// Parses `text` with `semver::Version::parse` and hands back its numbers,
/// pre-release and build metadata (as their texts). The contract only names
/// the result (`semver_parse`): it depends on the text alone.
#[verifier::external_body]
fn parse_semver(text: &str) -> (r: Option<(u64, u64, u64, String, String)>)
    ensures
        match r {
            Some((a, b, c, p, m)) => semver_parse(text@) == Some((a, b, c, p@, m@)),
            None => semver_parse(text@) is None,
        },
{
    semver::Version::parse(text).ok().map(
        |v| (v.major, v.minor, v.patch, v.pre.as_str().to_string(), v.build.as_str().to_string()),
    )
}

/// Whether `c` may stand in a pre-release identifier: an ASCII letter or
/// digit, or `-`.
pub open spec fn identifier_char(c: char) -> bool {
    ('A' <= c && c <= 'Z') || ('a' <= c && c <= 'z') || ('0' <= c && c <= '9') || c == '-'
}

/// Whether `seg` is a pre-release identifier: not empty, made of identifier
/// characters, and, when it is a number of more than one digit, without a
/// leading zero.
pub open spec fn prerelease_identifier(seg: Seq<char>) -> bool {
    &&& seg.len() > 0
    &&& forall|i: int| 0 <= i < seg.len() ==> identifier_char(#[trigger] seg[i])
    &&& !(seg.len() > 1 && seg[0] == '0' && forall|i: int| 0 <= i < seg.len() ==> '0' <= #[trigger] seg[i] && seg[i] <= '9')
}

/// Whether `semver::Prerelease::new` accepts `text`: it is empty, or its
/// `.`-separated parts are all pre-release identifiers.
pub open spec fn prerelease_valid(text: Seq<char>) -> bool {
    text.len() == 0 || forall|k: int|
        0 <= k < split_seq(text, "."@).len() ==> prerelease_identifier(#[trigger] split_seq(text, "."@)[k])
}

/// Builds a pre-release with `semver::Prerelease::new` and hands back its
/// text. The contract claims that it succeeds exactly on the texts that
/// `prerelease_valid` describes (the crate's `identifier` reads them byte by
/// byte), and that the pre-release then reads as `text` (the crate keeps the
/// text it was given).
#[verifier::external_body]
fn prerelease_text(text: &str) -> (r: Option<String>)
    ensures
        r is Some <==> prerelease_valid(text@),
        r matches Some(p) ==> p@ == text@,
{
    semver::Prerelease::new(text).ok().map(|p| p.as_str().to_string())
}

/// The character of the decimal digit `d`.
pub open spec fn digit_char(d: nat) -> char {
    (48 + d) as char
}

/// The decimal digits of `n`, without leading zeros.
pub open spec fn decimal(n: nat) -> Seq<char>
    decreases n,
{
    if n < 10 {
        seq![digit_char(n)]
    } else {
        decimal(n / 10).push(digit_char(n % 10))
    }
}

fn push_decimal(n: u64, out: &mut Vec<char>)
    ensures
        final(out)@ == old(out)@ + decimal(n as nat),
    decreases n,
{
    if n >= 10 {
        push_decimal(n / 10, out);
    }
    let d: u8 = (n % 10) as u8;
    let c = (48u8 + d) as char;
    assert(c == digit_char((n % 10) as nat));
    out.push(c);
    if n >= 10 {
        assert(out@ =~= old(out)@ + decimal(n as nat));
    } else {
        assert(out@ =~= old(out)@ + decimal(n as nat));
    }
}

/// A version as `semver::Version` prints it, without build metadata:
/// `major.minor.patch`, then `-` and the pre-release when there is one.
pub open spec fn version_text(major: nat, minor: nat, patch: nat, pre: Seq<char>) -> Seq<char> {
    decimal(major) + "."@ + decimal(minor) + "."@ + decimal(patch) + if pre.len() > 0 {
        "-"@ + pre
    } else {
        Seq::empty()
    }
}

fn version_string(major: u64, minor: u64, patch: u64, pre: &Vec<char>) -> (r: String)
    ensures
        r@ == version_text(major as nat, minor as nat, patch as nat, pre@),
{
    proof {
        reveal_strlit(".");
        reveal_strlit("-");
    }
    let mut out: Vec<char> = Vec::new();
    push_decimal(major, &mut out);
    out.push('.');
    push_decimal(minor, &mut out);
    out.push('.');
    push_decimal(patch, &mut out);
    if pre.len() > 0 {
        out.push('-');
        let mut i: usize = 0;
        let ghost base = out@;
        while i < pre.len()
            invariant
                i <= pre@.len(),
                out@ == base + pre@.take(i as int),
            decreases pre.len() - i,
        {
            out.push(pre[i]);
            assert(out@ =~= base + pre@.take(i + 1));
            i = i + 1;
        }
        assert(pre@.take(i as int) =~= pre@);
    }
    assert(out@ =~= version_text(major as nat, minor as nat, patch as nat, pre@));
    from_chars(out.as_slice())
}

/// The pre-release of a snapshot of commit `sha`: `alpha.0.<sha>` when
/// that is a valid pre-release, else none.
pub open spec fn snapshot_pre(sha: Seq<char>) -> Seq<char> {
    if prerelease_valid("alpha.0."@ + sha) {
        "alpha.0."@ + sha
    } else {
        Seq::empty()
    }
}

/// The version after a bump of the version `major.minor.patch`: major,
/// minor and patch bumps reset the lower numbers and drop the pre-release;
/// a snapshot keeps the numbers and takes the pre-release `snapshot`.
/// `None` when the bumped number would not fit.
pub open spec fn bump_version(major: u64, minor: u64, patch: u64, bump: Bump, snapshot: Seq<char>) -> Option<
    Seq<char>,
> {
    match bump {
        Bump::Major => if major < u64::MAX {
            Some(version_text((major + 1) as nat, 0, 0, Seq::empty()))
        } else {
            None
        },
        Bump::Minor => if minor < u64::MAX {
            Some(version_text(major as nat, (minor + 1) as nat, 0, Seq::empty()))
        } else {
            None
        },
        Bump::Patch => if patch < u64::MAX {
            Some(version_text(major as nat, minor as nat, (patch + 1) as nat, Seq::empty()))
        } else {
            None
        },
        Bump::Snapshot => Some(version_text(major as nat, minor as nat, patch as nat, snapshot)),
    }
}

/// The version after a bump of `version`, a snapshot being of commit `sha`
/// (see `bump_version`): the build metadata is dropped. `None` when
/// `version` is not a semantic version or the bumped number would not fit.
pub open spec fn bumped(version: Seq<char>, bump: Bump, sha: Seq<char>) -> Option<Seq<char>> {
    match semver_parse(version) {
        None => None,
        Some((a, b, c, _, _)) => bump_version(a, b, c, bump, snapshot_pre(sha)),
    }
}

/// The version after a bump of the parsed version `major.minor.patch`, a
/// snapshot taking the pre-release `snapshot` (see `bump_version`).
pub fn bump_parsed(major: u64, minor: u64, patch: u64, bump: Bump, snapshot: &String) -> (r: Option<
    String,
>)
    ensures
        match r {
            Some(v) => bump_version(major, minor, patch, bump, snapshot@) == Some(v@),
            None => bump_version(major, minor, patch, bump, snapshot@) is None,
        },
{
    let nothing: Vec<char> = Vec::new();
    match bump {
        Bump::Major => {
            if major < u64::MAX {
                Some(version_string(major + 1, 0, 0, &nothing))
            } else {
                None
            }
        },
        Bump::Minor => {
            if minor < u64::MAX {
                Some(version_string(major, minor + 1, 0, &nothing))
            } else {
                None
            }
        },
        Bump::Patch => {
            if patch < u64::MAX {
                Some(version_string(major, minor, patch + 1, &nothing))
            } else {
                None
            }
        },
        Bump::Snapshot => Some(version_string(major, minor, patch, &crate::text::to_chars(snapshot.as_str()))),
    }
}

/// The pre-release of a snapshot of commit `sha` (see `snapshot_pre`).
pub fn snapshot_prerelease(sha: &String) -> (r: String)
    ensures
        r@ == snapshot_pre(sha@),
{
    let alpha = String::from_str("alpha.0.").concat(sha.as_str());
    match prerelease_text(alpha.as_str()) {
        Some(p) => p,
        None => String::new(),
    }
}

/// The version after a bump (see `bumped`); `None` when there is none.
pub fn next_version(version: &String, bump: Bump, sha: &String) -> (r: Option<String>)
    ensures
        match r {
            Some(v) => bumped(version@, bump, sha@) == Some(v@),
            None => bumped(version@, bump, sha@) is None,
        },
{
    match parse_semver(version.as_str()) {
        None => None,
        Some((a, b, c, _, _)) => {
            let snapshot = snapshot_prerelease(sha);
            bump_parsed(a, b, c, bump, &snapshot)
        },
    }
}

impl Bump {
    /// The next major version of `version` (a semantic version whose major
    /// number can grow).
    pub fn bump_major(version: &String) -> (r: String)
        requires
            bumped(version@, Bump::Major, Seq::empty()) is Some,
        ensures
            bumped(version@, Bump::Major, Seq::empty()) == Some(r@),
    {
        match next_version(version, Bump::Major, &String::new()) {
            Some(v) => v,
            None => String::new(),
        }
    }

    /// The next minor version of `version` (a semantic version whose minor
    /// number can grow).
    pub fn bump_minor(version: &String) -> (r: String)
        requires
            bumped(version@, Bump::Minor, Seq::empty()) is Some,
        ensures
            bumped(version@, Bump::Minor, Seq::empty()) == Some(r@),
    {
        match next_version(version, Bump::Minor, &String::new()) {
            Some(v) => v,
            None => String::new(),
        }
    }

    /// The next patch version of `version` (a semantic version whose patch
    /// number can grow).
    pub fn bump_patch(version: &String) -> (r: String)
        requires
            bumped(version@, Bump::Patch, Seq::empty()) is Some,
        ensures
            bumped(version@, Bump::Patch, Seq::empty()) == Some(r@),
    {
        match next_version(version, Bump::Patch, &String::new()) {
            Some(v) => v,
            None => String::new(),
        }
    }

    /// The snapshot of `version` for commit `sha` (a semantic version).
    pub fn bump_snapshot(version: &String, sha: &String) -> (r: String)
        requires
            bumped(version@, Bump::Snapshot, sha@) is Some,
        ensures
            bumped(version@, Bump::Snapshot, sha@) == Some(r@),
    {
        match next_version(version, Bump::Snapshot, sha) {
            Some(v) => v,
            None => String::new(),
        }
    }
}

/// The object member `section` of a manifest, `null` when it has none.
pub open spec fn section_of(pkg_json: JsonValue, section: Seq<char>) -> JsonValue {
    match json_get(pkg_json, section) {
        Some(v) => v,
        None => JsonValue::Null,
    }
}

/// The names a manifest depends on: those of its `dependencies`, then those
/// of its `devDependencies`.
pub open spec fn dependency_names(pkg_json: JsonValue) -> Seq<Seq<char>> {
    member_names(section_of(pkg_json, "dependencies"@)) + member_names(
        section_of(pkg_json, "devDependencies"@),
    )
}

/// The packages of `pkgs` that one of `changes` is for, in order.
pub open spec fn changed_packages(changes: Seq<ChangeView>, pkgs: Seq<PackageInfo>) -> Seq<PackageInfo>
    decreases pkgs.len(),
{
    if pkgs.len() == 0 {
        Seq::empty()
    } else if has_package(changes, pkgs.last().name@) {
        changed_packages(changes, pkgs.drop_last()).push(pkgs.last())
    } else {
        changed_packages(changes, pkgs.drop_last())
    }
}

/// `plan` after giving each package of `pkgs` that depends on `name`, and
/// has no bump yet, a patch bump deployed to `deploy`.
pub open spec fn sync_dependents(
    plan: Map<Seq<char>, ChangeView>,
    pkgs: Seq<PackageInfo>,
    name: Seq<char>,
    deploy: Seq<Seq<char>>,
) -> Map<Seq<char>, ChangeView>
    decreases pkgs.len(),
{
    if pkgs.len() == 0 {
        plan
    } else {
        let before = sync_dependents(plan, pkgs.drop_last(), name, deploy);
        let p = pkgs.last();
        if dependency_names(p.pkg_json).contains(name) && !before.contains_key(p.name@) {
            before.insert(
                p.name@,
                ChangeView { package: p.name@, release_as: Bump::Patch, deploy: deploy },
            )
        } else {
            before
        }
    }
}

/// The bumps planned for the changed packages `changed`, one after the
/// other: each gets the first of `changes` for it, and, when dependencies
/// are kept in sync, its dependents among `pkgs` get a patch bump.
pub open spec fn plan_for(
    changes: Seq<ChangeView>,
    pkgs: Seq<PackageInfo>,
    changed: Seq<PackageInfo>,
    sync: bool,
) -> Map<Seq<char>, ChangeView>
    decreases changed.len(),
{
    if changed.len() == 0 {
        Map::empty()
    } else {
        let before = plan_for(changes, pkgs, changed.drop_last(), sync);
        let c = changed.last();
        let change = first_change_for(changes, c.name@)->0;
        let with_change = before.insert(c.name@, change);
        if sync {
            sync_dependents(with_change, pkgs, c.name@, change.deploy)
        } else {
            with_change
        }
    }
}

/// The bump of each package to release, by package name.
pub open spec fn bump_plan(changes: Seq<ChangeView>, pkgs: Seq<PackageInfo>, sync: bool) -> Map<
    Seq<char>,
    ChangeView,
> {
    plan_for(changes, pkgs, changed_packages(changes, pkgs), sync)
}

/// The views of the planned bumps.
pub open spec fn plan_view(m: Map<Seq<char>, Change>) -> Map<Seq<char>, ChangeView> {
    m.map_values(|c: Change| c@)
}

/// The names a manifest depends on (see `dependency_names`).
pub fn read_dependency_names(pkg_json: &JsonValue) -> (r: Vec<String>)
    ensures
        views(r@) == dependency_names(*pkg_json),
{
    let mut deps = match crate::json::get(pkg_json, "dependencies") {
        Some(v) => crate::json::object_keys(v),
        None => Vec::new(),
    };
    let mut dev = match crate::json::get(pkg_json, "devDependencies") {
        Some(v) => crate::json::object_keys(v),
        None => Vec::new(),
    };
    assert(member_names(JsonValue::Null) =~= Seq::<Seq<char>>::empty());
    let ghost a = views(deps@);
    let ghost b = views(dev@);
    deps.append(&mut dev);
    assert(views(deps@) =~= a + b);
    deps
}

fn contains_name(names: &Vec<String>, name: &String) -> (b: bool)
    ensures
        b == views(names@).contains(name@),
{
    let mut i: usize = 0;
    while i < names.len()
        invariant
            i <= names@.len(),
            forall|k: int| 0 <= k < i ==> names@[k]@ != name@,
        decreases names.len() - i,
    {
        if names[i] == *name {
            assert(views(names@)[i as int] == name@);
            return true;
        }
        i = i + 1;
    }
    assert forall|k: int| 0 <= k < views(names@).len() implies views(names@)[k] != name@ by {
        assert(views(names@)[k] == names@[k]@);
    }
    false
}

proof fn lemma_plan_view_insert(m: Map<Seq<char>, Change>, k: Seq<char>, c: Change)
    ensures
        plan_view(m.insert(k, c)) == plan_view(m).insert(k, c@),
        plan_view(m).dom() == m.dom(),
{
    assert(plan_view(m.insert(k, c)) =~= plan_view(m).insert(k, c@));
    assert(plan_view(m).dom() =~= m.dom());
}

/// The planned bumps (see `bump_plan`): the changed packages with their
/// change, and, with `sync_deps`, their dependents with a patch bump.
pub fn bump_changes(changes: &Vec<Change>, packages: &Vec<PackageInfo>, sync_deps: bool) -> (r:
    BranchMap<Change>)
    ensures
        r.wf(),
        plan_view(r@) == bump_plan(change_views(changes@), packages@, sync_deps),
{
    let ghost cv = change_views(changes@);
    let mut plan: BranchMap<Change> = BranchMap::new();
    assert(plan_view(plan@) =~= Map::<Seq<char>, ChangeView>::empty());
    let mut i: usize = 0;
    while i < packages.len()
        invariant
            i <= packages@.len(),
            cv == change_views(changes@),
            plan.wf(),
            plan_view(plan@) == plan_for(
                cv,
                packages@,
                changed_packages(cv, packages@.take(i as int)),
                sync_deps,
            ),
        decreases packages.len() - i,
    {
        let ghost before_changed = changed_packages(cv, packages@.take(i as int));
        assert(packages@.take(i + 1).drop_last() =~= packages@.take(i as int));
        assert(packages@.take(i + 1).last() == packages@[i as int]);
        let name = &packages[i].name;
        match index_of_package(changes, name) {
            None => {},
            Some(ci) => {
                assert(has_package(cv, name@)) by {
                    assert(cv[ci as int] == changes@[ci as int]@);
                }
                let ghost changed = changed_packages(cv, packages@.take(i + 1));
                assert(changed == before_changed.push(packages@[i as int]));
                assert(changed.drop_last() =~= before_changed);
                let change = changes[ci].duplicate();
                let deploy = crate::changes::clone_strings(&change.deploy);
                let ghost ch = change@;
                proof {
                    lemma_plan_view_insert(plan@, name@, change);
                }
                plan.insert(name.clone(), change);
                if sync_deps {
                    let ghost start = plan_view(plan@);
                    let mut j: usize = 0;
                    while j < packages.len()
                        invariant
                            j <= packages@.len(),
                            plan.wf(),
                            views(deploy@) == ch.deploy,
                            plan_view(plan@) == sync_dependents(
                                start,
                                packages@.take(j as int),
                                name@,
                                ch.deploy,
                            ),
                        decreases packages.len() - j,
                    {
                        assert(packages@.take(j + 1).drop_last() =~= packages@.take(j as int));
                        assert(packages@.take(j + 1).last() == packages@[j as int]);
                        let p = &packages[j];
                        let deps = read_dependency_names(&p.pkg_json);
                        if contains_name(&deps, name) && !plan.contains_key(&p.name) {
                            proof {
                                lemma_plan_view_insert(plan@, p.name@, plan@[p.name@]);
                            }
                            let c = Change {
                                package: p.name.clone(),
                                release_as: Bump::Patch,
                                deploy: crate::changes::clone_strings(&deploy),
                            };
                            proof {
                                lemma_plan_view_insert(plan@, p.name@, c);
                            }
                            plan.insert(p.name.clone(), c);
                        } else {
                            proof {
                                lemma_plan_view_insert(plan@, p.name@, plan@[p.name@]);
                            }
                        }
                        j = j + 1;
                    }
                    assert(packages@.take(j as int) =~= packages@);
                }
            },
        }
        i = i + 1;
    }
    assert(packages@.take(i as int) =~= packages@);
    plan
}

/// The version of the package named `d` among `versions`, if there.
pub open spec fn version_for(versions: Seq<(Seq<char>, Seq<char>)>, d: Seq<char>) -> Option<Seq<char>> {
    let i = first_index(versions, |e: (Seq<char>, Seq<char>)| e.0 == d);
    if i < 0 {
        None
    } else {
        Some(versions[i].1)
    }
}

/// The version the dependency `d` is to be set to: when `d` is among
/// `deps`, that of `versions`.
pub open spec fn expected_dependency(
    deps: Seq<Seq<char>>,
    versions: Seq<(Seq<char>, Seq<char>)>,
    d: Seq<char>,
) -> Option<Seq<char>> {
    if deps.contains(d) {
        version_for(versions, d)
    } else {
        None
    }
}

/// Whether the section `sec2` reads `d` as `sec` does, but set to
/// `expected` when `sec` lists `d` and there is a version to set.
pub open spec fn dependency_set(sec: JsonValue, sec2: JsonValue, d: Seq<char>, expected: Option<Seq<char>>) -> bool {
    if expected is Some && json_get(sec, d) is Some {
        json_get(sec2, d) matches Some(JsonValue::Str(w)) && w@ == expected->0
    } else {
        json_get(sec2, d) == json_get(sec, d)
    }
}

/// Whether the section `section` of `new_json` is that of `old_json` with
/// the listed dependencies set to their versions.
pub open spec fn section_bumped(
    old_json: JsonValue,
    new_json: JsonValue,
    section: Seq<char>,
    deps: Seq<Seq<char>>,
    versions: Seq<(Seq<char>, Seq<char>)>,
) -> bool {
    match json_get(old_json, section) {
        None => json_get(new_json, section) is None,
        Some(sec) => json_get(new_json, section) matches Some(sec2) && forall|d: Seq<char>|
            #[trigger] dependency_set(sec, sec2, d, expected_dependency(deps, versions, d)),
    }
}

/// Whether `new_json` is the manifest `old_json` after a bump to `to`: an
/// object whose version is `to`, whose dependencies among `deps` that have
/// a version in `versions` are set to it in `dependencies` and
/// `devDependencies`, and whose other members are unchanged.
pub open spec fn manifest_bumped(
    old_json: JsonValue,
    new_json: JsonValue,
    to: Seq<char>,
    deps: Seq<Seq<char>>,
    versions: Seq<(Seq<char>, Seq<char>)>,
) -> bool {
    &&& new_json is Object
    &&& json_get(new_json, "version"@) matches Some(JsonValue::Str(v)) && v@ == to
    &&& forall|k: Seq<char>|
        k != "version"@ && k != "dependencies"@ && k != "devDependencies"@ ==> #[trigger] json_get(
            new_json,
            k,
        ) == json_get(old_json, k)
    &&& section_bumped(old_json, new_json, "dependencies"@, deps, versions)
    &&& section_bumped(old_json, new_json, "devDependencies"@, deps, versions)
}

/// Whether the sections that a dependency update touches are objects where
/// present.
pub open spec fn sections_editable(pkg_json: JsonValue) -> bool {
    &&& (json_get(pkg_json, "dependencies"@) matches Some(v) ==> v is Object)
    &&& (json_get(pkg_json, "devDependencies"@) matches Some(v) ==> v is Object)
}

/// Whether a manifest can be bumped with these dependencies: it is an
/// object or `null`, and if one of `deps` has a version to set, its sections
/// are objects.
pub open spec fn manifest_editable(
    pkg_json: JsonValue,
    deps: Seq<Seq<char>>,
    versions: Seq<(Seq<char>, Seq<char>)>,
) -> bool {
    &&& (pkg_json is Object || pkg_json is Null)
    &&& (exists|t: int| 0 <= t < deps.len() && version_for(versions, deps[t]) is Some)
        ==> sections_editable(pkg_json)
}

/// The (name, version) pairs as character sequences.
pub open spec fn version_pairs(versions: Seq<(String, String)>) -> Seq<(Seq<char>, Seq<char>)> {
    versions.map_values(|e: (String, String)| (e.0@, e.1@))
}

fn find_version(versions: &Vec<(String, String)>, d: &String) -> (r: Option<usize>)
    ensures
        match r {
            Some(i) => i < versions@.len() && version_for(version_pairs(versions@), d@) == Some(
                versions@[i as int].1@,
            ),
            None => version_for(version_pairs(versions@), d@) is None,
        },
{
    let ghost vs = version_pairs(versions@);
    let ghost f = |e: (Seq<char>, Seq<char>)| e.0 == d@;
    let mut i: usize = 0;
    while i < versions.len()
        invariant
            i <= versions@.len(),
            vs == version_pairs(versions@),
            f == (|e: (Seq<char>, Seq<char>)| e.0 == d@),
            forall|k: int| 0 <= k < i ==> !f(#[trigger] vs[k]),
        decreases versions.len() - i,
    {
        assert(vs[i as int] == (versions@[i as int].0@, versions@[i as int].1@));
        if versions[i].0 == *d {
            proof {
                lemma_first_index(vs, f, i as int);
            }
            return Some(i);
        }
        i = i + 1;
    }
    proof {
        lemma_first_index(vs, f, i as int);
    }
    None
}

proof fn lemma_section_step(
    j0: JsonValue,
    before: JsonValue,
    after: JsonValue,
    section: Seq<char>,
    d: Seq<char>,
    v: String,
    cur: Seq<Seq<char>>,
    next: Seq<Seq<char>>,
    vs: Seq<(Seq<char>, Seq<char>)>,
)
    requires
        before is Object,
        crate::packages::dependency_updated(before, after, section, d, v),
        section_bumped(j0, before, section, cur, vs),
        forall|x: Seq<char>| #[trigger] next.contains(x) == (cur.contains(x) || x == d),
        version_for(vs, d) == Some(v@),
    ensures
        section_bumped(j0, after, section, next, vs),
{
    lemma_section_edit(before, after, section, d, v);
    match json_get(j0, section) {
        None => {},
        Some(sec0) => {
            let sec = json_get(before, section)->0;
            let sec2 = json_get(after, section)->0;
            assert forall|x: Seq<char>| #[trigger] dependency_set(
                sec0,
                sec2,
                x,
                expected_dependency(next, vs, x),
            ) by {
                assert(dependency_set(sec0, sec, x, expected_dependency(cur, vs, x)));
                assert(next.contains(x) == (cur.contains(x) || x == d));
                assert(json_get(sec2, x) == if x == d && json_get(sec, d) is Some {
                    Some(JsonValue::Str(v))
                } else {
                    json_get(sec, x)
                });
                if x == d {
                    assert(dependency_set(sec0, sec, d, expected_dependency(cur, vs, d)));
                }
            }
        },
    }
}

proof fn lemma_section_untouched(
    j0: JsonValue,
    before: JsonValue,
    after: JsonValue,
    section: Seq<char>,
    other: Seq<char>,
    d: Seq<char>,
    v: String,
    deps: Seq<Seq<char>>,
    vs: Seq<(Seq<char>, Seq<char>)>,
)
    requires
        before is Object,
        crate::packages::dependency_updated(before, after, other, d, v),
        section != other,
        section_bumped(j0, before, section, deps, vs),
    ensures
        section_bumped(j0, after, section, deps, vs),
{
    lemma_section_edit(before, after, other, d, v);
    assert(json_get(after, section) == json_get(before, section));
}

proof fn lemma_section_no_version(
    j0: JsonValue,
    j: JsonValue,
    section: Seq<char>,
    d: Seq<char>,
    cur: Seq<Seq<char>>,
    next: Seq<Seq<char>>,
    vs: Seq<(Seq<char>, Seq<char>)>,
)
    requires
        section_bumped(j0, j, section, cur, vs),
        forall|x: Seq<char>| #[trigger] next.contains(x) == (cur.contains(x) || x == d),
        version_for(vs, d) is None,
    ensures
        section_bumped(j0, j, section, next, vs),
{
    assert forall|x: Seq<char>| expected_dependency(next, vs, x) == #[trigger] expected_dependency(
        cur,
        vs,
        x,
    ) by {
        assert(next.contains(x) == (cur.contains(x) || x == d));
    }
    match json_get(j0, section) {
        None => {},
        Some(sec0) => {
            let sec = json_get(j, section)->0;
            assert forall|x: Seq<char>| #[trigger] dependency_set(
                sec0,
                sec,
                x,
                expected_dependency(next, vs, x),
            ) by {
                assert(dependency_set(sec0, sec, x, expected_dependency(cur, vs, x)));
                assert(expected_dependency(next, vs, x) == expected_dependency(cur, vs, x));
            }
        },
    }
}

/// Bumps the manifest of `pkg` to `to` and sets its dependencies among
/// `deps` to their versions in `versions`.
fn bump_manifest(pkg: &mut PackageInfo, to: &String, deps: &Vec<String>, versions: &Vec<(String, String)>)
    requires
        manifest_editable(old(pkg).pkg_json, views(deps@), version_pairs(versions@)),
    ensures
        manifest_bumped(
            old(pkg).pkg_json,
            final(pkg).pkg_json,
            to@,
            views(deps@),
            version_pairs(versions@),
        ),
        final(pkg).version == *to,
        final(pkg).name == old(pkg).name,
        final(pkg).private == old(pkg).private,
        final(pkg).package_json_path == old(pkg).package_json_path,
        final(pkg).package_path == old(pkg).package_path,
        final(pkg).package_relative_path == old(pkg).package_relative_path,
        final(pkg).root == old(pkg).root,
        final(pkg).url == old(pkg).url,
        final(pkg).repository_info == old(pkg).repository_info,
        final(pkg).changed_files == old(pkg).changed_files,
{
    let ghost j0 = pkg.pkg_json;
    let ghost vs = version_pairs(versions@);
    let ghost ds = views(deps@);
    pkg.update_version(to.clone());
    let ghost j1 = pkg.pkg_json;
    proof {
        assert forall|k: Seq<char>| k != "version"@ implies #[trigger] json_get(j1, k) == json_get(
            j0,
            k,
        ) by {
            crate::json::lemma_lookup_with_member(
                crate::json::object_members(j0),
                "version"@,
                JsonValue::Str(*to),
                k,
            );
        }
        crate::json::lemma_lookup_with_member(
            crate::json::object_members(j0),
            "version"@,
            JsonValue::Str(*to),
            "version"@,
        );
        assert("version"@ != "dependencies"@) by {
            reveal_strlit("version");
            reveal_strlit("dependencies");
            assert("version"@.len() != "dependencies"@.len());
        }
        assert("version"@ != "devDependencies"@) by {
            reveal_strlit("version");
            reveal_strlit("devDependencies");
            assert("version"@.len() != "devDependencies"@.len());
        }
        assert("dependencies"@ != "devDependencies"@) by {
            reveal_strlit("dependencies");
            reveal_strlit("devDependencies");
            assert("dependencies"@.len() != "devDependencies"@.len());
        }
        assert(ds.take(0) =~= Seq::<Seq<char>>::empty());
    }
    let mut t: usize = 0;
    while t < deps.len()
        invariant
            t <= deps@.len(),
            ds == views(deps@),
            vs == version_pairs(versions@),
            j0 is Object || j0 is Null,
            (exists|u: int| 0 <= u < ds.len() && version_for(vs, ds[u]) is Some) ==> sections_editable(j0),
            pkg.pkg_json is Object,
            pkg.version == *to,
            "version"@ != "dependencies"@,
            "version"@ != "devDependencies"@,
            "dependencies"@ != "devDependencies"@,
            pkg.name == old(pkg).name,
            pkg.private == old(pkg).private,
            pkg.package_json_path == old(pkg).package_json_path,
            pkg.package_path == old(pkg).package_path,
            pkg.package_relative_path == old(pkg).package_relative_path,
            pkg.root == old(pkg).root,
            pkg.url == old(pkg).url,
            pkg.repository_info == old(pkg).repository_info,
            pkg.changed_files == old(pkg).changed_files,
            j0 == old(pkg).pkg_json,
            json_get(pkg.pkg_json, "version"@) matches Some(JsonValue::Str(v)) && v@ == to@,
            forall|k: Seq<char>|
                k != "version"@ && k != "dependencies"@ && k != "devDependencies"@ ==> #[trigger] json_get(
                    pkg.pkg_json,
                    k,
                ) == json_get(j0, k),
            section_bumped(j0, pkg.pkg_json, "dependencies"@, ds.take(t as int), vs),
            section_bumped(j0, pkg.pkg_json, "devDependencies"@, ds.take(t as int), vs),
            sections_editable(j0) ==> sections_editable(pkg.pkg_json),
        decreases deps.len() - t,
    {
        assert(ds[t as int] == deps@[t as int]@);
        let ghost cur = ds.take(t as int);
        let ghost next = ds.take(t + 1);
        assert forall|d: Seq<char>| #[trigger] next.contains(d) == (cur.contains(d) || d == ds[t as int]) by {
            if next.contains(d) {
                let w = choose|w: int| 0 <= w < next.len() && #[trigger] next[w] == d;
                if w < t {
                    assert(cur[w] == d);
                }
            }
            if cur.contains(d) {
                let w = choose|w: int| 0 <= w < cur.len() && #[trigger] cur[w] == d;
                assert(next[w] == d);
            }
            if d == ds[t as int] {
                assert(next[t as int] == d);
            }
        }
        match find_version(versions, &deps[t]) {
            None => {
                proof {
                    lemma_section_no_version(j0, pkg.pkg_json, "dependencies"@, ds[t as int], cur, next, vs);
                    lemma_section_no_version(j0, pkg.pkg_json, "devDependencies"@, ds[t as int], cur, next, vs);
                }
            },
            Some(vi) => {
                let v = &versions[vi].1;
                let ghost before = pkg.pkg_json;
                proof {
                    assert(sections_editable(j0));
                }
                pkg.update_dependency_version(deps[t].clone(), v.clone());
                let ghost mid = pkg.pkg_json;
                proof {
                    lemma_section_edit(before, mid, "dependencies"@, ds[t as int], *v);
                    lemma_section_step(j0, before, mid, "dependencies"@, ds[t as int], *v, cur, next, vs);
                    lemma_section_untouched(j0, before, mid, "devDependencies"@, "dependencies"@, ds[t as int], *v, cur, vs);
                }
                pkg.update_dev_dependency_version(deps[t].clone(), v.clone());
                proof {
                    lemma_section_edit(mid, pkg.pkg_json, "devDependencies"@, ds[t as int], *v);
                    lemma_section_step(j0, mid, pkg.pkg_json, "devDependencies"@, ds[t as int], *v, cur, next, vs);
                    lemma_section_untouched(j0, mid, pkg.pkg_json, "dependencies"@, "devDependencies"@, ds[t as int], *v, next, vs);
                }
            },
        }
        t = t + 1;
    }
    assert(ds.take(t as int) =~= ds);
}

/// Options of a bump.
#[derive(Debug)]
pub struct BumpOptions {
    pub changes: Vec<Change>,
    pub since: Option<String>,
    pub release_as: Option<Bump>,
    pub fetch_all: Option<bool>,
    pub fetch_tags: Option<bool>,
    pub sync_deps: Option<bool>,
    pub push: Option<bool>,
    pub cwd: Option<String>,
}

/// A package bumped from one version to another. The conventional commits
/// are filled in by whoever reads the commit history; a bump starts with
/// `null`.
#[derive(Debug)]
pub struct BumpPackage {
    pub from: String,
    pub to: String,
    pub package_info: PackageInfo,
    pub conventional_commits: JsonValue,
}

/// The names of the packages, in order.
pub open spec fn package_names(pkgs: Seq<PackageInfo>) -> Seq<Seq<char>> {
    pkgs.map_values(|p: PackageInfo| p.name@)
}

/// The packages the plan bumps: the first package of each planned name, in
/// order.
pub open spec fn bump_targets(pkgs: Seq<PackageInfo>, plan: Map<Seq<char>, ChangeView>) -> Seq<PackageInfo>
    decreases pkgs.len(),
{
    if pkgs.len() == 0 {
        Seq::empty()
    } else {
        let before = bump_targets(pkgs.drop_last(), plan);
        let p = pkgs.last();
        if plan.contains_key(p.name@) && !package_names(pkgs.drop_last()).contains(p.name@) {
            before.push(p)
        } else {
            before
        }
    }
}

/// The version a package is bumped to by the plan.
pub open spec fn target_version(p: PackageInfo, plan: Map<Seq<char>, ChangeView>, sha: Seq<char>) -> Option<Seq<char>> {
    bumped(p.version@, plan[p.name@].release_as, sha)
}

/// The (name, new version) of each bumped package.
pub open spec fn bump_versions(
    targets: Seq<PackageInfo>,
    plan: Map<Seq<char>, ChangeView>,
    sha: Seq<char>,
) -> Seq<(Seq<char>, Seq<char>)> {
    targets.map_values(|p: PackageInfo| (p.name@, target_version(p, plan, sha)->0))
}

/// The dependencies whose versions are kept in sync: all those of the
/// manifest when syncing, none otherwise.
pub open spec fn synced_dependencies(pkg_json: JsonValue, sync: bool) -> Seq<Seq<char>> {
    if sync {
        dependency_names(pkg_json)
    } else {
        Seq::empty()
    }
}

/// Whether every planned package can be bumped: its version is a semantic
/// version that the bump can raise, and its manifest can be edited.
pub open spec fn bumps_possible(
    targets: Seq<PackageInfo>,
    plan: Map<Seq<char>, ChangeView>,
    sha: Seq<char>,
    sync: bool,
) -> bool {
    &&& forall|k: int| 0 <= k < targets.len() ==> target_version(#[trigger] targets[k], plan, sha) is Some
    &&& forall|k: int|
        0 <= k < targets.len() ==> manifest_editable(
            (#[trigger] targets[k]).pkg_json,
            synced_dependencies(targets[k].pkg_json, sync),
            bump_versions(targets, plan, sha),
        )
}

/// Whether `b` is the bump of `p`: from its version to the planned one,
/// with its manifest bumped (and its dependencies synced when asked), and
/// `package.json` added to its changed files when it lies under the
/// package.
pub open spec fn bump_of(
    b: BumpPackage,
    p: PackageInfo,
    plan: Map<Seq<char>, ChangeView>,
    sha: Seq<char>,
    sync: bool,
    versions: Seq<(Seq<char>, Seq<char>)>,
) -> bool {
    &&& b.from@ == p.version@
    &&& target_version(p, plan, sha) == Some(b.to@)
    &&& b.conventional_commits is Null
    &&& b.package_info.version@ == b.to@
    &&& manifest_bumped(
        p.pkg_json,
        b.package_info.pkg_json,
        b.to@,
        synced_dependencies(p.pkg_json, sync),
        versions,
    )
    &&& b.package_info.name == p.name
    &&& b.package_info.private == p.private
    &&& b.package_info.package_json_path == p.package_json_path
    &&& b.package_info.package_path == p.package_path
    &&& b.package_info.package_relative_path == p.package_relative_path
    &&& b.package_info.root == p.root
    &&& b.package_info.url == p.url
    &&& b.package_info.repository_info == p.repository_info
    &&& views(b.package_info.changed_files@) == views(p.changed_files@)
        + crate::workspace_std::git::files_under(seq!["package.json"@], p.package_path@)
}

fn named_before(packages: &Vec<PackageInfo>, i: usize) -> (b: bool)
    requires
        i < packages@.len(),
    ensures
        b == package_names(packages@.take(i as int)).contains(packages@[i as int].name@),
{
    let ghost names = package_names(packages@.take(i as int));
    let mut j: usize = 0;
    while j < i
        invariant
            j <= i < packages@.len(),
            names == package_names(packages@.take(i as int)),
            forall|k: int| 0 <= k < j ==> names[k] != packages@[i as int].name@,
        decreases i - j,
    {
        assert(names[j as int] == packages@[j as int].name@);
        if packages[j].name == packages[i].name {
            return true;
        }
        j = j + 1;
    }
    false
}

fn manifest_can_be_bumped(pkg_json: &JsonValue, deps: &Vec<String>, versions: &Vec<(String, String)>) -> (b:
    bool)
    ensures
        b == manifest_editable(*pkg_json, views(deps@), version_pairs(versions@)),
{
    let shape = match pkg_json {
        JsonValue::Object(_) => true,
        JsonValue::Null => true,
        _ => false,
    };
    let mut any = false;
    let mut t: usize = 0;
    while t < deps.len()
        invariant
            t <= deps@.len(),
            any == exists|u: int|
                0 <= u < t && version_for(version_pairs(versions@), views(deps@)[u]) is Some,
        decreases deps.len() - t,
    {
        assert(views(deps@)[t as int] == deps@[t as int]@);
        if find_version(versions, &deps[t]).is_some() {
            any = true;
        }
        t = t + 1;
    }
    let deps_ok = match crate::json::get(pkg_json, "dependencies") {
        Some(JsonValue::Object(_)) => true,
        Some(_) => false,
        None => true,
    };
    let dev_ok = match crate::json::get(pkg_json, "devDependencies") {
        Some(JsonValue::Object(_)) => true,
        Some(_) => false,
        None => true,
    };
    shape && (!any || (deps_ok && dev_ok))
}

/// The bumps of the packages that changed, among `packages`: each changed
/// package (one of `options.changes` names it) gets the first of its
/// changes, and, when `options.sync_deps` is set, each package that depends
/// on a changed one gets a patch bump too, and its dependencies on bumped
/// packages are set to their new versions. A snapshot is of commit `sha`.
/// The bumps come in the order of `packages`. `None` when a planned bump
/// cannot be made (see `bumps_possible`).
pub fn get_bumps(options: &BumpOptions, packages: Vec<PackageInfo>, sha: &String) -> (r: Option<
    Vec<BumpPackage>,
>)
    ensures
        ({
            let sync = options.sync_deps == Some(true);
            let plan = bump_plan(change_views(options.changes@), packages@, sync);
            let targets = bump_targets(packages@, plan);
            let versions = bump_versions(targets, plan, sha@);
            &&& (r is Some <==> bumps_possible(targets, plan, sha@, sync))
            &&& r matches Some(v) ==> {
                &&& v@.len() == targets.len()
                &&& forall|k: int|
                    0 <= k < v@.len() ==> bump_of(
                        #[trigger] v@[k],
                        targets[k],
                        plan,
                        sha@,
                        sync,
                        versions,
                    )
            }
        }),
{
    let sync = options.sync_deps == Some(true);
    let ghost all = packages@;
    let plan = bump_changes(&options.changes, &packages, sync);
    let ghost pv = plan_view(plan@);
    let ghost targets = bump_targets(all, pv);
    // The new version of every package to bump, in order.
    let mut versions: Vec<(String, String)> = Vec::new();
    let mut indices: Vec<usize> = Vec::new();
    let mut i: usize = 0;
    while i < packages.len()
        invariant
            i <= packages@.len(),
            all == packages@,
            plan.wf(),
            pv == plan_view(plan@),
            pv == bump_plan(change_views(options.changes@), all, sync),
            targets == bump_targets(all, pv),
            sync == (options.sync_deps == Some(true)),
            pv.dom() == plan@.dom(),
            indices@.len() == versions@.len(),
            indices@.len() == bump_targets(all.take(i as int), pv).len(),
            forall|k: int|
                0 <= k < indices@.len() ==> #[trigger] indices@[k] < i && all[indices@[k] as int]
                    == bump_targets(all.take(i as int), pv)[k],
            forall|a: int, b: int| 0 <= a < b < indices@.len() ==> indices@[a] < indices@[b],
            version_pairs(versions@) == bump_versions(bump_targets(all.take(i as int), pv), pv, sha@),
            forall|k: int|
                0 <= k < indices@.len() ==> target_version(
                    #[trigger] bump_targets(all.take(i as int), pv)[k],
                    pv,
                    sha@,
                ) is Some,
        decreases packages.len() - i,
    {
        let ghost before = bump_targets(all.take(i as int), pv);
        assert(all.take(i + 1).drop_last() =~= all.take(i as int));
        assert(all.take(i + 1).last() == all[i as int]);
        let name = &packages[i].name;
        if plan.contains_key(name) && !named_before(&packages, i) {
            let change = plan.get(name).unwrap();
            assert(pv[name@] == change@);
            match next_version(&packages[i].version, change.release_as, sha) {
                None => {
                    proof {
                        let after = bump_targets(all.take(i + 1), pv);
                        assert(after == before.push(all[i as int]));
                        lemma_targets_prefix(all, pv, (i + 1) as int);
                        let idx = before.len() as int;
                        assert(after[idx] == all[i as int]);
                        assert(targets[idx] == after[idx]);
                        assert(pv[all[i as int].name@].release_as == change.release_as);
                        assert(target_version(all[i as int], pv, sha@) is None);
                        assert(target_version(targets[idx], pv, sha@) is None);
                        assert(!bumps_possible(targets, pv, sha@, sync));
                    }
                    return None;
                },
                Some(to) => {
                    let ghost vb = versions@;
                    versions.push((name.clone(), to));
                    indices.push(i);
                    proof {
                        let after = bump_targets(all.take(i + 1), pv);
                        assert(after == before.push(all[i as int]));
                        assert(version_pairs(versions@) =~= version_pairs(vb).push(
                            (all[i as int].name@, target_version(all[i as int], pv, sha@)->0),
                        ));
                        assert(bump_versions(after, pv, sha@) =~= bump_versions(before, pv, sha@).push(
                            (all[i as int].name@, target_version(all[i as int], pv, sha@)->0),
                        ));
                    }
                },
            }
        }
        i = i + 1;
    }
    assert(all.take(i as int) =~= all);
    assert(forall|m: int| 0 <= m < targets.len() ==> target_version(#[trigger] targets[m], pv, sha@) is Some);
    let ghost vs = version_pairs(versions@);
    assert(vs == bump_versions(targets, pv, sha@));
    // Each manifest must be editable.
    let mut k: usize = 0;
    while k < indices.len()
        invariant
            k <= indices@.len(),
            all == packages@,
            pv == bump_plan(change_views(options.changes@), all, sync),
            targets == bump_targets(all, pv),
            sync == (options.sync_deps == Some(true)),
            indices@.len() == targets.len(),
            vs == version_pairs(versions@),
            vs == bump_versions(targets, pv, sha@),
            forall|m: int| 0 <= m < indices@.len() ==> #[trigger] indices@[m] < all.len() && all[indices@[m] as int] == targets[m],
            forall|m: int|
                0 <= m < k ==> manifest_editable(
                    (#[trigger] targets[m]).pkg_json,
                    synced_dependencies(targets[m].pkg_json, sync),
                    vs,
                ),
            forall|m: int| 0 <= m < targets.len() ==> target_version(#[trigger] targets[m], pv, sha@) is Some,
        decreases indices.len() - k,
    {
        let p = &packages[indices[k]];
        assert(*p == targets[k as int]);
        let deps = if sync {
            read_dependency_names(&p.pkg_json)
        } else {
            Vec::new()
        };
        assert(views(deps@) =~= synced_dependencies(p.pkg_json, sync));
        if !manifest_can_be_bumped(&p.pkg_json, &deps, &versions) {
            assert(!manifest_editable(
                targets[k as int].pkg_json,
                synced_dependencies(targets[k as int].pkg_json, sync),
                vs,
            ));
            assert(!bumps_possible(targets, pv, sha@, sync));
            return None;
        }
        k = k + 1;
    }
    // Bump each package.
    let mut rest = packages;
    let mut out: Vec<BumpPackage> = Vec::new();
    let mut j: usize = 0;
    let mut next: usize = 0;
    let n = rest.len();
    while j < n
        invariant
            j <= n,
            n == all.len(),
            rest@ == all.skip(j as int),
            forall|m: int| 0 <= m < targets.len() ==> target_version(#[trigger] targets[m], pv, sha@) is Some,
            next <= indices@.len(),
            indices@.len() == targets.len(),
            vs == version_pairs(versions@),
            vs == bump_versions(targets, pv, sha@),
            forall|m: int| 0 <= m < indices@.len() ==> #[trigger] indices@[m] < all.len() && all[indices@[m] as int] == targets[m],
            forall|a: int, b: int| 0 <= a < b < indices@.len() ==> indices@[a] < indices@[b],
            forall|m: int| 0 <= m < next ==> #[trigger] indices@[m] < j,
            next < indices@.len() ==> indices@[next as int] >= j,
            forall|m: int|
                0 <= m < targets.len() ==> manifest_editable(
                    (#[trigger] targets[m]).pkg_json,
                    synced_dependencies(targets[m].pkg_json, sync),
                    vs,
                ),
            out@.len() == next,
            forall|m: int|
                0 <= m < out@.len() ==> bump_of(#[trigger] out@[m], targets[m], pv, sha@, sync, vs),
        decreases n - j,
    {
        let mut pkg = rest.remove(0);
        assert(pkg == all[j as int]);
        assert(rest@ =~= all.skip(j + 1));
        if next < indices.len() && indices[next] == j {
            assert(pkg == targets[next as int]);
            let ghost p0 = pkg;
            let from = pkg.version.clone();
            let to = versions[next].1.clone();
            assert(vs[next as int] == (targets[next as int].name@, target_version(targets[next as int], pv, sha@)->0));
            let deps = if sync {
                read_dependency_names(&pkg.pkg_json)
            } else {
                Vec::new()
            };
            assert(views(deps@) =~= synced_dependencies(p0.pkg_json, sync));
            bump_manifest(&mut pkg, &to, &deps, &versions);
            let mut files: Vec<String> = Vec::new();
            files.push(String::from_str("package.json"));
            assert(views(files@) =~= seq!["package.json"@]);
            pkg.extend_changed_files(files);
            out.push(
                BumpPackage { from, to, package_info: pkg, conventional_commits: JsonValue::Null },
            );
            next = next + 1;
        }
        j = j + 1;
    }
    Some(out)
}

proof fn lemma_targets_prefix(all: Seq<PackageInfo>, plan: Map<Seq<char>, ChangeView>, i: int)
    requires
        0 <= i <= all.len(),
    ensures
        bump_targets(all.take(i), plan).len() <= bump_targets(all, plan).len(),
        forall|k: int|
            0 <= k < bump_targets(all.take(i), plan).len() ==> #[trigger] bump_targets(all.take(i), plan)[k]
                == bump_targets(all, plan)[k],
    decreases all.len() - i,
{
    if i < all.len() {
        lemma_targets_prefix(all, plan, i + 1);
        assert(all.take(i + 1).drop_last() =~= all.take(i));
        let ti = bump_targets(all.take(i), plan);
        let ti1 = bump_targets(all.take(i + 1), plan);
        assert(ti1 == ti || ti1 == ti.push(all[i]));
        assert forall|k: int| 0 <= k < ti.len() implies #[trigger] ti[k] == ti1[k] by {}
    } else {
        assert(all.take(i) =~= all);
    }
}

/// The bump a package gets and where it is deployed: the bump asked for,
/// else that of its change, else a patch; the deploy targets of its change,
/// else production.
pub fn recommended_release(release_as: Option<Bump>, change: &Option<Change>) -> (r: (Bump, Vec<String>))
    ensures
        r.0 == match release_as {
            Some(b) => b,
            None => match change {
                Some(c) => c.release_as,
                None => Bump::Patch,
            },
        },
        views(r.1@) == match change {
            Some(c) => views(c.deploy@),
            None => seq!["production"@],
        },
{
    let bump = match release_as {
        Some(b) => b,
        None => match change {
            Some(c) => c.release_as,
            None => Bump::Patch,
        },
    };
    let deploy = match change {
        Some(c) => crate::changes::clone_strings(&c.deploy),
        None => {
            let mut v: Vec<String> = Vec::new();
            v.push(String::from_str("production"));
            assert(views(v@) =~= seq!["production"@]);
            v
        },
    };
    (bump, deploy)
}

/// The tag of a release, `name@version`, and its message.
pub fn release_tag(bump: &BumpPackage) -> (r: (String, String))
    ensures
        r.0@ == bump.package_info.name@ + "@"@ + bump.to@,
        r.1@ == "chore: release "@ + bump.package_info.name@ + " to version "@ + bump.to@,
{
    let tag = bump.package_info.name.clone().concat("@").concat(bump.to.as_str());
    let message = String::from_str("chore: release ").concat(bump.package_info.name.as_str()).concat(
        " to version ",
    ).concat(bump.to.as_str());
    (tag, message)
}

/// The message of a release commit: the configured one, else
/// `chore: release version`.
pub fn release_commit_message(message: &Option<String>) -> (r: String)
    ensures
        r@ == match message {
            Some(m) => m@,
            None => "chore: release version"@,
        },
{
    match message {
        Some(m) => m.clone(),
        None => String::from_str("chore: release version"),
    }
}

/// Syncing dependents keeps every planned bump, adds only packages of
/// `pkgs`, and gives every package that depends on `name` a bump.
pub proof fn lemma_sync_dependents(
    plan: Map<Seq<char>, ChangeView>,
    pkgs: Seq<PackageInfo>,
    name: Seq<char>,
    deploy: Seq<Seq<char>>,
)
    ensures
        forall|k: Seq<char>|
            plan.contains_key(k) ==> #[trigger] sync_dependents(plan, pkgs, name, deploy).contains_key(k)
                && sync_dependents(plan, pkgs, name, deploy)[k] == plan[k],
        forall|k: Seq<char>|
            #[trigger] sync_dependents(plan, pkgs, name, deploy).contains_key(k) ==> plan.contains_key(k)
                || package_names(pkgs).contains(k),
        forall|i: int|
            0 <= i < pkgs.len() && dependency_names((#[trigger] pkgs[i]).pkg_json).contains(name)
                ==> sync_dependents(plan, pkgs, name, deploy).contains_key(pkgs[i].name@),
    decreases pkgs.len(),
{
    if pkgs.len() > 0 {
        let d = pkgs.drop_last();
        lemma_sync_dependents(plan, d, name, deploy);
        let r = sync_dependents(plan, pkgs, name, deploy);
        let before = sync_dependents(plan, d, name, deploy);
        assert forall|k: Seq<char>| #[trigger] r.contains_key(k) implies plan.contains_key(k)
            || package_names(pkgs).contains(k) by {
            if before.contains_key(k) {
                if !plan.contains_key(k) {
                    assert(package_names(d).contains(k));
                    let j = choose|j: int| 0 <= j < package_names(d).len() && package_names(d)[j] == k;
                    assert(package_names(pkgs)[j] == k);
                }
            } else {
                assert(package_names(pkgs)[pkgs.len() - 1] == k);
            }
        }
        assert forall|i: int|
            0 <= i < pkgs.len() && dependency_names((#[trigger] pkgs[i]).pkg_json).contains(name)
                implies r.contains_key(pkgs[i].name@) by {
            if i < d.len() {
                assert(d[i] == pkgs[i]);
            }
        }
    }
}

/// A package of `pkgs` with a change is among the changed packages.
pub proof fn lemma_changed_packages(changes: Seq<ChangeView>, pkgs: Seq<PackageInfo>)
    ensures
        forall|i: int|
            0 <= i < pkgs.len() && has_package(changes, (#[trigger] pkgs[i]).name@) ==> changed_packages(
                changes,
                pkgs,
            ).contains(pkgs[i]),
        forall|k: int|
            0 <= k < changed_packages(changes, pkgs).len() ==> has_package(
                changes,
                (#[trigger] changed_packages(changes, pkgs)[k]).name@,
            ) && pkgs.contains(changed_packages(changes, pkgs)[k]),
    decreases pkgs.len(),
{
    if pkgs.len() > 0 {
        let d = pkgs.drop_last();
        lemma_changed_packages(changes, d);
        let c = changed_packages(changes, pkgs);
        let cd = changed_packages(changes, d);
        assert forall|i: int|
            0 <= i < pkgs.len() && has_package(changes, (#[trigger] pkgs[i]).name@) implies c.contains(
                pkgs[i],
            ) by {
            if i < d.len() {
                assert(d[i] == pkgs[i]);
                let j = choose|j: int| 0 <= j < cd.len() && cd[j] == d[i];
                assert(c[j] == cd[j]);
            } else {
                assert(c[c.len() - 1] == pkgs[i]);
            }
        }
        assert forall|k: int| 0 <= k < c.len() implies has_package(changes, (#[trigger] c[k]).name@)
            && pkgs.contains(c[k]) by {
            if k < cd.len() {
                assert(c[k] == cd[k]);
                let j = choose|j: int| 0 <= j < d.len() && d[j] == cd[k];
                assert(pkgs[j] == d[j]);
            } else {
                assert(c[k] == pkgs[pkgs.len() - 1]);
            }
        }
    }
}

/// The plan over `changed` gives every one of them its first change, keeps
/// to names of `changed` and `pkgs`, and (when syncing) bumps every package
/// that depends on one of them.
pub proof fn lemma_plan_for(
    changes: Seq<ChangeView>,
    pkgs: Seq<PackageInfo>,
    changed: Seq<PackageInfo>,
    sync: bool,
)
    ensures
        forall|k: int|
            0 <= k < changed.len() ==> plan_for(changes, pkgs, changed, sync).contains_key(
                (#[trigger] changed[k]).name@,
            ) && plan_for(changes, pkgs, changed, sync)[changed[k].name@] == first_change_for(
                changes,
                changed[k].name@,
            )->0,
        forall|n: Seq<char>|
            #[trigger] plan_for(changes, pkgs, changed, sync).contains_key(n) ==> package_names(
                changed,
            ).contains(n) || (sync && package_names(pkgs).contains(n)),
        sync ==> forall|k: int, i: int|
            0 <= k < changed.len() && 0 <= i < pkgs.len() && dependency_names(
                (#[trigger] pkgs[i]).pkg_json,
            ).contains((#[trigger] changed[k]).name@) ==> plan_for(
                changes,
                pkgs,
                changed,
                sync,
            ).contains_key(pkgs[i].name@),
    decreases changed.len(),
{
    if changed.len() > 0 {
        let d = changed.drop_last();
        lemma_plan_for(changes, pkgs, d, sync);
        let before = plan_for(changes, pkgs, d, sync);
        let c = changed.last();
        let change = first_change_for(changes, c.name@)->0;
        let with_change = before.insert(c.name@, change);
        let r = plan_for(changes, pkgs, changed, sync);
        if sync {
            lemma_sync_dependents(with_change, pkgs, c.name@, change.deploy);
        }
        assert forall|k: int| 0 <= k < changed.len() implies r.contains_key((#[trigger] changed[k]).name@)
            && r[changed[k].name@] == first_change_for(changes, changed[k].name@)->0 by {
            if k < d.len() {
                assert(d[k] == changed[k]);
                assert(with_change.contains_key(changed[k].name@));
            }
        }
        assert forall|n: Seq<char>| #[trigger] r.contains_key(n) implies package_names(changed).contains(n)
            || (sync && package_names(pkgs).contains(n)) by {
            if with_change.contains_key(n) {
                if before.contains_key(n) {
                    if package_names(d).contains(n) {
                        let j = choose|j: int| 0 <= j < package_names(d).len() && package_names(d)[j] == n;
                        assert(package_names(changed)[j] == n);
                    }
                } else {
                    assert(package_names(changed)[changed.len() - 1] == n);
                }
            }
        }
        if sync {
            assert forall|k: int, i: int|
                0 <= k < changed.len() && 0 <= i < pkgs.len() && dependency_names(
                    (#[trigger] pkgs[i]).pkg_json,
                ).contains((#[trigger] changed[k]).name@) implies r.contains_key(pkgs[i].name@) by {
                if k < d.len() {
                    assert(d[k] == changed[k]);
                    assert(before.contains_key(pkgs[i].name@));
                }
            }
        }
    }
}

/// Every package that one of the changes is for is bumped as the first
/// change for it says.
pub proof fn law_changed_packages_get_their_change(
    changes: Seq<ChangeView>,
    pkgs: Seq<PackageInfo>,
    sync: bool,
)
    ensures
        forall|i: int|
            0 <= i < pkgs.len() && has_package(changes, (#[trigger] pkgs[i]).name@) ==> bump_plan(
                changes,
                pkgs,
                sync,
            ).contains_key(pkgs[i].name@) && bump_plan(changes, pkgs, sync)[pkgs[i].name@]
                == first_change_for(changes, pkgs[i].name@)->0,
{
    let changed = changed_packages(changes, pkgs);
    lemma_changed_packages(changes, pkgs);
    lemma_plan_for(changes, pkgs, changed, sync);
    assert forall|i: int|
        0 <= i < pkgs.len() && has_package(changes, (#[trigger] pkgs[i]).name@) implies bump_plan(
            changes,
            pkgs,
            sync,
        ).contains_key(pkgs[i].name@) && bump_plan(changes, pkgs, sync)[pkgs[i].name@]
            == first_change_for(changes, pkgs[i].name@)->0 by {
        let k = choose|k: int| 0 <= k < changed.len() && changed[k] == pkgs[i];
        assert(changed[k].name@ == pkgs[i].name@);
    }
}

/// Without syncing, exactly the packages that one of the changes is for
/// are bumped.
pub proof fn law_without_sync_only_changed_packages(changes: Seq<ChangeView>, pkgs: Seq<PackageInfo>)
    ensures
        forall|n: Seq<char>|
            #[trigger] bump_plan(changes, pkgs, false).contains_key(n) <==> (package_names(pkgs).contains(n)
                && has_package(changes, n)),
{
    let changed = changed_packages(changes, pkgs);
    lemma_changed_packages(changes, pkgs);
    lemma_plan_for(changes, pkgs, changed, false);
    law_changed_packages_get_their_change(changes, pkgs, false);
    assert forall|n: Seq<char>| #[trigger] bump_plan(changes, pkgs, false).contains_key(n) <==> (
    package_names(pkgs).contains(n) && has_package(changes, n)) by {
        if bump_plan(changes, pkgs, false).contains_key(n) {
            let j = choose|j: int| 0 <= j < package_names(changed).len() && package_names(changed)[j] == n;
            assert(changed[j].name@ == n);
            let i = choose|i: int| 0 <= i < pkgs.len() && pkgs[i] == changed[j];
            assert(package_names(pkgs)[i] == n);
        }
        if package_names(pkgs).contains(n) && has_package(changes, n) {
            let i = choose|i: int| 0 <= i < package_names(pkgs).len() && package_names(pkgs)[i] == n;
            assert(pkgs[i].name@ == n);
        }
    }
}

/// When dependencies are kept in sync, every package that depends on a
/// changed package is bumped too, and only packages of the monorepo are.
pub proof fn law_sync_bumps_dependents(changes: Seq<ChangeView>, pkgs: Seq<PackageInfo>)
    ensures
        forall|i: int, j: int|
            0 <= i < pkgs.len() && 0 <= j < pkgs.len() && has_package(changes, (#[trigger] pkgs[j]).name@)
                && dependency_names((#[trigger] pkgs[i]).pkg_json).contains(pkgs[j].name@) ==> bump_plan(
                changes,
                pkgs,
                true,
            ).contains_key(pkgs[i].name@),
        forall|n: Seq<char>| #[trigger] bump_plan(changes, pkgs, true).contains_key(n) ==> package_names(pkgs).contains(n),
{
    let changed = changed_packages(changes, pkgs);
    lemma_changed_packages(changes, pkgs);
    lemma_plan_for(changes, pkgs, changed, true);
    assert forall|i: int, j: int|
        0 <= i < pkgs.len() && 0 <= j < pkgs.len() && has_package(changes, (#[trigger] pkgs[j]).name@)
            && dependency_names((#[trigger] pkgs[i]).pkg_json).contains(pkgs[j].name@) implies bump_plan(
            changes,
            pkgs,
            true,
        ).contains_key(pkgs[i].name@) by {
        let k = choose|k: int| 0 <= k < changed.len() && changed[k] == pkgs[j];
        assert(changed[k].name@ == pkgs[j].name@);
    }
    assert forall|n: Seq<char>| #[trigger] bump_plan(changes, pkgs, true).contains_key(n) implies package_names(
        pkgs,
    ).contains(n) by {
        if package_names(changed).contains(n) {
            let j = choose|j: int| 0 <= j < package_names(changed).len() && package_names(changed)[j] == n;
            let i = choose|i: int| 0 <= i < pkgs.len() && pkgs[i] == changed[j];
            assert(package_names(pkgs)[i] == n);
        }
    }
}

/// A member of a JSON value is found exactly when its name is among the
/// value's member names.
proof fn lemma_member_found(v: JsonValue, name: Seq<char>)
    ensures
        json_get(v, name) is Some <==> member_names(v).contains(name),
{
    match v {
        JsonValue::Object(entries) => {
            let members = object_members(v);
            lemma_lookup_index(members, name);
            let names = member_names(v);
            if json_get(v, name) is Some {
                let i = crate::json::lookup_index(members, name);
                assert(names[i] == name);
            }
            if names.contains(name) {
                let i = choose|i: int| 0 <= i < names.len() && names[i] == name;
                assert(members[i].0 == name);
            }
        },
        _ => {
            assert(member_names(v).len() == 0);
        },
    }
}

/// A package depends on `name` exactly when its `dependencies` or its
/// `devDependencies` has a member of that name.
pub proof fn law_dependency_names_cover_both_sections(pkg_json: JsonValue, name: Seq<char>)
    ensures
        dependency_names(pkg_json).contains(name) <==> ((json_get(pkg_json, "dependencies"@) matches Some(
            d,
        ) && json_get(d, name) is Some) || (json_get(pkg_json, "devDependencies"@) matches Some(d) && json_get(
            d,
            name,
        ) is Some)),
{
    let a = section_of(pkg_json, "dependencies"@);
    let b = section_of(pkg_json, "devDependencies"@);
    lemma_member_found(a, name);
    lemma_member_found(b, name);
    let ma = member_names(a);
    let mb = member_names(b);
    if (ma + mb).contains(name) {
        let i = choose|i: int| 0 <= i < (ma + mb).len() && (ma + mb)[i] == name;
        if i < ma.len() {
            assert(ma[i] == name);
        } else {
            assert(mb[i - ma.len()] == name);
        }
    }
    if ma.contains(name) {
        let i = choose|i: int| 0 <= i < ma.len() && ma[i] == name;
        assert((ma + mb)[i] == name);
    }
    if mb.contains(name) {
        let i = choose|i: int| 0 <= i < mb.len() && mb[i] == name;
        assert((ma + mb)[ma.len() + i] == name);
    }
    assert(json_get(JsonValue::Null, name) is None);
}

/// When dependencies are kept in sync, a package that lists a changed
/// package in its `devDependencies` is bumped too.
pub proof fn law_dev_dependents_are_bumped(changes: Seq<ChangeView>, pkgs: Seq<PackageInfo>, i: int, j: int)
    requires
        0 <= i < pkgs.len(),
        0 <= j < pkgs.len(),
        has_package(changes, pkgs[j].name@),
        json_get(pkgs[i].pkg_json, "devDependencies"@) matches Some(d) && json_get(d, pkgs[j].name@) is Some,
    ensures
        bump_plan(changes, pkgs, true).contains_key(pkgs[i].name@),
{
    law_dependency_names_cover_both_sections(pkgs[i].pkg_json, pkgs[j].name@);
    law_sync_bumps_dependents(changes, pkgs);
}

/// A bump with dependencies kept in sync sets each `devDependencies`
/// member that names a bumped package to that package's new version.
pub proof fn law_synced_dev_dependency_is_set(
    b: BumpPackage,
    p: PackageInfo,
    plan: Map<Seq<char>, ChangeView>,
    sha: Seq<char>,
    versions: Seq<(Seq<char>, Seq<char>)>,
    dependency: Seq<char>,
    version: Seq<char>,
)
    requires
        bump_of(b, p, plan, sha, true, versions),
        json_get(p.pkg_json, "devDependencies"@) matches Some(d) && json_get(d, dependency) is Some,
        version_for(versions, dependency) == Some(version),
    ensures
        json_get(b.package_info.pkg_json, "devDependencies"@) matches Some(d2) && json_get(d2, dependency) matches Some(
            JsonValue::Str(w),
        ) && w@ == version,
{
    law_dependency_names_cover_both_sections(p.pkg_json, dependency);
    let sec = json_get(p.pkg_json, "devDependencies"@)->0;
    let sec2 = json_get(b.package_info.pkg_json, "devDependencies"@)->0;
    assert(dependency_set(sec, sec2, dependency, expected_dependency(dependency_names(p.pkg_json), versions, dependency)));
}

} // verus!
