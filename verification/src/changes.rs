//! The change file of a monorepo (`.changes.json` at its root): per branch,
//! the packages to release and how.
//!
//! Reading and writing the file is left to the caller; these functions take
//! what was read (`None` when there is no file) and give what to write.
use crate::branch_map::BranchMap;
use crate::bumps::Bump;
use crate::text::{to_chars, views, chars_eq};
use vstd::prelude::*;

verus! {

/// Options to initialise the change file.
#[derive(Debug, Clone)]
pub struct ChangesOptions {
    pub message: Option<String>,
    pub git_user_name: Option<String>,
    pub git_user_email: Option<String>,
}

/// A package to release and how.
#[derive(Debug)]
pub struct Change {
    pub package: String,
    pub release_as: Bump,
    pub deploy: Vec<String>,
}

/// A change as values: the package, the bump, the deploy targets.
pub struct ChangeView {
    pub package: Seq<char>,
    pub release_as: Bump,
    pub deploy: Seq<Seq<char>>,
}

impl View for Change {
    type V = ChangeView;

    open spec fn view(&self) -> ChangeView {
        ChangeView { package: self.package@, release_as: self.release_as, deploy: views(self.deploy@) }
    }
}

/// The views of a sequence of changes.
pub open spec fn change_views(cs: Seq<Change>) -> Seq<ChangeView> {
    cs.map_values(|c: Change| c@)
}

/// The changes of every branch, by branch name.
pub type ChangesData = BranchMap<Vec<Change>>;

/// The content of the change file.
#[derive(Debug)]
pub struct ChangesFileData {
    pub message: Option<String>,
    pub git_user_name: Option<String>,
    pub git_user_email: Option<String>,
    pub changes: ChangesData,
}

/// The changes of every branch.
#[derive(Debug)]
pub struct Changes {
    pub changes: ChangesData,
}

/// The changes of each branch, as sequences.
pub open spec fn changes_view(m: Map<Seq<char>, Vec<Change>>) -> Map<Seq<char>, Seq<ChangeView>> {
    m.map_values(|v: Vec<Change>| change_views(v@))
}

/// Whether one of `cs` is for the package `name`.
pub open spec fn has_package(cs: Seq<ChangeView>, name: Seq<char>) -> bool {
    exists|i: int| 0 <= i < cs.len() && (#[trigger] cs[i]).package == name
}

/// The changes after recording `c` for `branch`: added unless the branch
/// already has a change for the same package.
pub open spec fn after_add(m: Map<Seq<char>, Seq<ChangeView>>, branch: Seq<char>, c: ChangeView) -> Map<
    Seq<char>,
    Seq<ChangeView>,
> {
    if m.contains_key(branch) {
        if has_package(m[branch], c.package) {
            m
        } else {
            m.insert(branch, m[branch].push(c))
        }
    } else {
        m.insert(branch, seq![c])
    }
}

/// The view of an optional change.
pub open spec fn option_view(c: Option<Change>) -> Option<ChangeView> {
    match c {
        Some(x) => Some(x@),
        None => None,
    }
}

/// The first change of `cs` for the package `name`.
pub open spec fn first_change_for(cs: Seq<ChangeView>, name: Seq<char>) -> Option<ChangeView>
    decreases cs.len(),
{
    if cs.len() == 0 {
        None
    } else if cs[0].package == name {
        Some(cs[0])
    } else {
        first_change_for(cs.drop_first(), name)
    }
}

/// The branch changes are recorded under: the current one, else `main`.
pub open spec fn branch_or_main(current: Option<String>) -> Seq<char> {
    match current {
        Some(b) => b@,
        None => "main"@,
    }
}

/// The changes of `branch` in the file, if there is a file and the branch
/// has changes.
pub open spec fn branch_changes(file: Option<ChangesFileData>, branch: Seq<char>) -> Option<
    Seq<ChangeView>,
> {
    match file {
        Some(d) => if d.changes@.contains_key(branch) {
            Some(change_views(d.changes@[branch]@))
        } else {
            None
        },
        None => None,
    }
}

/// Whether the file is well formed (no branch twice).
pub open spec fn file_wf(file: Option<ChangesFileData>) -> bool {
    match file {
        Some(d) => d.changes.wf(),
        None => true,
    }
}

/// A copy of the strings, equal to them one by one.
pub fn clone_strings(v: &Vec<String>) -> (r: Vec<String>)
    ensures
        r@ == v@,
        views(r@) == views(v@),
{
    let mut r: Vec<String> = Vec::new();
    let mut i: usize = 0;
    while i < v.len()
        invariant
            i <= v.len(),
            r@ == v@.take(i as int),
        decreases v.len() - i,
    {
        r.push(v[i].clone());
        assert(r@ =~= v@.take(i + 1));
        i = i + 1;
    }
    assert(v@.take(v.len() as int) =~= v@);
    assert(r@ =~= v@);
    r
}

impl Change {
    /// A copy of the change, equal to it.
    pub fn duplicate(&self) -> (r: Change)
        ensures
            r@ == self@,
    {
        Change {
            package: self.package.clone(),
            release_as: self.release_as,
            deploy: clone_strings(&self.deploy),
        }
    }
}

/// A copy of the changes, equal to them one by one.
pub fn clone_changes(v: &Vec<Change>) -> (r: Vec<Change>)
    ensures
        change_views(r@) == change_views(v@),
{
    let mut r: Vec<Change> = Vec::new();
    let mut i: usize = 0;
    while i < v.len()
        invariant
            i <= v.len(),
            change_views(r@) == change_views(v@).take(i as int),
        decreases v.len() - i,
    {
        let c = v[i].duplicate();
        let ghost before = r@;
        r.push(c);
        assert(change_views(r@) =~= change_views(before).push(c@));
        assert(change_views(r@) =~= change_views(v@).take(i + 1));
        i = i + 1;
    }
    assert(change_views(v@).take(v.len() as int) =~= change_views(v@));
    r
}

pub(crate) fn index_of_package(cs: &Vec<Change>, name: &String) -> (r: Option<usize>)
    ensures
        match r {
            Some(i) => i < cs@.len() && cs@[i as int].package@ == name@ && first_change_for(
                change_views(cs@),
                name@,
            ) == Some(cs@[i as int]@),
            None => !has_package(change_views(cs@), name@) && first_change_for(
                change_views(cs@),
                name@,
            ) is None,
        },
{
    let ghost vs = change_views(cs@);
    let mut i: usize = 0;
    assert(vs.skip(0) =~= vs);
    while i < cs.len()
        invariant
            vs == change_views(cs@),
            i <= cs@.len(),
            forall|k: int| 0 <= k < i ==> vs[k].package != name@,
            first_change_for(vs, name@) == first_change_for(vs.skip(i as int), name@),
        decreases cs.len() - i,
    {
        assert(vs.skip(i as int)[0] == cs@[i as int]@);
        if cs[i].package == *name {
            return Some(i);
        }
        assert(vs.skip(i as int).drop_first() =~= vs.skip(i + 1));
        i = i + 1;
    }
    assert(vs.skip(i as int).len() == 0);
    None
}

/// The change file to use: the one read, else a new one whose message and
/// git user default to `chore(release): release new version`, `Git Bot` and
/// `git.bot@domain.com`, with no changes.
pub fn init_changes(existing: Option<ChangesFileData>, change_options: &Option<ChangesOptions>) -> (r:
    ChangesFileData)
    requires
        file_wf(existing),
    ensures
        r.changes.wf(),
        existing matches Some(d) ==> r == d,
        existing is None ==> {
            &&& r.changes@ == Map::<Seq<char>, Vec<Change>>::empty()
            &&& r.message matches Some(m) && m@ == match change_options {
                Some(o) => match o.message {
                    Some(x) => x@,
                    None => "chore(release): release new version"@,
                },
                None => "chore(release): release new version"@,
            }
            &&& r.git_user_name matches Some(u) && u@ == match change_options {
                Some(o) => match o.git_user_name {
                    Some(x) => x@,
                    None => "Git Bot"@,
                },
                None => "Git Bot"@,
            }
            &&& r.git_user_email matches Some(e) && e@ == match change_options {
                Some(o) => match o.git_user_email {
                    Some(x) => x@,
                    None => "git.bot@domain.com"@,
                },
                None => "git.bot@domain.com"@,
            }
        },
{
    match existing {
        Some(d) => d,
        None => {
            let message = match change_options {
                Some(options) => match &options.message {
                    Some(msg) => msg.clone(),
                    None => String::from_str("chore(release): release new version"),
                },
                None => String::from_str("chore(release): release new version"),
            };
            let username = match change_options {
                Some(options) => match &options.git_user_name {
                    Some(name) => name.clone(),
                    None => String::from_str("Git Bot"),
                },
                None => String::from_str("Git Bot"),
            };
            let email = match change_options {
                Some(options) => match &options.git_user_email {
                    Some(email) => email.clone(),
                    None => String::from_str("git.bot@domain.com"),
                },
                None => String::from_str("git.bot@domain.com"),
            };
            ChangesFileData {
                message: Some(message),
                git_user_name: Some(username),
                git_user_email: Some(email),
                changes: BranchMap::new(),
            }
        },
    }
}

/// Records `change` for the current branch (`main` when there is none),
/// unless that branch already has a change for the same package.
pub fn add_change(changes: &mut ChangesFileData, change: &Change, current_branch: Option<String>)
    requires
        old(changes).changes.wf(),
    ensures
        final(changes).changes.wf(),
        changes_view(final(changes).changes@) == after_add(
            changes_view(old(changes).changes@),
            branch_or_main(current_branch),
            change@,
        ),
        final(changes).message == old(changes).message,
        final(changes).git_user_name == old(changes).git_user_name,
        final(changes).git_user_email == old(changes).git_user_email,
{
    let branch = match current_branch {
        Some(branch) => branch,
        None => String::from_str("main"),
    };
    let ghost m = changes_view(changes.changes@);
    match changes.changes.remove(&branch) {
        Some(mut branch_changes) => {
            let ghost before = branch_changes@;
            assert(m.contains_key(branch@));
            assert(m[branch@] == change_views(before));
            let pkg_already_added = match index_of_package(&branch_changes, &change.package) {
                Some(j) => {
                    assert(change_views(before)[j as int].package == change@.package);
                    assert(has_package(m[branch@], change@.package));
                    true
                },
                None => false,
            };
            if !pkg_already_added {
                let c = change.duplicate();
                branch_changes.push(c);
                assert(change_views(branch_changes@) =~= change_views(before).push(change@));
            }
            let ghost v = change_views(branch_changes@);
            changes.changes.insert(branch, branch_changes);
            proof {
                if pkg_already_added {
                    assert(changes_view(changes.changes@) =~= m);
                } else {
                    assert(changes_view(changes.changes@) =~= m.insert(branch@, v));
                }
            }
        },
        None => {
            assert(!m.contains_key(branch@));
            let mut v: Vec<Change> = Vec::new();
            v.push(change.duplicate());
            assert(change_views(v@) =~= seq![change@]);
            changes.changes.insert(branch, v);
            assert(changes_view(changes.changes@) =~= m.insert(branch@, seq![change@]));
        },
    }
}

/// Removes the changes of `branch_name`; whether it had any.
pub fn remove_change(changes: &mut ChangesFileData, branch_name: &String) -> (r: bool)
    requires
        old(changes).changes.wf(),
    ensures
        final(changes).changes.wf(),
        r == old(changes).changes@.contains_key(branch_name@),
        final(changes).changes@ == old(changes).changes@.remove(branch_name@),
        final(changes).message == old(changes).message,
        final(changes).git_user_name == old(changes).git_user_name,
        final(changes).git_user_email == old(changes).git_user_email,
{
    changes.changes.remove(branch_name).is_some()
}

/// All the changes of the file; none when there is no file.
pub fn get_changes(file: Option<ChangesFileData>) -> (r: Changes)
    requires
        file_wf(file),
    ensures
        r.changes.wf(),
        match file {
            Some(d) => r.changes == d.changes,
            None => r.changes@ == Map::<Seq<char>, Vec<Change>>::empty(),
        },
{
    match file {
        Some(d) => Changes { changes: d.changes },
        None => Changes { changes: BranchMap::new() },
    }
}

/// The changes of `branch`; none when there is no file or no such branch.
pub fn get_change(file: &Option<ChangesFileData>, branch: &String) -> (r: Vec<Change>)
    requires
        file_wf(*file),
    ensures
        change_views(r@) == match branch_changes(*file, branch@) {
            Some(cs) => cs,
            None => Seq::<ChangeView>::empty(),
        },
{
    match file {
        Some(d) => match d.changes.get(branch) {
            Some(cs) => clone_changes(cs),
            None => Vec::new(),
        },
        None => {
            let r: Vec<Change> = Vec::new();
            assert(change_views(r@) =~= Seq::<ChangeView>::empty());
            r
        },
    }
}

/// The first change of `branch` for the package `package_name`.
pub fn get_package_change(file: &Option<ChangesFileData>, package_name: &String, branch: &String) -> (r:
    Option<Change>)
    requires
        file_wf(*file),
    ensures
        option_view(r) == match branch_changes(*file, branch@) {
            Some(cs) => first_change_for(cs, package_name@),
            None => None,
        },
{
    match file {
        Some(d) => match d.changes.get(branch) {
            Some(cs) => match index_of_package(cs, package_name) {
                Some(i) => Some(cs[i].duplicate()),
                None => None,
            },
            None => None,
        },
        None => None,
    }
}

/// Whether the file records, for `branch`, a change for every one of
/// `packages_name`.
pub fn change_exist(file: &Option<ChangesFileData>, branch: &String, packages_name: &Vec<String>) -> (r:
    bool)
    requires
        file_wf(*file),
    ensures
        r == match branch_changes(*file, branch@) {
            Some(cs) => forall|i: int|
                0 <= i < packages_name@.len() ==> has_package(cs, #[trigger] packages_name@[i]@),
            None => false,
        },
{
    match file {
        Some(d) => match d.changes.get(branch) {
            Some(cs) => {
                assert(branch_changes(*file, branch@) == Some(change_views(cs@)));
                let mut i: usize = 0;
                while i < packages_name.len()
                    invariant
                        branch_changes(*file, branch@) == Some(change_views(cs@)),
                        i <= packages_name@.len(),
                        forall|k: int|
                            0 <= k < i ==> has_package(change_views(cs@), #[trigger] packages_name@[k]@),
                    decreases packages_name.len() - i,
                {
                    match index_of_package(cs, &packages_name[i]) {
                        Some(j) => {
                            assert(change_views(cs@)[j as int].package == packages_name@[i as int]@);
                            assert(has_package(change_views(cs@), packages_name@[i as int]@));
                        },
                        None => {
                            assert(!has_package(change_views(cs@), packages_name@[i as int]@));
                            return false;
                        },
                    }
                    i = i + 1;
                }
                true
            },
            None => false,
        },
        None => false,
    }
}

/// The name of the change file.
pub open spec fn changes_file_name() -> Seq<char> {
    ".changes.json"@
}

/// Whether the change file is among the entries of the project root.
pub fn changes_file_exist(root_entries: &Vec<String>) -> (r: bool)
    ensures
        r == exists|i: int| 0 <= i < root_entries@.len() && root_entries@[i]@ == changes_file_name(),
{
    let name = to_chars(".changes.json");
    let mut i: usize = 0;
    while i < root_entries.len()
        invariant
            i <= root_entries@.len(),
            name@ == changes_file_name(),
            forall|k: int| 0 <= k < i ==> root_entries@[k]@ != changes_file_name(),
        decreases root_entries.len() - i,
    {
        if chars_eq(&to_chars(root_entries[i].as_str()), &name) {
            return true;
        }
        i = i + 1;
    }
    false
}

proof fn lemma_first_change_found(cs: Seq<ChangeView>, name: Seq<char>)
    requires
        has_package(cs, name),
    ensures
        first_change_for(cs, name) matches Some(x) && x.package == name,
    decreases cs.len(),
{
    if cs[0].package != name {
        let i = choose|i: int| 0 <= i < cs.len() && (#[trigger] cs[i]).package == name;
        assert(cs.drop_first()[i - 1] == cs[i]);
        lemma_first_change_found(cs.drop_first(), name);
    }
}

proof fn lemma_first_change_absent(cs: Seq<ChangeView>, c: ChangeView)
    requires
        !has_package(cs, c.package),
    ensures
        first_change_for(cs.push(c), c.package) == Some(c),
    decreases cs.len(),
{
    if cs.len() == 0 {
    } else {
        assert(cs[0].package != c.package);
        assert(cs.push(c).drop_first() =~= cs.drop_first().push(c));
        assert(!has_package(cs.drop_first(), c.package)) by {
            if has_package(cs.drop_first(), c.package) {
                let i = choose|i: int|
                    0 <= i < cs.drop_first().len() && (#[trigger] cs.drop_first()[i]).package
                        == c.package;
                assert(cs[i + 1] == cs.drop_first()[i]);
            }
        }
        lemma_first_change_absent(cs.drop_first(), c);
    }
}

/// A recorded change can be read back: after recording `c` for `branch`,
/// the branch has a change for `c`'s package, and the first such change is
/// `c` itself unless the branch already had one for that package.
pub proof fn law_add_then_read(m: Map<Seq<char>, Seq<ChangeView>>, branch: Seq<char>, c: ChangeView)
    ensures
        after_add(m, branch, c).contains_key(branch),
        has_package(after_add(m, branch, c)[branch], c.package),
        first_change_for(after_add(m, branch, c)[branch], c.package) matches Some(x) && x.package
            == c.package,
        !(m.contains_key(branch) && has_package(m[branch], c.package)) ==> first_change_for(
            after_add(m, branch, c)[branch],
            c.package,
        ) == Some(c),
{
    let a = after_add(m, branch, c);
    if m.contains_key(branch) && has_package(m[branch], c.package) {
        lemma_first_change_found(a[branch], c.package);
    } else if m.contains_key(branch) {
        assert(a[branch][m[branch].len() as int] == c);
        lemma_first_change_absent(m[branch], c);
    } else {
        assert(a[branch][0] == c);
        lemma_first_change_absent(Seq::<ChangeView>::empty(), c);
        assert(Seq::<ChangeView>::empty().push(c) =~= seq![c]);
    }
}

/// Recording the same change twice has the effect of recording it once.
pub proof fn law_add_idempotent(m: Map<Seq<char>, Seq<ChangeView>>, branch: Seq<char>, c: ChangeView)
    ensures
        after_add(after_add(m, branch, c), branch, c) == after_add(m, branch, c),
{
    law_add_then_read(m, branch, c);
}

/// Recording a change for one branch leaves every other branch as it was,
/// and keeps the changes the branch already had, in order, in front.
pub proof fn law_add_keeps_the_rest(
    m: Map<Seq<char>, Seq<ChangeView>>,
    branch: Seq<char>,
    c: ChangeView,
    other: Seq<char>,
)
    ensures
        other != branch ==> (after_add(m, branch, c).contains_key(other) == m.contains_key(other)
            && (m.contains_key(other) ==> after_add(m, branch, c)[other] == m[other])),
        m.contains_key(branch) ==> after_add(m, branch, c)[branch].take(m[branch].len() as int)
            == m[branch],
{
    if m.contains_key(branch) && !has_package(m[branch], c.package) {
        assert(m[branch].push(c).take(m[branch].len() as int) =~= m[branch]);
    }
    if m.contains_key(branch) && has_package(m[branch], c.package) {
        assert(m[branch].take(m[branch].len() as int) =~= m[branch]);
    }
}

/// After the changes of a branch are removed, the branch has none: reading
/// them gives nothing, and no list of packages is found to have changes there.
pub proof fn law_remove_then_read(before: ChangesFileData, after: ChangesFileData, branch: Seq<char>)
    requires
        after.changes@ == before.changes@.remove(branch),
    ensures
        branch_changes(Some(after), branch) is None,
{
}

} // verus!
