//! Git commands of a repository and the reading of their output.
//!
//! A `Repository` builds each command as a `GitCommand` (arguments and the
//! directory to run in). Whoever runs the command hands its outcome back as an
//! `Option<GitOutput>` (`None` when the process could not start), and the
//! method of the same name as the command reads that outcome.
use crate::text::{
    is_blank, split_seq, trimmed, views, ws_fields, to_chars, trim_chars, split_chars, split_ws,
    is_blank_chars, path_join, path_join_seq, starts_with_seq, starts_with_chars, is_ws, joined,
    lemma_split_joined, pieces_lack, lemma_first_ws_from, first_ws_from, ws_run_end, ws_fields_from,
};
use crate::workspace_std::errors::GitError;
use crate::workspace_std::types::GitResult;
use crate::workspace_std::utils::{stripped, strip_trailing_newline};
use vstd::prelude::*;

verus! {

/// A git command: its arguments and the directory it runs in.
#[derive(Debug, Clone)]
pub struct GitCommand {
    pub dir: String,
    pub args: Vec<String>,
}

/// What a finished git process gave back. A stream is `None` when it was not
/// valid UTF-8.
#[derive(Debug, Clone)]
pub struct GitOutput {
    pub success: bool,
    pub stdout: Option<String>,
    pub stderr: Option<String>,
}

/// The outcome of a git command: on success its standard output with the
/// final newline and surrounding white space removed.
pub open spec fn git_result(o: Option<GitOutput>) -> Result<Seq<char>, GitError> {
    match o {
        None => Err(GitError::Execution),
        Some(out) => if out.success {
            match out.stdout {
                Some(s) => Ok(stripped(s@)),
                None => Err(GitError::Execution),
            }
        } else {
            match (out.stdout, out.stderr) {
                (Some(a), Some(b)) => Err(GitError::GitError { stdout: a, stderr: b }),
                _ => Err(GitError::Execution),
            }
        },
    }
}

/// Whether the command ran and succeeded with readable output.
pub open spec fn git_ok(o: Option<GitOutput>) -> bool {
    git_result(o) is Ok
}

/// `r` carries the error of `o`, if `o` failed.
pub open spec fn same_error<T>(r: GitResult<T>, o: Option<GitOutput>) -> bool {
    match git_result(o) {
        Ok(_) => r is Ok,
        Err(e) => r == Err::<T, GitError>(e),
    }
}

/// The outcome of a command whose own reading only reports success.
pub open spec fn status_result(r: GitResult<bool>, o: Option<GitOutput>) -> bool {
    same_error(r, o) && (git_ok(o) ==> r == Ok::<bool, GitError>(true))
}

/// The outcome of a command read as its (stripped) output text.
pub open spec fn text_result(r: GitResult<String>, o: Option<GitOutput>) -> bool {
    same_error(r, o) && (r matches Ok(s) ==> git_result(o) == Ok::<Seq<char>, GitError>(s@))
}

/// The outcome of a command read as an optional text: `None` for no output.
pub open spec fn optional_text_result(r: GitResult<Option<String>>, o: Option<GitOutput>) -> bool {
    same_error(r, o) && (r matches Ok(v) ==> match git_result(o) {
        Ok(s) => if s.len() == 0 {
            v is None
        } else {
            v matches Some(t) && t@ == s
        },
        Err(_) => false,
    })
}

/// Reads the outcome of a git process: on success the standard output with
/// its final newline and surrounding white space removed; on failure the
/// error, with what git printed when it is readable.
pub fn execute_git(output: Option<GitOutput>) -> (r: GitResult<String>)
    ensures
        match (r, git_result(output)) {
            (Ok(s), Ok(t)) => s@ == t,
            (Err(e), Err(f)) => e == f,
            _ => false,
        },
{
    match output {
        None => Err(GitError::Execution),
        Some(out) => {
            if out.success {
                match out.stdout {
                    Some(s) => Ok(strip_trailing_newline(&s)),
                    None => Err(GitError::Execution),
                }
            } else {
                match (out.stdout, out.stderr) {
                    (Some(a), Some(b)) => Err(GitError::GitError { stdout: a, stderr: b }),
                    _ => Err(GitError::Execution),
                }
            }
        },
    }
}

pub(crate) fn push_arg(v: &mut Vec<String>, a: &str)
    ensures
        views(final(v)@) == views(old(v)@).push(a@),
{
    v.push(String::from_str(a));
    assert(views(v@) =~= views(old(v)@).push(a@));
}

pub(crate) fn push_string(v: &mut Vec<String>, a: &String)
    ensures
        views(final(v)@) == views(old(v)@).push(a@),
{
    v.push(a.clone());
    assert(views(v@) =~= views(old(v)@).push(a@));
}

fn status_of(output: Option<GitOutput>) -> (r: GitResult<bool>)
    ensures
        status_result(r, output),
{
    match execute_git(output) {
        Ok(_) => Ok(true),
        Err(e) => Err(e),
    }
}

fn text_of(output: Option<GitOutput>) -> (r: GitResult<String>)
    ensures
        text_result(r, output),
{
    execute_git(output)
}

fn optional_text_of(output: Option<GitOutput>) -> (r: GitResult<Option<String>>)
    ensures
        optional_text_result(r, output),
{
    match execute_git(output) {
        Ok(s) => {
            if s.as_str().is_empty() {
                Ok(None)
            } else {
                Ok(Some(s))
            }
        },
        Err(e) => Err(e),
    }
}

/// The record separator of the commit log format.
pub open spec fn log_break() -> Seq<char> {
    "#+#"@
}

/// The field separator of the commit log format.
pub open spec fn log_delimiter() -> Seq<char> {
    "#=#"@
}

/// The pieces of `v` that are not blank, in order.
pub open spec fn non_blank(v: Seq<Seq<char>>) -> Seq<Seq<char>>
    decreases v.len(),
{
    if v.len() == 0 {
        seq![]
    } else if is_blank(v.last()) {
        non_blank(v.drop_last())
    } else {
        non_blank(v.drop_last()).push(v.last())
    }
}

/// The records of a commit log: its non-blank pieces between record breaks.
pub open spec fn commit_records(log: Seq<char>) -> Seq<Seq<char>> {
    non_blank(split_seq(log, log_break()))
}

/// The fields of one commit record.
pub open spec fn commit_fields(record: Seq<char>) -> Seq<Seq<char>> {
    split_seq(trimmed(record), log_delimiter())
}

/// Whether every record of the log has the five fields of a commit.
pub open spec fn commit_log_well_formed(log: Seq<char>) -> bool {
    forall|i: int|
        0 <= i < commit_records(log).len() ==> #[trigger] commit_fields(commit_records(log)[i]).len()
            >= 6
}

/// The lines of a tag listing that are not blank.
pub open spec fn tag_lines(listing: Seq<char>) -> Seq<Seq<char>> {
    non_blank(split_seq(trimmed(listing), "\n"@))
}

/// Whether every line of the listing holds a hash and a tag name.
pub open spec fn tag_listing_well_formed(listing: Seq<char>) -> bool {
    forall|i: int|
        0 <= i < tag_lines(listing).len() ==> #[trigger] ws_fields(tag_lines(listing)[i]).len() >= 2
}

/// The changed file names of a `git diff --name-only` listing.
pub open spec fn file_lines(listing: Seq<char>) -> Seq<Seq<char>> {
    non_blank(split_seq(listing, "\n"@))
}

/// The five text fields of a commit.
pub struct CommitFields {
    pub hash: Seq<char>,
    pub author_name: Seq<char>,
    pub author_email: Seq<char>,
    pub author_date: Seq<char>,
    pub message: Seq<char>,
}

/// The commit that a well-formed record describes.
pub open spec fn commit_of(record: Seq<char>) -> CommitFields {
    let f = commit_fields(record);
    CommitFields {
        hash: f[1],
        author_name: f[2],
        author_email: f[3],
        author_date: f[4],
        message: f[5],
    }
}

/// A git repository, found at `location`.
#[derive(Debug, Clone)]
pub struct Repository {
    location: String,
}

/// A commit as the log shows it.
#[derive(Debug, Clone)]
pub struct RepositoryCommit {
    hash: String,
    author_name: String,
    author_email: String,
    author_date: String,
    message: String,
}

/// A tag and the hash it points to.
#[derive(Debug, Clone)]
pub struct RepositoryRemoteTags {
    tag: String,
    hash: String,
}

impl View for RepositoryCommit {
    type V = CommitFields;

    closed spec fn view(&self) -> CommitFields {
        CommitFields {
            hash: self.hash@,
            author_name: self.author_name@,
            author_email: self.author_email@,
            author_date: self.author_date@,
            message: self.message@,
        }
    }
}

impl View for RepositoryRemoteTags {
    type V = (Seq<char>, Seq<char>);

    /// The hash and the tag.
    closed spec fn view(&self) -> (Seq<char>, Seq<char>) {
        (self.hash@, self.tag@)
    }
}

impl View for Repository {
    type V = Seq<char>;

    /// The location.
    closed spec fn view(&self) -> Seq<char> {
        self.location@
    }
}

/// The commits of a well-formed log, in order.
pub open spec fn commits_of(log: Seq<char>) -> Seq<CommitFields> {
    commit_records(log).map_values(|r: Seq<char>| commit_of(r))
}

/// The (hash, tag) pairs of a well-formed tag listing, in order.
pub open spec fn tags_of(listing: Seq<char>) -> Seq<(Seq<char>, Seq<char>)> {
    tag_lines(listing).map_values(|l: Seq<char>| (ws_fields(l)[0], ws_fields(l)[1]))
}

/// The paths, under `root`, of the files a diff listing names.
pub open spec fn changed_paths(root: Seq<char>, listing: Seq<char>) -> Seq<Seq<char>> {
    file_lines(listing).map_values(|f: Seq<char>| path_join_seq(root, f))
}

/// The non-blank pieces of `v`, in order.
fn non_blank_pieces(v: Vec<String>) -> (r: Vec<Vec<char>>)
    ensures
        r@.map_values(|x: Vec<char>| x@) == non_blank(views(v@)),
{
    let mut out: Vec<Vec<char>> = Vec::new();
    let mut i: usize = 0;
    while i < v.len()
        invariant
            i <= v.len(),
            out@.map_values(|x: Vec<char>| x@) == non_blank(views(v@).take(i as int)),
        decreases v.len() - i,
    {
        let c = to_chars(v[i].as_str());
        let ghost before = out@;
        proof {
            assert(views(v@).take(i + 1).drop_last() =~= views(v@).take(i as int));
            assert(views(v@).take(i + 1).last() == c@);
        }
        if !is_blank_chars(&c) {
            out.push(c);
            assert(out@.map_values(|x: Vec<char>| x@) =~= before.map_values(|x: Vec<char>| x@).push(
                views(v@)[i as int],
            ));
        }
        i = i + 1;
    }
    assert(views(v@).take(v.len() as int) =~= views(v@));
    out
}

/// The commits of a log printed in the `get_commits_since` format.
pub fn parse_commits(log: &String) -> (r: Vec<RepositoryCommit>)
    requires
        commit_log_well_formed(log@),
    ensures
        r@.map_values(|c: RepositoryCommit| c@) == commits_of(log@),
{
    let v = to_chars(log.as_str());
    let brk = to_chars("#+#");
    let delim = to_chars("#=#");
    proof {
        reveal_strlit("#+#");
        reveal_strlit("#=#");
    }
    let records = non_blank_pieces(split_chars(&v, &brk));
    let ghost recs = records@.map_values(|x: Vec<char>| x@);
    assert(recs == commit_records(log@));
    let mut out: Vec<RepositoryCommit> = Vec::new();
    let mut i: usize = 0;
    while i < records.len()
        invariant
            i <= records.len(),
            recs == records@.map_values(|x: Vec<char>| x@),
            recs == commit_records(log@),
            commit_log_well_formed(log@),
            delim@ == log_delimiter(),
            delim.len() == 3,
            out@.map_values(|c: RepositoryCommit| c@) == recs.take(i as int).map_values(
                |r: Seq<char>| commit_of(r),
            ),
        decreases records.len() - i,
    {
        let t = trim_chars(&records[i]);
        let fields = split_chars(&t, &delim);
        assert(recs[i as int] == records@[i as int]@);
        assert(commit_fields(recs[i as int]).len() >= 6);
        assert(views(fields@) == commit_fields(recs[i as int]));
        let c = RepositoryCommit {
            hash: fields[1].clone(),
            author_name: fields[2].clone(),
            author_email: fields[3].clone(),
            author_date: fields[4].clone(),
            message: fields[5].clone(),
        };
        assert(c@ == commit_of(recs[i as int]));
        let ghost before = out@;
        out.push(c);
        assert(recs.take(i + 1) =~= recs.take(i as int).push(recs[i as int]));
        assert(out@.map_values(|c: RepositoryCommit| c@) =~= before.map_values(
            |c: RepositoryCommit| c@,
        ).push(c@));
        i = i + 1;
    }
    assert(recs.take(records.len() as int) =~= recs);
    out
}

/// The tags of a listing printed by `git show-ref --tags` or
/// `git ls-remote --tags`: each line is a hash and a tag.
pub fn parse_tags(listing: &String) -> (r: Vec<RepositoryRemoteTags>)
    requires
        tag_listing_well_formed(listing@),
    ensures
        r@.map_values(|t: RepositoryRemoteTags| t@) == tags_of(listing@),
{
    let v = to_chars(listing.as_str());
    let t = trim_chars(&v);
    let nl = to_chars("\n");
    proof {
        reveal_strlit("\n");
    }
    let lines = non_blank_pieces(split_chars(&t, &nl));
    let ghost ls = lines@.map_values(|x: Vec<char>| x@);
    assert(ls == tag_lines(listing@));
    let mut out: Vec<RepositoryRemoteTags> = Vec::new();
    let mut i: usize = 0;
    while i < lines.len()
        invariant
            i <= lines.len(),
            ls == lines@.map_values(|x: Vec<char>| x@),
            ls == tag_lines(listing@),
            tag_listing_well_formed(listing@),
            out@.map_values(|t: RepositoryRemoteTags| t@) == ls.take(i as int).map_values(
                |l: Seq<char>| (ws_fields(l)[0], ws_fields(l)[1]),
            ),
        decreases lines.len() - i,
    {
        let fields = split_ws(&lines[i]);
        assert(ls[i as int] == lines@[i as int]@);
        assert(ws_fields(ls[i as int]).len() >= 2);
        let tag = RepositoryRemoteTags { hash: fields[0].clone(), tag: fields[1].clone() };
        let ghost before = out@;
        out.push(tag);
        assert(ls.take(i + 1) =~= ls.take(i as int).push(ls[i as int]));
        assert(out@.map_values(|t: RepositoryRemoteTags| t@) =~= before.map_values(
            |t: RepositoryRemoteTags| t@,
        ).push(tag@));
        i = i + 1;
    }
    assert(ls.take(lines.len() as int) =~= ls);
    out
}

/// Whether a commit log can be read by `parse_commits`.
pub fn is_commit_log_well_formed(log: &String) -> (b: bool)
    ensures
        b == commit_log_well_formed(log@),
{
    let v = to_chars(log.as_str());
    let brk = to_chars("#+#");
    let delim = to_chars("#=#");
    proof {
        reveal_strlit("#+#");
        reveal_strlit("#=#");
    }
    let records = non_blank_pieces(split_chars(&v, &brk));
    let ghost recs = records@.map_values(|x: Vec<char>| x@);
    let mut i: usize = 0;
    while i < records.len()
        invariant
            i <= records.len(),
            recs == records@.map_values(|x: Vec<char>| x@),
            recs == commit_records(log@),
            delim@ == log_delimiter(),
            delim.len() == 3,
            forall|k: int| 0 <= k < i ==> #[trigger] commit_fields(recs[k]).len() >= 6,
        decreases records.len() - i,
    {
        let t = trim_chars(&records[i]);
        let fields = split_chars(&t, &delim);
        assert(recs[i as int] == records@[i as int]@);
        if fields.len() < 6 {
            assert(views(fields@) == commit_fields(recs[i as int]));
            assert(commit_fields(recs[i as int]).len() < 6);
            return false;
        }
        i = i + 1;
    }
    true
}

/// Whether a tag listing can be read by `parse_tags`.
pub fn is_tag_listing_well_formed(listing: &String) -> (b: bool)
    ensures
        b == tag_listing_well_formed(listing@),
{
    let v = to_chars(listing.as_str());
    let t = trim_chars(&v);
    let nl = to_chars("\n");
    proof {
        reveal_strlit("\n");
    }
    let lines = non_blank_pieces(split_chars(&t, &nl));
    let ghost ls = lines@.map_values(|x: Vec<char>| x@);
    let mut i: usize = 0;
    while i < lines.len()
        invariant
            i <= lines.len(),
            ls == lines@.map_values(|x: Vec<char>| x@),
            ls == tag_lines(listing@),
            forall|k: int| 0 <= k < i ==> #[trigger] ws_fields(ls[k]).len() >= 2,
        decreases lines.len() - i,
    {
        let fields = split_ws(&lines[i]);
        assert(ls[i as int] == lines@[i as int]@);
        if fields.len() < 2 {
            assert(views(fields@) == ws_fields(ls[i as int]));
            assert(ws_fields(ls[i as int]).len() < 2);
            return false;
        }
        i = i + 1;
    }
    true
}

/// The paths, under `root`, of the files named in a diff listing.
pub fn parse_changed_paths(root: &String, listing: &String) -> (r: Vec<String>)
    ensures
        views(r@) == changed_paths(root@, listing@),
{
    let v = to_chars(listing.as_str());
    let nl = to_chars("\n");
    proof {
        reveal_strlit("\n");
    }
    let lines = non_blank_pieces(split_chars(&v, &nl));
    let ghost ls = lines@.map_values(|x: Vec<char>| x@);
    let mut out: Vec<String> = Vec::new();
    let mut i: usize = 0;
    while i < lines.len()
        invariant
            i <= lines.len(),
            ls == lines@.map_values(|x: Vec<char>| x@),
            ls == file_lines(listing@),
            views(out@) == ls.take(i as int).map_values(|f: Seq<char>| path_join_seq(root@, f)),
        decreases lines.len() - i,
    {
        let name = crate::text::from_chars(lines[i].as_slice());
        let p = path_join(root, &name);
        assert(ls[i as int] == lines@[i as int]@);
        let ghost before = out@;
        out.push(p);
        assert(ls.take(i + 1) =~= ls.take(i as int).push(ls[i as int]));
        assert(views(out@) =~= views(before).push(p@));
        assert(ls.take(i + 1).map_values(|f: Seq<char>| path_join_seq(root@, f)) =~= ls.take(
            i as int,
        ).map_values(|f: Seq<char>| path_join_seq(root@, f)).push(path_join_seq(root@, ls[i as int])));
        i = i + 1;
    }
    assert(ls.take(lines.len() as int) =~= ls);
    out
}

/// The files of `files` that lie under `dir` (that start with it), in order.
pub open spec fn files_under(files: Seq<Seq<char>>, dir: Seq<char>) -> Seq<Seq<char>>
    decreases files.len(),
{
    if files.len() == 0 {
        seq![]
    } else if starts_with_seq(files.last(), dir) {
        files_under(files.drop_last(), dir).push(files.last())
    } else {
        files_under(files.drop_last(), dir)
    }
}

/// For each directory of `dirs` in turn, the files of `files` under it.
pub open spec fn files_under_each(files: Seq<Seq<char>>, dirs: Seq<Seq<char>>) -> Seq<Seq<char>>
    decreases dirs.len(),
{
    if dirs.len() == 0 {
        seq![]
    } else {
        files_under_each(files, dirs.drop_last()) + files_under(files, dirs.last())
    }
}

/// The files of `files` under `dir`, in order.
pub fn filter_files_under(files: &Vec<String>, dir: &String) -> (r: Vec<String>)
    ensures
        views(r@) == files_under(views(files@), dir@),
{
    let d = to_chars(dir.as_str());
    let mut out: Vec<String> = Vec::new();
    let mut i: usize = 0;
    while i < files.len()
        invariant
            i <= files.len(),
            d@ == dir@,
            views(out@) == files_under(views(files@).take(i as int), dir@),
        decreases files.len() - i,
    {
        let f = to_chars(files[i].as_str());
        proof {
            assert(views(files@).take(i + 1).drop_last() =~= views(files@).take(i as int));
            assert(views(files@).take(i + 1).last() == files@[i as int]@);
        }
        if starts_with_chars(&f, &d) {
            let ghost before = out@;
            out.push(files[i].clone());
            assert(views(out@) =~= views(before).push(files@[i as int]@));
        }
        i = i + 1;
    }
    assert(views(files@).take(files.len() as int) =~= views(files@));
    out
}

impl Repository {
    /// The repository at `location`.
    pub fn new(location: &String) -> (r: Self)
        ensures
            r@ == location@,
    {
        Repository { location: location.clone() }
    }

    /// The location of the repository.
    pub fn get_repo_path(&self) -> (r: &String)
        ensures
            r@ == self@,
    {
        &self.location
    }

    fn command(&self) -> (c: GitCommand)
        ensures
            c.dir@ == self@,
            c.args@.len() == 0,
    {
        GitCommand { dir: self.location.clone(), args: Vec::new() }
    }

    /// `git init --initial-branch <initial_branch>`.
    pub fn init_command(&self, initial_branch: &String) -> (c: GitCommand)
        ensures
            c.dir@ == self@,
            views(c.args@) == seq!["init"@, "--initial-branch"@, initial_branch@],
    {
        let mut c = self.command();
        push_arg(&mut c.args, "init");
        push_arg(&mut c.args, "--initial-branch");
        push_string(&mut c.args, initial_branch);
        c
    }

    /// Whether the repository was initialised: the outcome of
    /// `init_command`. The two `config` commands are run too, but their
    /// reading (`config`) never fails, so they do not change the answer.
    pub fn init(
        &self,
        init_output: Option<GitOutput>,
        user_output: Option<GitOutput>,
        email_output: Option<GitOutput>,
    ) -> (r: GitResult<bool>)
        ensures
            r == Ok::<bool, GitError>(git_ok(init_output)),
    {
        let init = status_of(init_output);
        let config = self.config(user_output, email_output);
        Ok(init.is_ok() && config.is_ok())
    }

    /// `git rev-parse --is-inside-work-tree`.
    pub fn is_vcs_command(&self) -> (c: GitCommand)
        ensures
            c.dir@ == self@,
            views(c.args@) == seq!["rev-parse"@, "--is-inside-work-tree"@],
    {
        let mut c = self.command();
        push_arg(&mut c.args, "rev-parse");
        push_arg(&mut c.args, "--is-inside-work-tree");
        c
    }

    /// Whether the location lies inside a work tree: git printed `true`.
    pub fn is_vcs(&self, output: Option<GitOutput>) -> (r: GitResult<bool>)
        ensures
            same_error(r, output),
            r matches Ok(b) ==> (git_result(output) matches Ok(s) && b == (trimmed(s) == "true"@)),
    {
        match execute_git(output) {
            Ok(s) => {
                let t = trim_chars(&to_chars(s.as_str()));
                let yes = to_chars("true");
                Ok(crate::text::chars_eq(&t, &yes))
            },
            Err(e) => Err(e),
        }
    }

    /// `git config user.name <username>`.
    pub fn config_user_command(&self, username: &String) -> (c: GitCommand)
        ensures
            c.dir@ == self@,
            views(c.args@) == seq!["config"@, "user.name"@, username@],
    {
        let mut c = self.command();
        push_arg(&mut c.args, "config");
        push_arg(&mut c.args, "user.name");
        push_string(&mut c.args, username);
        c
    }

    /// `git config user.email <email>`.
    pub fn config_email_command(&self, email: &String) -> (c: GitCommand)
        ensures
            c.dir@ == self@,
            views(c.args@) == seq!["config"@, "user.email"@, email@],
    {
        let mut c = self.command();
        push_arg(&mut c.args, "config");
        push_arg(&mut c.args, "user.email");
        push_string(&mut c.args, email);
        c
    }

    /// Whether both configuration commands succeeded.
    pub fn config(&self, user_output: Option<GitOutput>, email_output: Option<GitOutput>) -> (r:
        GitResult<bool>)
        ensures
            r == Ok::<bool, GitError>(git_ok(user_output) && git_ok(email_output)),
    {
        let user_config = status_of(user_output);
        let email_config = status_of(email_output);
        Ok(user_config.is_ok() && email_config.is_ok())
    }

    /// `git add .`.
    pub fn add_all_command(&self) -> (c: GitCommand)
        ensures
            c.dir@ == self@,
            views(c.args@) == seq!["add"@, "."@],
    {
        let mut c = self.command();
        push_arg(&mut c.args, "add");
        push_arg(&mut c.args, ".");
        c
    }

    /// Whether the files were staged.
    pub fn add_all(&self, output: Option<GitOutput>) -> (r: GitResult<bool>)
        ensures
            status_result(r, output),
    {
        status_of(output)
    }

    /// `git add <path>`.
    pub fn add_command(&self, path: &String) -> (c: GitCommand)
        ensures
            c.dir@ == self@,
            views(c.args@) == seq!["add"@, path@],
    {
        let mut c = self.command();
        push_arg(&mut c.args, "add");
        push_string(&mut c.args, path);
        c
    }

    /// Whether the file was staged.
    pub fn add(&self, output: Option<GitOutput>) -> (r: GitResult<bool>)
        ensures
            status_result(r, output),
    {
        status_of(output)
    }

    /// `git fetch origin`, with `--tags --force` when tags are asked for.
    pub fn fetch_all_command(&self, fetch_tags: Option<bool>) -> (c: GitCommand)
        ensures
            c.dir@ == self@,
            views(c.args@) == if fetch_tags == Some(true) {
                seq!["fetch"@, "origin"@, "--tags"@, "--force"@]
            } else {
                seq!["fetch"@, "origin"@]
            },
    {
        let mut c = self.command();
        push_arg(&mut c.args, "fetch");
        push_arg(&mut c.args, "origin");
        if fetch_tags.unwrap_or(false) {
            push_arg(&mut c.args, "--tags");
            push_arg(&mut c.args, "--force");
        }
        c
    }

    /// Whether the fetch succeeded.
    pub fn fetch_all(&self, output: Option<GitOutput>) -> (r: GitResult<bool>)
        ensures
            status_result(r, output),
    {
        status_of(output)
    }

    /// `git merge-base <sha> HEAD`.
    pub fn get_diverged_commit_command(&self, sha: &String) -> (c: GitCommand)
        ensures
            c.dir@ == self@,
            views(c.args@) == seq!["merge-base"@, sha@, "HEAD"@],
    {
        let mut c = self.command();
        push_arg(&mut c.args, "merge-base");
        push_string(&mut c.args, sha);
        push_arg(&mut c.args, "HEAD");
        c
    }

    /// The commit where the branch diverged.
    pub fn get_diverged_commit(&self, output: Option<GitOutput>) -> (r: GitResult<String>)
        ensures
            text_result(r, output),
    {
        text_of(output)
    }

    /// `git rev-parse --short HEAD`.
    pub fn get_current_sha_command(&self) -> (c: GitCommand)
        ensures
            c.dir@ == self@,
            views(c.args@) == seq!["rev-parse"@, "--short"@, "HEAD"@],
    {
        let mut c = self.command();
        push_arg(&mut c.args, "rev-parse");
        push_arg(&mut c.args, "--short");
        push_arg(&mut c.args, "HEAD");
        c
    }

    /// The short hash of the current commit.
    pub fn get_current_sha(&self, output: Option<GitOutput>) -> (r: GitResult<String>)
        ensures
            text_result(r, output),
    {
        text_of(output)
    }

    /// `git rev-parse --short HEAD~1`.
    pub fn get_previous_sha_command(&self) -> (c: GitCommand)
        ensures
            c.dir@ == self@,
            views(c.args@) == seq!["rev-parse"@, "--short"@, "HEAD~1"@],
    {
        let mut c = self.command();
        push_arg(&mut c.args, "rev-parse");
        push_arg(&mut c.args, "--short");
        push_arg(&mut c.args, "HEAD~1");
        c
    }

    /// The short hash of the previous commit.
    pub fn get_previous_sha(&self, output: Option<GitOutput>) -> (r: GitResult<String>)
        ensures
            text_result(r, output),
    {
        text_of(output)
    }

    /// The first-commit query for `branch` (`main` when none is given), with
    /// the arguments exactly as this library has always passed them.
    pub fn get_first_sha_command(&self, branch: Option<String>) -> (c: GitCommand)
        ensures
            c.dir@ == self@,
            views(c.args@) == seq![
                ""@,
                (match branch {
                    Some(b) => b@,
                    None => "main"@,
                }) + "..HEAD"@,
                "--online"@,
                "--pretty=format:%h"@,
                "|"@,
                "tail"@,
                "-1"@,
            ],
    {
        let branch = match branch {
            Some(branch) => branch,
            None => String::from_str("main"),
        };
        let range = branch.concat("..HEAD");
        let mut c = self.command();
        push_arg(&mut c.args, "");
        push_string(&mut c.args, &range);
        push_arg(&mut c.args, "--online");
        push_arg(&mut c.args, "--pretty=format:%h");
        push_arg(&mut c.args, "|");
        push_arg(&mut c.args, "tail");
        push_arg(&mut c.args, "-1");
        c
    }

    /// The first commit of the branch, as printed.
    pub fn get_first_sha(&self, output: Option<GitOutput>) -> (r: GitResult<String>)
        ensures
            text_result(r, output),
    {
        text_of(output)
    }

    /// `git status --porcelain`.
    pub fn is_workdir_unclean_command(&self) -> (c: GitCommand)
        ensures
            c.dir@ == self@,
            views(c.args@) == seq!["status"@, "--porcelain"@],
    {
        let mut c = self.command();
        push_arg(&mut c.args, "status");
        push_arg(&mut c.args, "--porcelain");
        c
    }

    /// Whether the work tree has uncommitted changes: git printed something.
    pub fn is_workdir_unclean(&self, output: Option<GitOutput>) -> (r: GitResult<bool>)
        ensures
            same_error(r, output),
            r matches Ok(b) ==> (git_result(output) matches Ok(s) && b == (s.len() > 0)),
    {
        match execute_git(output) {
            Ok(s) => Ok(!s.as_str().is_empty()),
            Err(e) => Err(e),
        }
    }

    /// `git rev-parse --abbrev-ref HEAD`.
    pub fn get_current_branch_command(&self) -> (c: GitCommand)
        ensures
            c.dir@ == self@,
            views(c.args@) == seq!["rev-parse"@, "--abbrev-ref"@, "HEAD"@],
    {
        let mut c = self.command();
        push_arg(&mut c.args, "rev-parse");
        push_arg(&mut c.args, "--abbrev-ref");
        push_arg(&mut c.args, "HEAD");
        c
    }

    /// The current branch, or `None` when git printed nothing.
    pub fn get_current_branch(&self, output: Option<GitOutput>) -> (r: GitResult<Option<String>>)
        ensures
            optional_text_result(r, output),
    {
        optional_text_of(output)
    }

    /// `git --no-pager branch --no-color --no-column --format
    /// "%(refname:lstrip=2)" --contains <sha>`.
    pub fn get_branch_from_commit_command(&self, sha: &String) -> (c: GitCommand)
        ensures
            c.dir@ == self@,
            views(c.args@) == seq![
                "--no-pager"@,
                "branch"@,
                "--no-color"@,
                "--no-column"@,
                "--format"@,
                "\"%(refname:lstrip=2)\""@,
                "--contains"@,
                sha@,
            ],
    {
        let mut c = self.command();
        push_arg(&mut c.args, "--no-pager");
        push_arg(&mut c.args, "branch");
        push_arg(&mut c.args, "--no-color");
        push_arg(&mut c.args, "--no-column");
        push_arg(&mut c.args, "--format");
        push_arg(&mut c.args, "\"%(refname:lstrip=2)\"");
        push_arg(&mut c.args, "--contains");
        push_string(&mut c.args, sha);
        c
    }

    /// The branches holding the commit, or `None` when git printed nothing.
    pub fn get_branch_from_commit(&self, output: Option<GitOutput>) -> (r: GitResult<
        Option<String>,
    >)
        ensures
            optional_text_result(r, output),
    {
        optional_text_of(output)
    }

    /// `git tag -a <tag> -m <message>`; the message defaults to the tag.
    pub fn tag_command(&self, tag: &String, message: Option<String>) -> (c: GitCommand)
        ensures
            c.dir@ == self@,
            views(c.args@) == seq![
                "tag"@,
                "-a"@,
                tag@,
                "-m"@,
                match message {
                    Some(m) => m@,
                    None => tag@,
                },
            ],
    {
        let msg = match message {
            Some(m) => m,
            None => tag.clone(),
        };
        let mut c = self.command();
        push_arg(&mut c.args, "tag");
        push_arg(&mut c.args, "-a");
        push_string(&mut c.args, tag);
        push_arg(&mut c.args, "-m");
        push_string(&mut c.args, &msg);
        c
    }

    /// Whether the tag was created.
    pub fn tag(&self, output: Option<GitOutput>) -> (r: GitResult<bool>)
        ensures
            status_result(r, output),
    {
        status_of(output)
    }

    /// `git push --no-verify`, with `--follow-tags` when asked for.
    pub fn push_command(&self, follow_tags: Option<bool>) -> (c: GitCommand)
        ensures
            c.dir@ == self@,
            views(c.args@) == if follow_tags == Some(true) {
                seq!["push"@, "--no-verify"@, "--follow-tags"@]
            } else {
                seq!["push"@, "--no-verify"@]
            },
    {
        let mut c = self.command();
        push_arg(&mut c.args, "push");
        push_arg(&mut c.args, "--no-verify");
        if follow_tags.unwrap_or(false) {
            push_arg(&mut c.args, "--follow-tags");
        }
        c
    }

    /// Whether the push succeeded.
    pub fn push(&self, output: Option<GitOutput>) -> (r: GitResult<bool>)
        ensures
            status_result(r, output),
    {
        status_of(output)
    }

    /// `git commit -F <message_file> --no-verify`.
    pub fn commit_command(&self, message_file: &String) -> (c: GitCommand)
        ensures
            c.dir@ == self@,
            views(c.args@) == seq!["commit"@, "-F"@, message_file@, "--no-verify"@],
    {
        let mut c = self.command();
        push_arg(&mut c.args, "commit");
        push_arg(&mut c.args, "-F");
        push_string(&mut c.args, message_file);
        push_arg(&mut c.args, "--no-verify");
        c
    }

    /// Whether the commit was made.
    pub fn commit(&self, output: Option<GitOutput>) -> (r: GitResult<bool>)
        ensures
            status_result(r, output),
    {
        status_of(output)
    }

    /// `git --no-pager diff --name-only <sha> HEAD`.
    pub fn get_all_files_changed_since_sha_command(&self, sha: &String) -> (c: GitCommand)
        ensures
            c.dir@ == self@,
            views(c.args@) == seq!["--no-pager"@, "diff"@, "--name-only"@, sha@, "HEAD"@],
    {
        let mut c = self.command();
        push_arg(&mut c.args, "--no-pager");
        push_arg(&mut c.args, "diff");
        push_arg(&mut c.args, "--name-only");
        push_string(&mut c.args, sha);
        push_arg(&mut c.args, "HEAD");
        c
    }

    /// The paths, under the repository, of the files the diff names. Of
    /// these, the caller keeps those that exist on disk.
    pub fn get_all_files_changed_since_sha(&self, output: Option<GitOutput>) -> (r: GitResult<
        Vec<String>,
    >)
        ensures
            same_error(r, output),
            r matches Ok(v) ==> (git_result(output) matches Ok(s) && views(v@) == changed_paths(
                self@,
                s,
            )),
    {
        match execute_git(output) {
            Ok(s) => Ok(parse_changed_paths(&self.location, &s)),
            Err(e) => Err(e),
        }
    }

    /// `git --no-pager log --format=<commit format> --date=rfc2822`, limited to
    /// the commits after `since` and to the path `relative` when given.
    pub fn get_commits_since_command(&self, since: Option<String>, relative: Option<String>) -> (c:
        GitCommand)
        ensures
            c.dir@ == self@,
            views(c.args@) == seq![
                "--no-pager"@,
                "log"@,
                "--format=#=#%H#=#%an#=#%ae#=#%ad#=#%B#+#"@,
                "--date=rfc2822"@,
            ] + (match since {
                Some(s) => seq![s@ + ".."@],
                None => seq![],
            }) + (match relative {
                Some(p) => seq!["--"@, p@],
                None => seq![],
            }),
    {
        let mut c = self.command();
        push_arg(&mut c.args, "--no-pager");
        push_arg(&mut c.args, "log");
        push_arg(&mut c.args, "--format=#=#%H#=#%an#=#%ae#=#%ad#=#%B#+#");
        push_arg(&mut c.args, "--date=rfc2822");
        let ghost base = views(c.args@);
        match since {
            Some(s) => {
                let range = s.concat("..");
                push_string(&mut c.args, &range);
            },
            None => {},
        }
        let ghost mid = views(c.args@);
        match relative {
            Some(p) => {
                push_arg(&mut c.args, "--");
                push_string(&mut c.args, &p);
            },
            None => {},
        }
        assert(views(c.args@) =~= base + (match since {
            Some(s) => seq![s@ + ".."@],
            None => seq![],
        }) + (match relative {
            Some(p) => seq!["--"@, p@],
            None => seq![],
        }));
        c
    }

    /// The commits of the log, newest first as git prints them.
    pub fn get_commits_since(&self, output: Option<GitOutput>) -> (r: GitResult<
        Vec<RepositoryCommit>,
    >)
        requires
            git_result(output) matches Ok(s) ==> commit_log_well_formed(s),
        ensures
            same_error(r, output),
            r matches Ok(v) ==> (git_result(output) matches Ok(s) && v@.map_values(
                |c: RepositoryCommit| c@,
            ) == commits_of(s)),
    {
        match execute_git(output) {
            Ok(s) => Ok(parse_commits(&s)),
            Err(e) => Err(e),
        }
    }

    /// `git show-ref --tags` for local tags, else `git ls-remote --tags origin`.
    pub fn get_remote_or_local_tags_command(&self, local: Option<bool>) -> (c: GitCommand)
        ensures
            c.dir@ == self@,
            views(c.args@) == if local == Some(true) {
                seq!["show-ref"@, "--tags"@]
            } else {
                seq!["ls-remote"@, "--tags"@, "origin"@]
            },
    {
        let mut c = self.command();
        match local {
            Some(true) => {
                push_arg(&mut c.args, "show-ref");
                push_arg(&mut c.args, "--tags");
            },
            _ => {
                push_arg(&mut c.args, "ls-remote");
                push_arg(&mut c.args, "--tags");
                push_arg(&mut c.args, "origin");
            },
        }
        c
    }

    /// The tags of the listing, in the order git printed them.
    pub fn get_remote_or_local_tags(&self, output: Option<GitOutput>) -> (r: GitResult<
        Vec<RepositoryRemoteTags>,
    >)
        requires
            git_result(output) matches Ok(s) ==> tag_listing_well_formed(s),
        ensures
            same_error(r, output),
            r matches Ok(v) ==> (git_result(output) matches Ok(s) && v@.map_values(
                |t: RepositoryRemoteTags| t@,
            ) == tags_of(s)),
    {
        match execute_git(output) {
            Ok(s) => Ok(parse_tags(&s)),
            Err(e) => Err(e),
        }
    }

    /// The changed files (`files`, from `get_all_files_changed_since_sha` for
    /// the branch) that lie under each package path, package by package.
    pub fn get_all_files_changed_since_branch(
        &self,
        packages_paths: &Vec<String>,
        files: &Vec<String>,
    ) -> (r: Vec<String>)
        ensures
            views(r@) == files_under_each(views(files@), views(packages_paths@)),
    {
        let mut all_files: Vec<String> = Vec::new();
        let mut i: usize = 0;
        while i < packages_paths.len()
            invariant
                i <= packages_paths.len(),
                views(all_files@) == files_under_each(
                    views(files@),
                    views(packages_paths@).take(i as int),
                ),
            decreases packages_paths.len() - i,
        {
            let mut pkg_files = filter_files_under(files, &packages_paths[i]);
            let ghost before = views(all_files@);
            let ghost added = views(pkg_files@);
            all_files.append(&mut pkg_files);
            proof {
                assert(views(packages_paths@).take(i + 1).drop_last() =~= views(packages_paths@).take(
                    i as int,
                ));
                assert(views(packages_paths@).take(i + 1).last() == packages_paths@[i as int]@);
                assert(views(all_files@) =~= before + added);
            }
            i = i + 1;
        }
        assert(views(packages_paths@).take(packages_paths.len() as int) =~= views(packages_paths@));
        all_files
    }
}

impl RepositoryCommit {
    /// A commit with the given fields.
    pub fn new(
        hash: String,
        author_name: String,
        author_email: String,
        author_date: String,
        message: String,
    ) -> (c: Self)
        ensures
            c@ == (CommitFields {
                hash: hash@,
                author_name: author_name@,
                author_email: author_email@,
                author_date: author_date@,
                message: message@,
            }),
    {
        RepositoryCommit { hash, author_name, author_email, author_date, message }
    }

    pub fn get_message(&self) -> (r: &String)
        ensures
            r@ == self@.message,
    {
        &self.message
    }

    pub fn set_message(&mut self, message: &String)
        ensures
            final(self)@ == (CommitFields { message: message@, ..old(self)@ }),
    {
        self.message = message.clone();
    }

    pub fn get_author_name(&self) -> (r: &String)
        ensures
            r@ == self@.author_name,
    {
        &self.author_name
    }

    pub fn set_author_name(&mut self, author_name: &String)
        ensures
            final(self)@ == (CommitFields { author_name: author_name@, ..old(self)@ }),
    {
        self.author_name = author_name.clone();
    }

    pub fn get_author_email(&self) -> (r: &String)
        ensures
            r@ == self@.author_email,
    {
        &self.author_email
    }

    pub fn set_author_email(&mut self, author_email: &String)
        ensures
            final(self)@ == (CommitFields { author_email: author_email@, ..old(self)@ }),
    {
        self.author_email = author_email.clone();
    }

    pub fn get_author_date(&self) -> (r: &String)
        ensures
            r@ == self@.author_date,
    {
        &self.author_date
    }

    pub fn set_author_date(&mut self, author_date: &String)
        ensures
            final(self)@ == (CommitFields { author_date: author_date@, ..old(self)@ }),
    {
        self.author_date = author_date.clone();
    }

    pub fn get_hash(&self) -> (r: &String)
        ensures
            r@ == self@.hash,
    {
        &self.hash
    }

    pub fn set_hash(&mut self, hash: &String)
        ensures
            final(self)@ == (CommitFields { hash: hash@, ..old(self)@ }),
    {
        self.hash = hash.clone();
    }

    /// The fields by name, in a fixed order: hash, author name, author email,
    /// author date, message.
    pub fn get_hash_map(&self) -> (m: Vec<(String, String)>)
        ensures
            m@.map_values(|p: (String, String)| (p.0@, p.1@)) == seq![
                ("hash"@, self@.hash),
                ("author_name"@, self@.author_name),
                ("author_email"@, self@.author_email),
                ("author_date"@, self@.author_date),
                ("message"@, self@.message),
            ],
    {
        let mut m: Vec<(String, String)> = Vec::new();
        m.push((String::from_str("hash"), self.hash.clone()));
        m.push((String::from_str("author_name"), self.author_name.clone()));
        m.push((String::from_str("author_email"), self.author_email.clone()));
        m.push((String::from_str("author_date"), self.author_date.clone()));
        m.push((String::from_str("message"), self.message.clone()));
        assert(m@.map_values(|p: (String, String)| (p.0@, p.1@)) =~= seq![
            ("hash"@, self@.hash),
            ("author_name"@, self@.author_name),
            ("author_email"@, self@.author_email),
            ("author_date"@, self@.author_date),
            ("message"@, self@.message),
        ]);
        m
    }
}

impl RepositoryRemoteTags {
    /// A tag pointing to `hash`.
    pub fn new(hash: String, tag: String) -> (t: Self)
        ensures
            t@ == (hash@, tag@),
    {
        RepositoryRemoteTags { hash, tag }
    }

    pub fn get_hash(&self) -> (r: &String)
        ensures
            r@ == self@.0,
    {
        &self.hash
    }

    pub fn set_hash(&mut self, hash: &String)
        ensures
            final(self)@ == (hash@, old(self)@.1),
    {
        self.hash = hash.clone();
    }

    pub fn get_tag(&self) -> (r: &String)
        ensures
            r@ == self@.1,
    {
        &self.tag
    }

    pub fn set_tag(&mut self, tag: &String)
        ensures
            final(self)@ == (old(self)@.0, tag@),
    {
        self.tag = tag.clone();
    }

    /// The fields by name: hash, then tag.
    pub fn get_hash_map(&self) -> (m: Vec<(String, String)>)
        ensures
            m@.map_values(|p: (String, String)| (p.0@, p.1@)) == seq![
                ("hash"@, self@.0),
                ("tag"@, self@.1),
            ],
    {
        let mut m: Vec<(String, String)> = Vec::new();
        m.push((String::from_str("hash"), self.hash.clone()));
        m.push((String::from_str("tag"), self.tag.clone()));
        assert(m@.map_values(|p: (String, String)| (p.0@, p.1@)) =~= seq![
            ("hash"@, self@.0),
            ("tag"@, self@.1),
        ]);
        m
    }
}

/// A record of the commit log, `#=#<hash>#=#<author name>#=#<author
/// email>#=#<author date>#=#<message>`, reads as those five fields, each in
/// its own place, when none of them holds a `#` and the message does not end
/// with white space.
pub proof fn law_commit_record_fields(
    hash: Seq<char>,
    name: Seq<char>,
    email: Seq<char>,
    date: Seq<char>,
    message: Seq<char>,
)
    requires
        forall|i: int| 0 <= i < hash.len() ==> hash[i] != '#',
        forall|i: int| 0 <= i < name.len() ==> name[i] != '#',
        forall|i: int| 0 <= i < email.len() ==> email[i] != '#',
        forall|i: int| 0 <= i < date.len() ==> date[i] != '#',
        forall|i: int| 0 <= i < message.len() ==> message[i] != '#',
        message.len() == 0 || !is_ws(message.last()),
    ensures
        commit_of(
            "#=#"@ + hash + "#=#"@ + name + "#=#"@ + email + "#=#"@ + date + "#=#"@ + message,
        ) == (CommitFields {
            hash: hash,
            author_name: name,
            author_email: email,
            author_date: date,
            message: message,
        }),
{
    reveal_strlit("#=#");
    let d = "#=#"@;
    let record = d + hash + d + name + d + email + d + date + d + message;
    let ps = seq![Seq::<char>::empty(), hash, name, email, date, message];
    assert(joined(ps.take(1), d) == Seq::<char>::empty()) by {
        assert(ps.take(1).len() == 1);
    }
    assert(ps.take(2).drop_last() =~= ps.take(1));
    assert(ps.take(3).drop_last() =~= ps.take(2));
    assert(ps.take(4).drop_last() =~= ps.take(3));
    assert(ps.take(5).drop_last() =~= ps.take(4));
    assert(ps.take(6).drop_last() =~= ps.take(5));
    assert(joined(ps.take(2), d) =~= d + hash);
    assert(joined(ps.take(3), d) =~= d + hash + d + name);
    assert(joined(ps.take(4), d) =~= d + hash + d + name + d + email);
    assert(joined(ps.take(5), d) =~= d + hash + d + name + d + email + d + date);
    assert(joined(ps.take(6), d) =~= record);
    assert(ps.take(6) =~= ps);
    assert(pieces_lack(ps, d[0])) by {
        assert forall|k: int, j: int| 0 <= k < ps.len() && 0 <= j < ps[k].len() implies #[trigger] ps[k][j] != d[0] by {
            if k == 1 {
                assert(ps[k][j] == hash[j]);
            } else if k == 2 {
                assert(ps[k][j] == name[j]);
            } else if k == 3 {
                assert(ps[k][j] == email[j]);
            } else if k == 4 {
                assert(ps[k][j] == date[j]);
            } else if k == 5 {
                assert(ps[k][j] == message[j]);
            }
        }
    }
    lemma_split_joined(ps, d);
    assert(record[0] == '#');
    if message.len() > 0 {
        assert(record.last() == message.last());
    } else {
        assert(record.last() == '#');
    }
    assert(trimmed(record) == record);
    assert(commit_fields(record) == ps);
}

/// `pieces` with one blank piece added at the end keeps its non-blank
/// pieces, and pieces that are all non-blank are kept as they are.
proof fn lemma_non_blank_all(v: Seq<Seq<char>>)
    requires
        forall|k: int| 0 <= k < v.len() ==> !is_blank(#[trigger] v[k]),
    ensures
        non_blank(v) == v,
        non_blank(v.push(Seq::empty())) == v,
    decreases v.len(),
{
    if v.len() > 0 {
        lemma_non_blank_all(v.drop_last());
        assert(v.drop_last().push(v.last()) =~= v);
    }
    assert(v.push(Seq::<char>::empty()).drop_last() =~= v);
    assert(is_blank(Seq::<char>::empty()));
}

/// A `git diff --name-only` listing names one file per line: each non-blank
/// line that holds no line feed gives exactly one path, the root joined with
/// that line, in the order of the lines, whether or not the last line ends
/// with a line feed.
pub proof fn law_changed_paths_one_per_line(root: Seq<char>, lines: Seq<Seq<char>>)
    requires
        forall|k: int| 0 <= k < lines.len() ==> !is_blank(#[trigger] lines[k]),
        forall|k: int, j: int| 0 <= k < lines.len() && 0 <= j < lines[k].len() ==> #[trigger] lines[k][j] != '\n',
    ensures
        changed_paths(root, joined(lines.push(Seq::empty()), "\n"@)) == lines.map_values(
            |l: Seq<char>| path_join_seq(root, l),
        ),
        lines.len() > 0 ==> changed_paths(root, joined(lines, "\n"@)) == lines.map_values(
            |l: Seq<char>| path_join_seq(root, l),
        ),
        changed_paths(root, joined(lines.push(Seq::empty()), "\n"@)).len() == lines.len(),
{
    reveal_strlit("\n");
    let d = "\n"@;
    let ps = lines.push(Seq::<char>::empty());
    assert(pieces_lack(ps, d[0])) by {
        assert forall|k: int, j: int| 0 <= k < ps.len() && 0 <= j < ps[k].len() implies #[trigger] ps[k][j] != d[0] by {
            assert(ps[k] == lines[k]);
        }
    }
    lemma_split_joined(ps, d);
    lemma_non_blank_all(lines);
    assert(file_lines(joined(ps, d)) == lines);
    if lines.len() > 0 {
        assert(pieces_lack(lines, d[0]));
        lemma_split_joined(lines, d);
    }
}

/// Whether `s` is a non-empty word: no white space in it.
pub open spec fn is_word(s: Seq<char>) -> bool {
    s.len() > 0 && forall|i: int| 0 <= i < s.len() ==> !is_ws(#[trigger] s[i])
}

/// A line `<hash> <tag>` of two words splits into the hash and the tag.
proof fn lemma_hash_and_tag(hash: Seq<char>, tag: Seq<char>)
    requires
        is_word(hash),
        is_word(tag),
    ensures
        ws_fields(hash + " "@ + tag) == seq![hash, tag],
{
    reveal_strlit(" ");
    let s = hash + " "@ + tag;
    let h = hash.len() as int;
    assert(s[h] == ' ');
    assert forall|j: int| 0 <= j < h implies !is_ws(#[trigger] s[j]) by {
        assert(s[j] == hash[j]);
    }
    lemma_first_ws_from(s, 0);
    let f = first_ws_from(s, 0);
    if f == -1 {
        assert(!is_ws(s[h]));
    }
    if f > h {
        assert(!is_ws(s[h]));
    }
    assert(f == h);
    assert(!is_ws(s[h + 1])) by {
        assert(s[h + 1] == tag[0]);
    }
    assert(ws_run_end(s, h + 1) == h + 1);
    assert(ws_run_end(s, h) == h + 1);
    assert forall|j: int| h + 1 <= j < s.len() implies !is_ws(#[trigger] s[j]) by {
        assert(s[j] == tag[j - h - 1]);
    }
    lemma_first_ws_from(s, h + 1);
    assert(first_ws_from(s, h + 1) == -1);
    assert(ws_fields_from(s, h + 1) == seq![s.subrange(h + 1, s.len() as int)]);
    assert(s.subrange(h + 1, s.len() as int) =~= tag);
    assert(s.subrange(0, h) =~= hash);
    assert(ws_fields_from(s, 0) =~= seq![hash, tag]);
}

/// A tag listing (`git show-ref --tags`, `git ls-remote --tags`) names one
/// tag per line, `<hash> <tag>`: it reads as the (hash, tag) pairs of its
/// lines, in order, whether or not the last line ends with a line feed.
pub proof fn law_tag_listing_pairs(hashes: Seq<Seq<char>>, tags: Seq<Seq<char>>)
    requires
        hashes.len() == tags.len(),
        hashes.len() > 0,
        forall|k: int| 0 <= k < hashes.len() ==> is_word(#[trigger] hashes[k]),
        forall|k: int| 0 <= k < tags.len() ==> is_word(#[trigger] tags[k]),
    ensures
        ({
            let lines = Seq::new(hashes.len(), |k: int| hashes[k] + " "@ + tags[k]);
            let pairs = Seq::new(hashes.len(), |k: int| (hashes[k], tags[k]));
            &&& tag_listing_well_formed(joined(lines, "\n"@))
            &&& tags_of(joined(lines, "\n"@)) == pairs
            &&& tags_of(joined(lines, "\n"@) + "\n"@) == pairs
        }),
{
    reveal_strlit(" ");
    reveal_strlit("\n");
    let lines = Seq::new(hashes.len(), |k: int| hashes[k] + " "@ + tags[k]);
    let pairs = Seq::new(hashes.len(), |k: int| (hashes[k], tags[k]));
    let d = "\n"@;
    let listing = joined(lines, d);
    assert(pieces_lack(lines, d[0])) by {
        assert forall|k: int, j: int| 0 <= k < lines.len() && 0 <= j < lines[k].len() implies #[trigger] lines[k][j]
            != d[0] by {
            let l = lines[k];
            let h = hashes[k].len() as int;
            if j < h {
                assert(l[j] == hashes[k][j]);
            } else if j > h {
                assert(l[j] == tags[k][j - h - 1]);
            }
        }
    }
    lemma_split_joined(lines, d);
    lemma_joined_ends(lines, d);
    assert(listing[0] == lines[0][0]);
    assert(lines[0][0] == hashes[0][0]);
    let n = lines.len() - 1;
    assert(listing.last() == lines[n].last());
    assert(lines[n].last() == tags[n].last()) by {
        assert(lines[n] == hashes[n] + " "@ + tags[n]);
    }
    assert(trimmed(listing) == listing);
    assert(trimmed(listing + d) == trimmed((listing + d).drop_last()));
    assert((listing + d).drop_last() =~= listing);
    assert forall|k: int| 0 <= k < lines.len() implies !is_blank(#[trigger] lines[k]) by {
        assert(lines[k][0] == hashes[k][0]);
    }
    lemma_non_blank_all(lines);
    assert(tag_lines(listing) == lines);
    assert forall|k: int| 0 <= k < lines.len() implies #[trigger] ws_fields(lines[k]) == seq![hashes[k], tags[k]] by {
        lemma_hash_and_tag(hashes[k], tags[k]);
    }
    assert(tags_of(listing) =~= pairs);
}

/// A joined text starts with its first piece and ends with its last one.
proof fn lemma_joined_ends(pieces: Seq<Seq<char>>, d: Seq<char>)
    requires
        pieces.len() > 0,
        pieces[0].len() > 0,
        pieces.last().len() > 0,
    ensures
        joined(pieces, d).len() > 0,
        joined(pieces, d)[0] == pieces[0][0],
        joined(pieces, d).last() == pieces.last().last(),
    decreases pieces.len(),
{
    if pieces.len() > 1 {
        let p = pieces.drop_last();
        if p.len() > 1 || p[0].len() > 0 {
            assert(p[0] == pieces[0]);
            if p.last().len() > 0 {
                lemma_joined_ends(p, d);
            } else {
                lemma_joined_first(p, d);
            }
        }
    }
}

/// A joined text starts with its first piece when that is not empty.
proof fn lemma_joined_first(pieces: Seq<Seq<char>>, d: Seq<char>)
    requires
        pieces.len() > 0,
        pieces[0].len() > 0,
    ensures
        joined(pieces, d).len() > 0,
        joined(pieces, d)[0] == pieces[0][0],
    decreases pieces.len(),
{
    if pieces.len() > 1 {
        let p = pieces.drop_last();
        assert(p[0] == pieces[0]);
        lemma_joined_first(p, d);
    }
}

} // verus!
