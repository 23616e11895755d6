//! Package names of the form `[@scope/]name[@version][/path]`.
use crate::text::to_chars;
use vstd::prelude::*;

pub use crate::workspace_std::utils::strip_trailing_newline;

verus! {

/// Package scope metadata extracted from a package name.
#[derive(Debug, Clone)]
pub struct PackageScopeMetadata {
    pub full: String,
    pub name: String,
    pub version: String,
    pub path: Option<String>,
}

/// A character allowed in a scope or a name: not `/` nor `@`.
pub open spec fn name_char(c: char) -> bool {
    c != '/' && c != '@'
}

/// The end of the run of name characters of `s` that starts at `i`.
pub open spec fn name_run_end(s: Seq<char>, i: int) -> int
    decreases s.len() + 1 - i,
{
    if i < 0 || i >= s.len() || !name_char(s[i]) {
        i
    } else {
        name_run_end(s, i + 1)
    }
}

/// The end of the run of characters other than `/` that starts at `i`.
pub open spec fn non_slash_end(s: Seq<char>, i: int) -> int
    decreases s.len() + 1 - i,
{
    if i < 0 || i >= s.len() || s[i] == '/' {
        i
    } else {
        non_slash_end(s, i + 1)
    }
}

/// Whether `s` holds no line feed.
pub open spec fn no_line_feed(s: Seq<char>) -> bool {
    forall|i: int| 0 <= i < s.len() ==> s[i] != '\n'
}

/// The end of the package name at the start of `s`: an optional
/// `@scope/` and a name, both non-empty runs of name characters; `-1` when
/// `s` does not start with one.
pub open spec fn scoped_name_end(s: Seq<char>) -> int {
    if s.len() > 0 && s[0] == '@' {
        let a = name_run_end(s, 1);
        if a > 1 && a < s.len() && s[a] == '/' && name_run_end(s, a + 1) > a + 1 {
            name_run_end(s, a + 1)
        } else {
            -1
        }
    } else if name_run_end(s, 0) > 0 {
        name_run_end(s, 0)
    } else {
        -1
    }
}

/// The name, version and path of `s`, when the whole of `s` reads
/// `[@scope/]name[@version][/path]`: the version is a non-empty run of
/// characters other than `/`, the path starts with `/` and holds no line
/// feed. This is the grammar
/// `^((?:@[^/@]+/)?[^/@]+)(?:@([^/]+))?(/.*)?$`.
pub open spec fn scope_parse(s: Seq<char>) -> Option<(Seq<char>, Seq<char>, Option<Seq<char>>)> {
    let n = scoped_name_end(s);
    if n < 0 {
        None
    } else if n == s.len() {
        Some((s, Seq::empty(), None))
    } else if s[n] == '@' {
        let v = non_slash_end(s, n + 1);
        if v == n + 1 {
            None
        } else if v == s.len() {
            Some((s.take(n), s.subrange(n + 1, v), None))
        } else if no_line_feed(s.skip(v)) {
            Some((s.take(n), s.subrange(n + 1, v), Some(s.skip(v))))
        } else {
            None
        }
    } else if no_line_feed(s.skip(n)) {
        Some((s.take(n), Seq::empty(), Some(s.skip(n))))
    } else {
        None
    }
}

proof fn lemma_name_run_end(s: Seq<char>, i: int)
    requires
        0 <= i <= s.len(),
    ensures
        i <= name_run_end(s, i) <= s.len(),
        forall|k: int| i <= k < name_run_end(s, i) ==> name_char(#[trigger] s[k]),
        name_run_end(s, i) < s.len() ==> !name_char(s[name_run_end(s, i)]),
    decreases s.len() + 1 - i,
{
    if i < s.len() && name_char(s[i]) {
        lemma_name_run_end(s, i + 1);
    }
}

pub(crate) proof fn lemma_non_slash_end(s: Seq<char>, i: int)
    requires
        0 <= i <= s.len(),
    ensures
        i <= non_slash_end(s, i) <= s.len(),
        non_slash_end(s, i) < s.len() ==> s[non_slash_end(s, i)] == '/',
    decreases s.len() + 1 - i,
{
    if i < s.len() && s[i] != '/' {
        lemma_non_slash_end(s, i + 1);
    }
}

fn name_run(s: &Vec<char>, i: usize) -> (e: usize)
    requires
        i <= s.len(),
    ensures
        e == name_run_end(s@, i as int),
{
    let mut e = i;
    while e < s.len() && s[e] != '/' && s[e] != '@'
        invariant
            i <= e <= s.len(),
            name_run_end(s@, i as int) == name_run_end(s@, e as int),
        decreases s.len() - e,
    {
        e = e + 1;
    }
    e
}

pub(crate) fn non_slash_run(s: &Vec<char>, i: usize) -> (e: usize)
    requires
        i <= s.len(),
    ensures
        e == non_slash_end(s@, i as int),
{
    let mut e = i;
    while e < s.len() && s[e] != '/'
        invariant
            i <= e <= s.len(),
            non_slash_end(s@, i as int) == non_slash_end(s@, e as int),
        decreases s.len() - e,
    {
        e = e + 1;
    }
    e
}

fn line_feed_free_from(s: &Vec<char>, i: usize) -> (b: bool)
    requires
        i <= s.len(),
    ensures
        b == no_line_feed(s@.skip(i as int)),
{
    let mut k = i;
    while k < s.len()
        invariant
            i <= k <= s.len(),
            forall|j: int| i <= j < k ==> s@[j] != '\n',
        decreases s.len() - k,
    {
        if s[k] == '\n' {
            assert(s@.skip(i as int)[k - i] == '\n');
            return false;
        }
        k = k + 1;
    }
    assert forall|j: int| 0 <= j < s@.skip(i as int).len() implies s@.skip(i as int)[j] != '\n' by {
        assert(s@.skip(i as int)[j] == s@[i + j]);
    }
    true
}

/// The view of a scope metadata: full text, name, version, path.
pub open spec fn scope_view(m: PackageScopeMetadata) -> (Seq<char>, Seq<char>, Seq<char>, Option<Seq<char>>) {
    (m.full@, m.name@, m.version@, match m.path {
        Some(p) => Some(p@),
        None => None,
    })
}

/// Reads `pkg_name` as `[@scope/]name[@version][/path]`; `None` when it does
/// not follow that grammar.
pub fn parse_package_scope(pkg_name: &str) -> (r: Option<PackageScopeMetadata>)
    ensures
        match (r, scope_parse(pkg_name@)) {
            (Some(m), Some((name, version, path))) => scope_view(m) == (pkg_name@, name, version, path),
            (None, None) => true,
            _ => false,
        },
{
    let s = to_chars(pkg_name);
    let len = s.len();
    let n: usize;
    if len > 0 && s[0] == '@' {
        let a = name_run(&s, 1);
        if a > 1 && a < len && s[a] == '/' {
            let b = name_run(&s, a + 1);
            if b > a + 1 {
                n = b;
            } else {
                return None;
            }
        } else {
            return None;
        }
    } else {
        let b = name_run(&s, 0);
        if b > 0 {
            n = b;
        } else {
            return None;
        }
    }
    assert(n as int == scoped_name_end(s@));
    proof {
        lemma_name_run_end(s@, 0);
        if len > 0 && s@[0] == '@' {
            lemma_name_run_end(s@, 1);
            lemma_name_run_end(s@, name_run_end(s@, 1) + 1);
        }
    }
    let full = crate::text::from_chars(s.as_slice());
    let name = crate::text::substring(&s, 0, n);
    if n == len {
        assert(s@.take(n as int) =~= s@);
        return Some(PackageScopeMetadata { full, name, version: String::new(), path: None });
    }
    if s[n] == '@' {
        let v = non_slash_run(&s, n + 1);
        proof {
            lemma_non_slash_end(s@, n + 1);
        }
        if v == n + 1 {
            return None;
        }
        let version = crate::text::substring(&s, n + 1, v);
        if v == len {
            assert(s@.take(n as int) =~= s@.subrange(0, n as int));
            return Some(PackageScopeMetadata { full, name, version, path: None });
        }
        if line_feed_free_from(&s, v) {
            let path = crate::text::substring(&s, v, len);
            assert(s@.skip(v as int) =~= s@.subrange(v as int, len as int));
            assert(s@.take(n as int) =~= s@.subrange(0, n as int));
            return Some(PackageScopeMetadata { full, name, version, path: Some(path) });
        }
        return None;
    }
    if line_feed_free_from(&s, n) {
        let path = crate::text::substring(&s, n, len);
        assert(s@.skip(n as int) =~= s@.subrange(n as int, len as int));
        assert(s@.take(n as int) =~= s@.subrange(0, n as int));
        return Some(PackageScopeMetadata { full, name, version: String::new(), path: Some(path) });
    }
    None
}

/// Extracts the package scope name and version from a package name that
/// follows `[@scope/]name[@version][/path]`.
pub fn package_scope_name_version(pkg_name: &str) -> (r: Option<PackageScopeMetadata>)
    requires
        scope_parse(pkg_name@) is Some,
    ensures
        r matches Some(m) && scope_parse(pkg_name@) matches Some((name, version, path)) && scope_view(m)
            == (pkg_name@, name, version, path),
{
    parse_package_scope(pkg_name)
}

} // verus!
