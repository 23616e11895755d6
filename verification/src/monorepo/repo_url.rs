//! Repository URLs of manifests, rewritten as `https://host/...` links.
use crate::packages::{lemma_line_end, line_end, line_run};
use crate::text::{occurs_at, occurs_at_exec, substring, to_chars};
use vstd::prelude::*;

verus! {

/// The end of the run of characters of `s` other than `a` and `b` that
/// starts at `i`.
pub open spec fn run_end_except(s: Seq<char>, i: int, a: char, b: char) -> int
    decreases s.len() + 1 - i,
{
    if i < 0 || i >= s.len() || s[i] == a || s[i] == b {
        i
    } else {
        run_end_except(s, i + 1, a, b)
    }
}

/// The last `/` of `s` in `[lo, hi)`, or `-1`.
pub open spec fn last_slash(s: Seq<char>, lo: int, hi: int) -> int
    decreases hi - lo,
{
    if hi <= lo {
        -1
    } else if s[hi - 1] == '/' {
        hi - 1
    } else {
        last_slash(s, lo, hi - 1)
    }
}

/// The protocols a URL may start with, in the order they are tried.
pub open spec fn protocol(k: int) -> Seq<char> {
    if k == 0 {
        "https://"@
    } else if k == 1 {
        "http://"@
    } else if k == 2 {
        "ssh://"@
    } else if k == 3 {
        "git://"@
    } else if k == 4 {
        "ftps://"@
    } else {
        "ftp://"@
    }
}

/// Where the text after an optional `git/` or `git+` prefix starts (when
/// `with` asks for the prefix), or `-1`.
pub open spec fn after_prefix(s: Seq<char>, p: int, with: bool) -> int {
    if !with {
        p
    } else if p + 4 <= s.len() && s[p] == 'g' && s[p + 1] == 'i' && s[p + 2] == 't' && (s[p + 3] == '/'
        || s[p + 3] == '+') {
        p + 4
    } else {
        -1
    }
}

/// Where the text after the `k`-th protocol (none for `k == 6`) starts, or
/// `-1`.
pub open spec fn after_protocol(s: Seq<char>, q: int, k: int) -> int {
    if q < 0 {
        -1
    } else if k == 6 {
        q
    } else if occurs_at(s, protocol(k), q) {
        q + protocol(k).len()
    } else {
        -1
    }
}

/// Where the text after an optional `user@` starts (when `with` asks for
/// it), or `-1`.
pub open spec fn after_user(s: Seq<char>, q: int, with: bool) -> int {
    if q < 0 {
        -1
    } else if !with {
        q
    } else {
        let r = run_end_except(s, q, '/', '@');
        if r > q && r < s.len() && s[r] == '@' {
            r + 1
        } else {
            -1
        }
    }
}

/// The end of the repository name in `s[rs..e]`: before a final `.git/` or
/// `.git` when something is left before it.
pub open spec fn repo_end(s: Seq<char>, rs: int, e: int) -> int {
    if e - 5 >= rs + 1 && occurs_at(s, ".git/"@, e - 5) {
        e - 5
    } else if e - 4 >= rs + 1 && occurs_at(s, ".git"@, e - 4) {
        e - 4
    } else {
        e
    }
}

/// The match of `host[/:]port/[path/]repo[.git[/]]` up to the end of the
/// line, from `q`: the host `[q, h)`, the port `[h + 1, pt)`, whether there
/// is a path, and the repository `[rs, re)`.
pub open spec fn tail_match(s: Seq<char>, q: int) -> Option<(int, int, bool, int, int)> {
    let h = run_end_except(s, q, '/', ':');
    if !(0 <= q < h < s.len()) {
        None
    } else {
        let pt = run_end_except(s, h + 1, '/', ':');
        if !(h + 1 < pt < s.len() && s[pt] == '/') {
            None
        } else {
            let a = pt + 1;
            let e = line_end(s, a);
            let j = last_slash(s, a + 1, e - 1);
            let rs = if j >= 0 {
                j + 1
            } else {
                a
            };
            if rs >= e {
                None
            } else {
                Some((h, pt, j >= 0, rs, repo_end(s, rs, e)))
            }
        }
    }
}

/// The `n`-th way a URL may begin, in the order they are tried: with or
/// without the `git/` prefix, then each protocol or none, then with or
/// without a user.
pub open spec fn attempt_start(s: Seq<char>, p: int, n: int) -> int {
    after_user(s, after_protocol(s, after_prefix(s, p, n / 14 == 0), (n % 14) / 2), n % 2 == 0)
}

/// The first way, from the `n`-th on, in which the URL matches at `p`:
/// where its host starts, and the rest of the match.
pub open spec fn first_attempt(s: Seq<char>, p: int, n: int) -> Option<(int, (int, int, bool, int, int))>
    decreases 28 - n,
{
    if n < 0 || n >= 28 {
        None
    } else {
        let q = attempt_start(s, p, n);
        if q >= 0 && tail_match(s, q) is Some {
            Some((q, tail_match(s, q)->0))
        } else {
            first_attempt(s, p, n + 1)
        }
    }
}

/// The first match that starts a line, from `p` on.
pub open spec fn url_format_match(s: Seq<char>, p: int) -> Option<(int, (int, int, bool, int, int))>
    decreases s.len() + 1 - p,
{
    if p < 0 || p > s.len() {
        None
    } else if (p == 0 || s[p - 1] == '\n') && first_attempt(s, p, 0) is Some {
        first_attempt(s, p, 0)
    } else {
        url_format_match(s, p + 1)
    }
}

/// The `https://` link of a repository URL, as the pattern
/// `^(git[/+])?((https?|ssh|git|ftps?)://)?([^/@]+@)?(?<host>[^/:]+)[/:](?<port>[^/:]+)/(?<path>.+/)?(?<repo>.+?)(\.git/?)?$`
/// (lines matched one by one) reads it: `https://host/port`, then `/repo`
/// twice when there is a path, else once; `None` when nothing matches.
pub open spec fn formatted_url(url: Seq<char>) -> Option<Seq<char>> {
    match url_format_match(url, 0) {
        Some((q, (h, pt, path, rs, re))) => Some(
            "https://"@ + url.subrange(q, h) + "/"@ + url.subrange(h + 1, pt) + (if path {
                "/"@ + url.subrange(rs, re)
            } else {
                Seq::empty()
            }) + "/"@ + url.subrange(rs, re),
        ),
        None => None,
    }
}

/// Whether `f` reads `https://host/port/...` with a host and a port that
/// are not empty and hold no `/`.
pub open spec fn https_link_shape(f: Seq<char>) -> bool {
    exists|d: int, o: int| link_slashes(f, d, o)
}

/// Whether `d` and `o` are the slashes after the host and after the port of
/// `f`, read as `https://host/port/...`.
pub open spec fn link_slashes(f: Seq<char>, d: int, o: int) -> bool {
    &&& 8 < d < o < f.len()
    &&& f.take(8) == "https://"@
    &&& forall|k: int| 8 <= k < d ==> f[k] != '/'
    &&& f[d] == '/'
    &&& forall|k: int| d < k < o ==> f[k] != '/'
    &&& f[o] == '/'
}

/// Every link that `formatted_url` gives has the shape `https://host/port/...`.
pub proof fn lemma_formatted_url_shape(url: Seq<char>)
    requires
        formatted_url(url) is Some,
    ensures
        https_link_shape(formatted_url(url)->0),
{
    let (q, (h, pt, path, rs, re)) = url_format_match(url, 0)->0;
    lemma_url_format_match(url, 0);
    lemma_run_end_except(url, q, '/', ':');
    lemma_run_end_except(url, h + 1, '/', ':');
    let host = url.subrange(q, h);
    let port = url.subrange(h + 1, pt);
    let repo = url.subrange(rs, re);
    let x = if path {
        "/"@ + repo
    } else {
        Seq::empty()
    };
    reveal_strlit("https://");
    reveal_strlit("/");
    let f = "https://"@ + host + "/"@ + port + x + "/"@ + repo;
    assert(f == formatted_url(url)->0);
    let d: int = 8 + host.len() as int;
    let o: int = d + 1 + port.len() as int;
    assert(f[d] == '/');
    assert(f[o] == '/');
    assert(f.take(8) =~= "https://"@);
    assert forall|k: int| 8 <= k < d implies f[k] != '/' by {
        assert(f[k] == host[k - 8]);
        assert(host[k - 8] == url[q + k - 8]);
    }
    assert forall|k: int| d < k < o implies f[k] != '/' by {
        assert(f[k] == port[k - d - 1]);
        assert(port[k - d - 1] == url[h + 1 + k - d - 1]);
    }
    assert(link_slashes(f, d, o));
}

/// The first match from `p` on, when there is one, starts at a line start
/// within `s` and is the first way the URL matches there.
proof fn lemma_url_format_match(s: Seq<char>, p: int)
    requires
        0 <= p,
        url_format_match(s, p) is Some,
    ensures
        url_format_match(s, p) matches Some((q, (h, pt, path, rs, re))) && 0 <= q < h < pt < s.len()
            && tail_match(s, q) == Some((h, pt, path, rs, re)),
    decreases s.len() + 1 - p,
{
    if (p == 0 || s[p - 1] == '\n') && first_attempt(s, p, 0) is Some {
        lemma_first_attempt(s, p, 0);
    } else {
        lemma_url_format_match(s, p + 1);
    }
}

/// A way that matches gives the match of the tail from where its host
/// starts.
proof fn lemma_first_attempt(s: Seq<char>, p: int, n: int)
    requires
        first_attempt(s, p, n) is Some,
    ensures
        first_attempt(s, p, n) matches Some((q, t)) && 0 <= q && tail_match(s, q) == Some(t) && t.0 < t.1 < s.len()
            && q < t.0,
    decreases 28 - n,
{
    let q = attempt_start(s, p, n);
    if 0 <= n < 28 && q >= 0 && tail_match(s, q) is Some {
        lemma_run_end_except(s, q, '/', ':');
        let h = run_end_except(s, q, '/', ':');
        lemma_run_end_except(s, h + 1, '/', ':');
    } else {
        lemma_first_attempt(s, p, n + 1);
    }
}

proof fn lemma_run_end_except(s: Seq<char>, i: int, a: char, b: char)
    requires
        0 <= i <= s.len(),
    ensures
        i <= run_end_except(s, i, a, b) <= s.len(),
        run_end_except(s, i, a, b) < s.len() ==> (s[run_end_except(s, i, a, b)] == a || s[run_end_except(
            s,
            i,
            a,
            b,
        )] == b),
        forall|k: int| i <= k < run_end_except(s, i, a, b) ==> s[k] != a && s[k] != b,
    decreases s.len() + 1 - i,
{
    if i < s.len() && s[i] != a && s[i] != b {
        lemma_run_end_except(s, i + 1, a, b);
    }
}

fn run_except(s: &Vec<char>, i: usize, a: char, b: char) -> (e: usize)
    requires
        i <= s.len(),
    ensures
        e == run_end_except(s@, i as int, a, b),
        i <= e <= s.len(),
{
    proof {
        lemma_run_end_except(s@, i as int, a, b);
    }
    let mut e = i;
    while e < s.len() && s[e] != a && s[e] != b
        invariant
            i <= e <= s.len(),
            run_end_except(s@, i as int, a, b) == run_end_except(s@, e as int, a, b),
        decreases s.len() - e,
    {
        e = e + 1;
    }
    e
}

fn last_slash_exec(s: &Vec<char>, lo: usize, hi: usize) -> (r: Option<usize>)
    requires
        hi <= s.len(),
    ensures
        match r {
            Some(j) => j as int == last_slash(s@, lo as int, hi as int) && lo <= j < hi,
            None => last_slash(s@, lo as int, hi as int) == -1,
        },
{
    let mut k = hi;
    while k > lo
        invariant
            k <= hi <= s.len(),
            last_slash(s@, lo as int, hi as int) == last_slash(s@, lo as int, k as int),
        decreases k,
    {
        if s[k - 1] == '/' {
            return Some(k - 1);
        }
        k = k - 1;
    }
    None
}

fn protocol_chars(k: usize) -> (r: Vec<char>)
    requires
        k < 6,
    ensures
        r@ == protocol(k as int),
{
    if k == 0 {
        to_chars("https://")
    } else if k == 1 {
        to_chars("http://")
    } else if k == 2 {
        to_chars("ssh://")
    } else if k == 3 {
        to_chars("git://")
    } else if k == 4 {
        to_chars("ftps://")
    } else {
        to_chars("ftp://")
    }
}

fn attempt_start_exec(s: &Vec<char>, p: usize, n: usize) -> (r: Option<usize>)
    requires
        p <= s.len(),
        n < 28,
    ensures
        match r {
            Some(q) => q as int == attempt_start(s@, p as int, n as int) && q <= s.len(),
            None => attempt_start(s@, p as int, n as int) < 0,
        },
{
    let with_prefix = n / 14 == 0;
    let k = (n % 14) / 2;
    let with_user = n % 2 == 0;
    let mut q = p;
    if with_prefix {
        if p < s.len() && s.len() - p >= 4 && s[p] == 'g' && s[p + 1] == 'i' && s[p + 2] == 't' && (s[p
            + 3] == '/' || s[p + 3] == '+') {
            q = p + 4;
        } else {
            return None;
        }
    }
    assert(q as int == after_prefix(s@, p as int, with_prefix));
    if k != 6 {
        let proto = protocol_chars(k);
        if occurs_at_exec(s, &proto, q) {
            q = q + proto.len();
        } else {
            return None;
        }
    }
    assert(q as int == after_protocol(s@, after_prefix(s@, p as int, with_prefix), k as int));
    if with_user {
        let r = run_except(s, q, '/', '@');
        if r > q && r < s.len() && s[r] == '@' {
            q = r + 1;
        } else {
            return None;
        }
    }
    Some(q)
}

fn tail_match_exec(s: &Vec<char>, q: usize) -> (r: Option<(usize, usize, bool, usize, usize)>)
    requires
        q <= s.len(),
    ensures
        match r {
            Some((h, pt, path, rs, re)) => tail_match(s@, q as int) == Some(
                (h as int, pt as int, path, rs as int, re as int),
            ) && q < h < pt < s.len() && rs <= re <= s.len(),
            None => tail_match(s@, q as int) is None,
        },
{
    let h = run_except(s, q, '/', ':');
    if !(q < h && h < s.len()) {
        return None;
    }
    let pt = run_except(s, h + 1, '/', ':');
    if !(h + 1 < pt && pt < s.len() && s[pt] == '/') {
        return None;
    }
    let a = pt + 1;
    let e = line_run(s, a);
    proof {
        lemma_line_end(s@, a as int);
    }
    let j = if a < e {
        last_slash_exec(s, a + 1, e - 1)
    } else {
        None
    };
    assert(match j {
        Some(x) => x as int == last_slash(s@, a + 1, e - 1),
        None => last_slash(s@, a + 1, e - 1) == -1,
    });
    let path = j.is_some();
    let rs = match j {
        Some(x) => x + 1,
        None => a,
    };
    if rs >= e {
        return None;
    }
    let dot_git_slash = to_chars(".git/");
    let dot_git = to_chars(".git");
    proof {
        reveal_strlit(".git/");
        reveal_strlit(".git");
    }
    let re = if e >= 5 && e - 5 >= rs + 1 && occurs_at_exec(s, &dot_git_slash, e - 5) {
        e - 5
    } else if e >= 4 && e - 4 >= rs + 1 && occurs_at_exec(s, &dot_git, e - 4) {
        e - 4
    } else {
        e
    };
    Some((h, pt, path, rs, re))
}

/// The first way in which the URL matches at `p` (see `first_attempt`).
fn first_attempt_exec(s: &Vec<char>, p: usize) -> (r: Option<(usize, (usize, usize, bool, usize, usize))>)
    requires
        p <= s.len(),
    ensures
        match r {
            Some((q, (h, pt, path, rs, re))) => first_attempt(s@, p as int, 0) == Some(
                (q as int, (h as int, pt as int, path, rs as int, re as int)),
            ) && q < h < pt < s.len() && rs <= re <= s.len(),
            None => first_attempt(s@, p as int, 0) is None,
        },
{
    let mut n: usize = 0;
    while n < 28
        invariant
            n <= 28,
            p <= s@.len(),
            first_attempt(s@, p as int, 0) == first_attempt(s@, p as int, n as int),
        decreases 28 - n,
    {
        match attempt_start_exec(s, p, n) {
            Some(q) => match tail_match_exec(s, q) {
                Some(t) => {
                    return Some((q, t));
                },
                None => {},
            },
            None => {},
        }
        n = n + 1;
    }
    None
}

/// The `https://` link of a repository URL (see `formatted_url`).
pub fn format_url(url: &String) -> (r: Option<String>)
    ensures
        match r {
            Some(f) => formatted_url(url@) == Some(f@),
            None => formatted_url(url@) is None,
        },
{
    let s = to_chars(url.as_str());
    let len = s.len();
    let mut p: usize = 0;
    loop
        invariant
            p <= len,
            len == s@.len(),
            s@ == url@,
            url_format_match(s@, 0) == url_format_match(s@, p as int),
        decreases len - p,
    {
        if p == 0 || s[p - 1] == '\n' {
            match first_attempt_exec(&s, p) {
                Some((q, (h, pt, path, rs, re))) => {
                    let host = substring(&s, q, h);
                    let port = substring(&s, h + 1, pt);
                    let repo = substring(&s, rs, re);
                    let mut out = String::from_str("https://").concat(host.as_str()).concat("/").concat(
                        port.as_str(),
                    );
                    if path {
                        out = out.concat("/").concat(repo.as_str());
                    }
                    out = out.concat("/").concat(repo.as_str());
                    return Some(out);
                },
                None => {},
            }
        }
        if p == len {
            assert(url_format_match(s@, len + 1) is None);
            return None;
        }
        p = p + 1;
    }
}

} // verus!
