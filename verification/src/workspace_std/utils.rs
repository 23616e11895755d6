//! String helpers for command output, and the test workspace location.
use crate::text::{ends_with_seq, trimmed, to_chars, trim_chars, from_chars, ends_with_chars};
use vstd::prelude::*;

verus! {

/// `s` without one final line ending: `"\r\n"` if present, else `"\n"`.
pub open spec fn without_line_end(s: Seq<char>) -> Seq<char> {
    if ends_with_seq(s, seq!['\r', '\n']) {
        s.take(s.len() - 2)
    } else if ends_with_seq(s, seq!['\n']) {
        s.take(s.len() - 1)
    } else {
        s
    }
}

/// What `strip_trailing_newline` returns for `s`.
pub open spec fn stripped(s: Seq<char>) -> Seq<char> {
    trimmed(without_line_end(s))
}

/// Strips the trailing newline from a string, then the surrounding white
/// space.
pub fn strip_trailing_newline(input: &String) -> (r: String)
    ensures
        r@ == stripped(input@),
{
    let v = to_chars(input.as_str());
    let crlf = vec!['\r', '\n'];
    let lf = vec!['\n'];
    let mut cut: usize = 0;
    if ends_with_chars(&v, &crlf) {
        cut = 2;
    } else if ends_with_chars(&v, &lf) {
        cut = 1;
    }
    assert(crlf@ == seq!['\r', '\n']);
    assert(lf@ == seq!['\n']);
    let mut w: Vec<char> = Vec::new();
    let n = v.len() - cut;
    let mut i: usize = 0;
    while i < n
        invariant
            n <= v.len(),
            i <= n,
            w@ == v@.take(i as int),
        decreases n - i,
    {
        w.push(v[i]);
        i = i + 1;
    }
    assert(without_line_end(v@) =~= w@);
    let t = trim_chars(&w);
    from_chars(t.as_slice())
}

/// A throw-away monorepo location used by tests.
#[derive(Debug, Clone)]
pub struct MonorepoWorkspace {
    root: String,
}

impl View for MonorepoWorkspace {
    type V = Seq<char>;

    /// The root directory.
    closed spec fn view(&self) -> Seq<char> {
        self.root@
    }
}

impl MonorepoWorkspace {
    /// The workspace root: `monorepo-workspace` inside the given temporary
    /// directory.
    pub fn new(temp_dir: &String) -> (w: Self)
        ensures
            w@ == crate::text::path_join_seq(temp_dir@, "monorepo-workspace"@),
    {
        let name = String::from_str("monorepo-workspace");
        MonorepoWorkspace { root: crate::text::path_join(temp_dir, &name) }
    }

    /// The workspace root.
    pub fn get_monorepo_root(&self) -> (r: &String)
        ensures
            r@ == self@,
    {
        &self.root
    }
}

} // verus!
