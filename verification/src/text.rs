//! Character-level string helpers with their specifications.
//!
//! Strings are specified through their views, `Seq<char>`. Searching,
//! splitting and replacing follow the left-to-right, non-overlapping
//! matching that `str::find`, `str::split` and `str::replace` perform.
use vstd::prelude::*;

verus! {

/// White space as Unicode's `White_Space` property defines it
/// (the set that `char::is_whitespace` and `str::trim` use).
pub open spec fn is_ws(c: char) -> bool {
    ||| c == '\t' || c == '\n' || c == '\u{0B}' || c == '\u{0C}' || c == '\r' || c == ' '
    ||| c == '\u{85}' || c == '\u{A0}' || c == '\u{1680}'
    ||| ('\u{2000}' <= c && c <= '\u{200A}')
    ||| c == '\u{2028}' || c == '\u{2029}' || c == '\u{202F}' || c == '\u{205F}'
    ||| c == '\u{3000}'
}

/// `s` with all leading and trailing white space removed.
pub open spec fn trimmed(s: Seq<char>) -> Seq<char>
    decreases s.len(),
{
    if s.len() > 0 && is_ws(s[0]) {
        trimmed(s.drop_first())
    } else if s.len() > 0 && is_ws(s.last()) {
        trimmed(s.drop_last())
    } else {
        s
    }
}

/// Whether `s` is empty or made of white space only.
pub open spec fn is_blank(s: Seq<char>) -> bool {
    forall|i: int| 0 <= i < s.len() ==> is_ws(#[trigger] s[i])
}

/// Whether `p` occurs in `s` at index `i`.
pub open spec fn occurs_at(s: Seq<char>, p: Seq<char>, i: int) -> bool {
    0 <= i && i + p.len() <= s.len() && s.subrange(i, i + p.len()) == p
}

/// Whether `p` occurs anywhere in `s`.
pub open spec fn contains_seq(s: Seq<char>, p: Seq<char>) -> bool {
    exists|i: int| occurs_at(s, p, i)
}

/// Whether `s` begins with `p`.
pub open spec fn starts_with_seq(s: Seq<char>, p: Seq<char>) -> bool {
    p.len() <= s.len() && s.take(p.len() as int) == p
}

/// Whether `s` ends with `p`.
pub open spec fn ends_with_seq(s: Seq<char>, p: Seq<char>) -> bool {
    p.len() <= s.len() && s.skip(s.len() - p.len()) == p
}

/// The first index `j >= i` at which `p` occurs in `s`, or `-1`.
pub open spec fn find_from(s: Seq<char>, p: Seq<char>, i: int) -> int
    decreases s.len() + 1 - i,
{
    if i < 0 || i + p.len() > s.len() {
        -1
    } else if occurs_at(s, p, i) {
        i
    } else {
        find_from(s, p, i + 1)
    }
}

/// The pieces of `s[i..]` between the non-overlapping occurrences of `d`,
/// found from left to right.
pub open spec fn split_from(s: Seq<char>, d: Seq<char>, i: int) -> Seq<Seq<char>>
    decreases s.len() - i,
{
    let k = find_from(s, d, i);
    if d.len() == 0 || i < 0 || k < i || k + d.len() > s.len() {
        seq![s.subrange(i, s.len() as int)]
    } else {
        seq![s.subrange(i, k)] + split_from(s, d, k + d.len())
    }
}

/// `s` split at every occurrence of the non-empty delimiter `d`
/// (what `str::split` with a string pattern yields).
pub open spec fn split_seq(s: Seq<char>, d: Seq<char>) -> Seq<Seq<char>> {
    split_from(s, d, 0)
}

/// `s[i..]` with every occurrence of `p` replaced by `r`, left to right.
pub open spec fn replace_from(s: Seq<char>, p: Seq<char>, r: Seq<char>, i: int) -> Seq<char>
    decreases s.len() - i,
{
    let k = find_from(s, p, i);
    if p.len() == 0 || i < 0 || k < i || k + p.len() > s.len() {
        s.subrange(i, s.len() as int)
    } else {
        s.subrange(i, k) + r + replace_from(s, p, r, k + p.len())
    }
}

/// `s` with every occurrence of the non-empty pattern `p` replaced by `r`
/// (what `str::replace` returns).
pub open spec fn replace_seq(s: Seq<char>, p: Seq<char>, r: Seq<char>) -> Seq<char> {
    replace_from(s, p, r, 0)
}

/// The first index `j >= i` of a white-space character of `s`, or `-1`.
pub open spec fn first_ws_from(s: Seq<char>, i: int) -> int
    decreases s.len() + 1 - i,
{
    if i < 0 || i >= s.len() {
        -1
    } else if is_ws(s[i]) {
        i
    } else {
        first_ws_from(s, i + 1)
    }
}

/// The end of the run of white space of `s` that starts at `i`.
pub open spec fn ws_run_end(s: Seq<char>, i: int) -> int
    decreases s.len() + 1 - i,
{
    if i < 0 || i >= s.len() || !is_ws(s[i]) {
        i
    } else {
        ws_run_end(s, i + 1)
    }
}

/// The pieces of `s[i..]` between the maximal runs of white space
/// (what splitting on the regular expression `\s+` yields).
pub open spec fn ws_fields_from(s: Seq<char>, i: int) -> Seq<Seq<char>>
    decreases s.len() + 1 - i,
{
    let k = first_ws_from(s, i);
    let e = ws_run_end(s, k);
    if i < 0 || k < i || e <= k || e > s.len() {
        seq![s.subrange(i, s.len() as int)]
    } else {
        seq![s.subrange(i, k)] + ws_fields_from(s, e)
    }
}

/// `s` split at every maximal run of white space.
pub open spec fn ws_fields(s: Seq<char>) -> Seq<Seq<char>> {
    ws_fields_from(s, 0)
}

/// The views of a sequence of strings.
pub open spec fn views(v: Seq<String>) -> Seq<Seq<char>> {
    v.map_values(|x: String| x@)
}

pub proof fn lemma_find_from_range(s: Seq<char>, p: Seq<char>, i: int)
    requires
        0 <= i,
    ensures
        find_from(s, p, i) == -1 || (i <= find_from(s, p, i) && occurs_at(s, p, find_from(s, p, i))),
        find_from(s, p, i) == -1 ==> forall|j: int| i <= j ==> !occurs_at(s, p, j),
        find_from(s, p, i) >= 0 ==> forall|j: int| i <= j < find_from(s, p, i) ==> !occurs_at(s, p, j),
    decreases s.len() + 1 - i,
{
    if i + p.len() > s.len() {
    } else if occurs_at(s, p, i) {
    } else {
        lemma_find_from_range(s, p, i + 1);
    }
}

/// The pieces of `pieces` joined with `d` between each two of them.
pub open spec fn joined(pieces: Seq<Seq<char>>, d: Seq<char>) -> Seq<char>
    decreases pieces.len(),
{
    if pieces.len() <= 1 {
        if pieces.len() == 0 {
            Seq::empty()
        } else {
            pieces[0]
        }
    } else {
        joined(pieces.drop_last(), d) + d + pieces.last()
    }
}

/// Whether no piece of `pieces` holds the character `c`.
pub open spec fn pieces_lack(pieces: Seq<Seq<char>>, c: char) -> bool {
    forall|k: int, j: int| 0 <= k < pieces.len() && 0 <= j < pieces[k].len() ==> #[trigger] pieces[k][j] != c
}

/// Joining splits off the first piece.
proof fn lemma_joined_front(pieces: Seq<Seq<char>>, d: Seq<char>)
    requires
        pieces.len() >= 2,
    ensures
        joined(pieces, d) == pieces[0] + d + joined(pieces.drop_first(), d),
    decreases pieces.len(),
{
    if pieces.len() > 2 {
        lemma_joined_front(pieces.drop_last(), d);
        assert(pieces.drop_last().drop_first() =~= pieces.drop_first().drop_last());
        assert(pieces.drop_first().last() == pieces.last());
        let a = joined(pieces.drop_first().drop_last(), d);
        assert(joined(pieces.drop_first(), d) == a + d + pieces.last());
        assert(pieces.drop_last()[0] == pieces[0]);
        assert(joined(pieces, d) =~= pieces[0] + d + (a + d + pieces.last()));
    } else {
        assert(pieces.drop_first().len() == 1);
        assert(pieces.drop_last().len() == 1);
        assert(joined(pieces.drop_last(), d) == pieces[0]);
        assert(joined(pieces.drop_first(), d) == pieces[1]);
    }
}

/// From `i`, the first occurrence of `d` is at `k` when no character in
/// between is the first one of `d`.
proof fn lemma_find_from_at(s: Seq<char>, d: Seq<char>, i: int, k: int)
    requires
        d.len() > 0,
        0 <= i <= k,
        occurs_at(s, d, k),
        forall|j: int| i <= j < k ==> s[j] != d[0],
    ensures
        find_from(s, d, i) == k,
    decreases k - i,
{
    if i < k {
        assert(s.subrange(i, i + d.len())[0] == s[i]);
        lemma_find_from_at(s, d, i + 1, k);
    }
}

/// From `i`, `d` does not occur when no later character is its first one.
proof fn lemma_find_from_none(s: Seq<char>, d: Seq<char>, i: int)
    requires
        d.len() > 0,
        0 <= i <= s.len(),
        forall|j: int| i <= j < s.len() ==> s[j] != d[0],
    ensures
        find_from(s, d, i) == -1,
    decreases s.len() - i,
{
    if i + d.len() <= s.len() {
        assert(s.subrange(i, i + d.len())[0] == s[i]);
        lemma_find_from_none(s, d, i + 1);
    }
}

proof fn lemma_split_from_joined(pre: Seq<char>, pieces: Seq<Seq<char>>, d: Seq<char>)
    requires
        d.len() > 0,
        pieces.len() >= 1,
        pieces_lack(pieces, d[0]),
    ensures
        split_from(pre + joined(pieces, d), d, pre.len() as int) == pieces,
    decreases pieces.len(),
{
    let s = pre + joined(pieces, d);
    let i = pre.len() as int;
    let p0 = pieces[0];
    if pieces.len() == 1 {
        assert forall|j: int| i <= j < s.len() implies s[j] != d[0] by {
            assert(s[j] == p0[j - i]);
        }
        lemma_find_from_none(s, d, i);
        assert(s.subrange(i, s.len() as int) =~= p0);
        assert(seq![p0] =~= pieces);
    } else {
        let rest = pieces.drop_first();
        lemma_joined_front(pieces, d);
        let pre2 = pre + p0 + d;
        assert(s =~= pre2 + joined(rest, d));
        let k = i + p0.len();
        assert(s.subrange(k, k + d.len()) =~= d);
        assert forall|j: int| i <= j < k implies s[j] != d[0] by {
            assert(s[j] == p0[j - i]);
        }
        lemma_find_from_at(s, d, i, k);
        assert(pieces_lack(rest, d[0])) by {
            assert forall|a: int, b: int| 0 <= a < rest.len() && 0 <= b < rest[a].len() implies #[trigger] rest[a][b]
                != d[0] by {
                assert(rest[a] == pieces[a + 1]);
            }
        }
        lemma_split_from_joined(pre2, rest, d);
        assert(s.subrange(i, k) =~= p0);
        assert(seq![p0] + rest =~= pieces);
    }
}

/// Splitting pieces joined with a non-empty delimiter, none of them holding
/// the delimiter's first character, gives the pieces back.
pub proof fn lemma_split_joined(pieces: Seq<Seq<char>>, d: Seq<char>)
    requires
        d.len() > 0,
        pieces.len() >= 1,
        pieces_lack(pieces, d[0]),
    ensures
        split_seq(joined(pieces, d), d) == pieces,
{
    lemma_split_from_joined(Seq::empty(), pieces, d);
    assert(Seq::<char>::empty() + joined(pieces, d) =~= joined(pieces, d));
}

pub proof fn lemma_first_ws_from(s: Seq<char>, i: int)
    requires
        0 <= i,
    ensures
        first_ws_from(s, i) == -1 || (i <= first_ws_from(s, i) < s.len() && is_ws(s[first_ws_from(s, i)])),
        forall|j: int| i <= j < s.len() && (first_ws_from(s, i) == -1 || j < first_ws_from(s, i)) ==> !is_ws(#[trigger] s[j]),
    decreases s.len() + 1 - i,
{
    if i < s.len() && !is_ws(s[i]) {
        lemma_first_ws_from(s, i + 1);
    }
}

pub proof fn lemma_ws_run_end(s: Seq<char>, i: int)
    requires
        0 <= i <= s.len(),
    ensures
        i <= ws_run_end(s, i) <= s.len(),
        i < s.len() && is_ws(s[i]) ==> i < ws_run_end(s, i),
    decreases s.len() + 1 - i,
{
    if i < s.len() && is_ws(s[i]) {
        lemma_ws_run_end(s, i + 1);
    }
}

/// The characters of `s`, in order.
pub fn to_chars(s: &str) -> (v: Vec<char>)
    ensures
        v@ == s@,
{
    let mut v: Vec<char> = Vec::new();
    for c in it: s.chars()
        invariant
            v@ == it.seq().take(it.index() as int),
            it.seq() == s@,
    {
        v.push(c);
    }
    v
}

/// Builds a `String` holding exactly the given characters
/// (`FromIterator<&char>` for `String`, through `Iterator::collect`).
#[verifier::external_body]
pub(crate) fn from_chars(v: &[char]) -> (s: String)
    ensures
        s@ == v@,
{
    v.iter().collect()
}

/// A new `String` with the characters `v[a..b]`.
pub fn substring(v: &Vec<char>, a: usize, b: usize) -> (s: String)
    requires
        a <= b <= v.len(),
    ensures
        s@ == v@.subrange(a as int, b as int),
{
    let mut out: Vec<char> = Vec::new();
    let mut i = a;
    while i < b
        invariant
            a <= i <= b <= v.len(),
            out@ == v@.subrange(a as int, i as int),
        decreases b - i,
    {
        out.push(v[i]);
        i = i + 1;
    }
    from_chars(out.as_slice())
}

/// Whether `c` is white space (`char::is_whitespace`).
pub fn is_whitespace(c: char) -> (b: bool)
    ensures
        b == is_ws(c),
{
    c == '\t' || c == '\n' || c == '\u{0B}' || c == '\u{0C}' || c == '\r' || c == ' '
        || c == '\u{85}' || c == '\u{A0}' || c == '\u{1680}' || ('\u{2000}' <= c && c
        <= '\u{200A}') || c == '\u{2028}' || c == '\u{2029}' || c == '\u{202F}' || c
        == '\u{205F}' || c == '\u{3000}'
}

/// Whether `p` occurs in `s` at index `i`.
pub fn occurs_at_exec(s: &Vec<char>, p: &Vec<char>, i: usize) -> (b: bool)
    ensures
        b == occurs_at(s@, p@, i as int),
{
    if i > s.len() || p.len() > s.len() - i {
        return false;
    }
    let mut j: usize = 0;
    while j < p.len()
        invariant
            i + p.len() <= s.len(),
            j <= p.len(),
            forall|k: int| 0 <= k < j ==> s@[i + k] == p@[k],
        decreases p.len() - j,
    {
        if s[i + j] != p[j] {
            assert(s@.subrange(i as int, i + p.len())[j as int] != p@[j as int]);
            return false;
        }
        j = j + 1;
    }
    assert(s@.subrange(i as int, i + p.len()) =~= p@);
    true
}

/// The first index `j >= i` at which `p` occurs in `s`.
pub fn find_from_exec(s: &Vec<char>, p: &Vec<char>, i: usize) -> (r: Option<usize>)
    ensures
        match r {
            Some(k) => find_from(s@, p@, i as int) == k,
            None => find_from(s@, p@, i as int) == -1,
        },
{
    if i > s.len() {
        return None;
    }
    let mut j = i;
    loop
        invariant
            i <= j <= s.len(),
            find_from(s@, p@, i as int) == find_from(s@, p@, j as int),
        decreases s.len() - j,
    {
        if p.len() > s.len() - j {
            return None;
        }
        if occurs_at_exec(s, p, j) {
            return Some(j);
        }
        if j == s.len() {
            proof {
                if p.len() == 0 {
                    assert(s@.subrange(j as int, j as int) =~= p@);
                }
            }
            return None;
        }
        j = j + 1;
    }
}

proof fn lemma_trim_front(t: Seq<char>)
    requires
        t.len() > 0,
        is_ws(t[0]),
    ensures
        trimmed(t) == trimmed(t.drop_first()),
{
}

proof fn lemma_trim_back(t: Seq<char>)
    requires
        t.len() > 0,
        !is_ws(t[0]),
        is_ws(t.last()),
    ensures
        trimmed(t) == trimmed(t.drop_last()),
{
}

proof fn lemma_trim_done(t: Seq<char>)
    requires
        t.len() == 0 || (!is_ws(t[0]) && !is_ws(t.last())),
    ensures
        trimmed(t) == t,
{
}

/// `s` with leading and trailing white space removed (`str::trim`).
pub fn trim_chars(s: &Vec<char>) -> (r: Vec<char>)
    ensures
        r@ == trimmed(s@),
{
    let mut i: usize = 0;
    assert(s@.subrange(0, s.len() as int) =~= s@);
    while i < s.len() && is_whitespace(s[i])
        invariant
            i <= s.len(),
            trimmed(s@) == trimmed(s@.subrange(i as int, s.len() as int)),
        decreases s.len() - i,
    {
        proof {
            let t = s@.subrange(i as int, s.len() as int);
            lemma_trim_front(t);
            assert(t.drop_first() =~= s@.subrange(i + 1, s.len() as int));
        }
        i = i + 1;
    }
    let mut j: usize = s.len();
    while j > i && is_whitespace(s[j - 1])
        invariant
            i <= j <= s.len(),
            i < s.len() ==> !is_ws(s@[i as int]),
            trimmed(s@) == trimmed(s@.subrange(i as int, j as int)),
        decreases j - i,
    {
        proof {
            let t = s@.subrange(i as int, j as int);
            lemma_trim_back(t);
            assert(t.drop_last() =~= s@.subrange(i as int, j - 1));
        }
        j = j - 1;
    }
    let mut out: Vec<char> = Vec::new();
    let mut k = i;
    while k < j
        invariant
            i <= k <= j <= s.len(),
            out@ == s@.subrange(i as int, k as int),
        decreases j - k,
    {
        out.push(s[k]);
        k = k + 1;
    }
    proof {
        lemma_trim_done(s@.subrange(i as int, j as int));
    }
    out
}

/// `s` with leading and trailing white space removed (`str::trim`).
pub fn trim(s: &str) -> (r: String)
    ensures
        r@ == trimmed(s@),
{
    let v = to_chars(s);
    let t = trim_chars(&v);
    from_chars(t.as_slice())
}

/// Whether `s` holds white space only (`s.trim().is_empty()`).
pub fn is_blank_chars(s: &Vec<char>) -> (b: bool)
    ensures
        b == is_blank(s@),
{
    let mut i: usize = 0;
    while i < s.len()
        invariant
            i <= s.len(),
            forall|k: int| 0 <= k < i ==> is_ws(s@[k]),
        decreases s.len() - i,
    {
        if !is_whitespace(s[i]) {
            return false;
        }
        i = i + 1;
    }
    true
}

proof fn lemma_views_push(v: Seq<String>, x: String)
    ensures
        views(v.push(x)) == views(v).push(x@),
{
    assert(views(v.push(x)) =~= views(v).push(x@));
}

/// `s` split at every occurrence of `d` (`str::split`).
pub fn split_chars(s: &Vec<char>, d: &Vec<char>) -> (r: Vec<String>)
    requires
        d.len() > 0,
    ensures
        views(r@) == split_seq(s@, d@),
{
    let mut out: Vec<String> = Vec::new();
    let mut pos: usize = 0;
    loop
        invariant
            d.len() > 0,
            pos <= s.len(),
            split_seq(s@, d@) == views(out@) + split_from(s@, d@, pos as int),
        decreases s.len() - pos,
    {
        proof {
            lemma_find_from_range(s@, d@, pos as int);
        }
        match find_from_exec(s, d, pos) {
            None => {
                let piece = substring(s, pos, s.len());
                proof {
                    lemma_views_push(out@, piece);
                    assert(views(out@) + split_from(s@, d@, pos as int) =~= views(out@).push(piece@));
                }
                out.push(piece);
                return out;
            },
            Some(k) => {
                let piece = substring(s, pos, k);
                proof {
                    lemma_views_push(out@, piece);
                    assert(views(out@) + split_from(s@, d@, pos as int) =~= views(out@).push(piece@)
                        + split_from(s@, d@, k + d.len()));
                }
                out.push(piece);
                pos = k + d.len();
            },
        }
    }
}

/// `s` split at every maximal run of white space (`Regex::split` with `\s+`).
pub fn split_ws(s: &Vec<char>) -> (r: Vec<String>)
    ensures
        views(r@) == ws_fields(s@),
{
    let mut out: Vec<String> = Vec::new();
    let mut pos: usize = 0;
    loop
        invariant
            pos <= s.len(),
            ws_fields(s@) == views(out@) + ws_fields_from(s@, pos as int),
        decreases s.len() - pos,
    {
        let mut k = pos;
        while k < s.len() && !is_whitespace(s[k])
            invariant
                pos <= k <= s.len(),
                first_ws_from(s@, pos as int) == first_ws_from(s@, k as int),
            decreases s.len() - k,
        {
            k = k + 1;
        }
        if k == s.len() {
            let piece = substring(s, pos, s.len());
            proof {
                lemma_views_push(out@, piece);
                assert(views(out@) + ws_fields_from(s@, pos as int) =~= views(out@).push(piece@));
            }
            out.push(piece);
            return out;
        }
        let mut e = k;
        while e < s.len() && is_whitespace(s[e])
            invariant
                k <= e <= s.len(),
                ws_run_end(s@, k as int) == ws_run_end(s@, e as int),
            decreases s.len() - e,
        {
            e = e + 1;
        }
        let piece = substring(s, pos, k);
        proof {
            lemma_views_push(out@, piece);
            assert(first_ws_from(s@, pos as int) == k);
            assert(ws_run_end(s@, k as int) == e);
            assert(views(out@) + ws_fields_from(s@, pos as int) =~= views(out@).push(piece@)
                + ws_fields_from(s@, e as int));
        }
        out.push(piece);
        pos = e;
    }
}

/// `s` with every occurrence of `p` replaced by `r` (`str::replace`).
pub fn replace_chars(s: &Vec<char>, p: &Vec<char>, r: &Vec<char>) -> (out: Vec<char>)
    requires
        p.len() > 0,
    ensures
        out@ == replace_seq(s@, p@, r@),
{
    let mut out: Vec<char> = Vec::new();
    let mut pos: usize = 0;
    loop
        invariant
            p.len() > 0,
            pos <= s.len(),
            replace_seq(s@, p@, r@) == out@ + replace_from(s@, p@, r@, pos as int),
        decreases s.len() - pos,
    {
        proof {
            lemma_find_from_range(s@, p@, pos as int);
        }
        let (stop, upto) = match find_from_exec(s, p, pos) {
            None => (true, s.len()),
            Some(k) => (false, k),
        };
        let ghost before = out@;
        let mut i = pos;
        while i < upto
            invariant
                pos <= i <= upto <= s.len(),
                out@ == before + s@.subrange(pos as int, i as int),
            decreases upto - i,
        {
            out.push(s[i]);
            i = i + 1;
        }
        if stop {
            assert(out@ =~= before + replace_from(s@, p@, r@, pos as int));
            return out;
        }
        let ghost mid = out@;
        let mut j: usize = 0;
        while j < r.len()
            invariant
                j <= r.len(),
                out@ == mid + r@.take(j as int),
            decreases r.len() - j,
        {
            out.push(r[j]);
            j = j + 1;
        }
        assert(r@.take(r.len() as int) =~= r@);
        assert(before + replace_from(s@, p@, r@, pos as int) =~= out@ + replace_from(s@, p@, r@, upto + p.len()));
        pos = upto + p.len();
    }
}

/// Whether `p` occurs in `s` (`str::contains`).
pub fn contains_chars(s: &Vec<char>, p: &Vec<char>) -> (b: bool)
    ensures
        b == contains_seq(s@, p@),
{
    proof {
        lemma_find_from_range(s@, p@, 0);
    }
    match find_from_exec(s, p, 0) {
        Some(_) => true,
        None => {
            assert forall|i: int| !occurs_at(s@, p@, i) by {
                if 0 <= i {
                }
            }
            false
        },
    }
}

/// Whether `s` begins with `p` (`str::starts_with`).
pub fn starts_with_chars(s: &Vec<char>, p: &Vec<char>) -> (b: bool)
    ensures
        b == starts_with_seq(s@, p@),
{
    let b = occurs_at_exec(s, p, 0);
    proof {
        if p.len() <= s.len() {
            assert(s@.take(p.len() as int) =~= s@.subrange(0, p.len() as int));
        }
    }
    b
}

/// Whether `s` ends with `p` (`str::ends_with`).
pub fn ends_with_chars(s: &Vec<char>, p: &Vec<char>) -> (b: bool)
    ensures
        b == ends_with_seq(s@, p@),
{
    if p.len() > s.len() {
        return false;
    }
    let b = occurs_at_exec(s, p, s.len() - p.len());
    proof {
        assert(s@.skip(s.len() - p.len()) =~= s@.subrange(s.len() - p.len(), s.len() as int));
    }
    b
}

/// `base` joined with `rel` as `Path::join` does on Unix: an absolute `rel`
/// replaces `base`; otherwise a `/` separates them unless `base` is empty or
/// already ends with one.
pub open spec fn path_join_seq(base: Seq<char>, rel: Seq<char>) -> Seq<char> {
    if rel.len() > 0 && rel[0] == '/' {
        rel
    } else if base.len() == 0 || base.last() == '/' {
        base + rel
    } else {
        base + seq!['/'] + rel
    }
}

/// `base` joined with `rel` (`Path::join` on Unix).
pub fn path_join(base: &String, rel: &String) -> (r: String)
    ensures
        r@ == path_join_seq(base@, rel@),
{
    let b = to_chars(base.as_str());
    let r = to_chars(rel.as_str());
    if r.len() > 0 && r[0] == '/' {
        return rel.clone();
    }
    let mut out = base.clone();
    if b.len() > 0 && b[b.len() - 1] != '/' {
        out.append("/");
        proof {
            reveal_strlit("/");
        }
    }
    out.append(rel.as_str());
    out
}

/// Whether `a` and `b` hold the same characters.
pub fn chars_eq(a: &Vec<char>, b: &Vec<char>) -> (r: bool)
    ensures
        r == (a@ == b@),
{
    if a.len() != b.len() {
        return false;
    }
    let mut i: usize = 0;
    while i < a.len()
        invariant
            a.len() == b.len(),
            i <= a.len(),
            forall|k: int| 0 <= k < i ==> a@[k] == b@[k],
        decreases a.len() - i,
    {
        if a[i] != b[i] {
            return false;
        }
        i = i + 1;
    }
    assert(a@ =~= b@);
    true
}

} // verus!
