//! JSON values, as the library reads and edits `package.json` documents.
use vstd::prelude::*;

verus! {

/// A JSON value. Numbers keep their text; an object keeps its members in
/// order, each name once.
#[derive(Debug)]
pub enum JsonValue {
    Null,
    Bool(bool),
    Number(String),
    Str(String),
    Array(Vec<JsonValue>),
    Object(Vec<(String, JsonValue)>),
}

/// The members of an object, each name taken by its characters.
pub open spec fn entry_views(entries: Seq<(String, JsonValue)>) -> Seq<(Seq<char>, JsonValue)> {
    entries.map_values(|e: (String, JsonValue)| (e.0@, e.1))
}

/// The value of the first of `members` named `key`.
pub open spec fn lookup(members: Seq<(Seq<char>, JsonValue)>, key: Seq<char>) -> Option<JsonValue>
    decreases members.len(),
{
    if members.len() == 0 {
        None
    } else if members[0].0 == key {
        Some(members[0].1)
    } else {
        lookup(members.drop_first(), key)
    }
}

/// The index of the first of `members` named `key`, or `-1`.
pub open spec fn lookup_index(members: Seq<(Seq<char>, JsonValue)>, key: Seq<char>) -> int
    decreases members.len(),
{
    if members.len() == 0 {
        -1
    } else if members[0].0 == key {
        0
    } else if lookup_index(members.drop_first(), key) < 0 {
        -1
    } else {
        lookup_index(members.drop_first(), key) + 1
    }
}

/// The members of `v` when it is an object; none otherwise.
pub open spec fn object_members(v: JsonValue) -> Seq<(Seq<char>, JsonValue)> {
    match v {
        JsonValue::Object(entries) => entry_views(entries@),
        _ => Seq::empty(),
    }
}

/// The member `key` of an object; `None` for anything else.
pub open spec fn json_get(v: JsonValue, key: Seq<char>) -> Option<JsonValue> {
    match v {
        JsonValue::Object(entries) => lookup(entry_views(entries@), key),
        _ => None,
    }
}

/// `members` after setting `key` to `value`: the first member of that name
/// gets the value, or a new member is added at the end.
pub open spec fn with_member(members: Seq<(Seq<char>, JsonValue)>, key: Seq<char>, value: JsonValue) -> Seq<
    (Seq<char>, JsonValue),
> {
    let i = lookup_index(members, key);
    if i < 0 {
        members.push((key, value))
    } else {
        members.update(i, (key, value))
    }
}

/// The names of the members of an object, in order; none for anything else.
pub open spec fn member_names(v: JsonValue) -> Seq<Seq<char>> {
    object_members(v).map_values(|e: (Seq<char>, JsonValue)| e.0)
}

pub proof fn lemma_lookup_index(members: Seq<(Seq<char>, JsonValue)>, key: Seq<char>)
    ensures
        -1 <= lookup_index(members, key) < members.len(),
        lookup_index(members, key) >= 0 ==> members[lookup_index(members, key)].0 == key && lookup(
            members,
            key,
        ) == Some(members[lookup_index(members, key)].1),
        lookup_index(members, key) < 0 ==> lookup(members, key) is None && forall|j: int|
            0 <= j < members.len() ==> members[j].0 != key,
        forall|j: int| 0 <= j < lookup_index(members, key) ==> members[j].0 != key,
    decreases members.len(),
{
    if members.len() > 0 && members[0].0 != key {
        let d = members.drop_first();
        lemma_lookup_index(d, key);
        assert forall|j: int| 1 <= j < members.len() implies members[j] == d[j - 1] by {}
    }
}

/// `lookup` finds the first member named `key`.
pub proof fn lemma_lookup_at(members: Seq<(Seq<char>, JsonValue)>, key: Seq<char>, j: int)
    requires
        0 <= j < members.len(),
        members[j].0 == key,
        forall|i: int| 0 <= i < j ==> (#[trigger] members[i]).0 != key,
    ensures
        lookup(members, key) == Some(members[j].1),
        lookup_index(members, key) == j,
    decreases members.len(),
{
    if j > 0 {
        let d = members.drop_first();
        assert(members[0].0 != key);
        assert forall|i: int| 0 <= i < j - 1 implies (#[trigger] d[i]).0 != key by {
            assert(d[i] == members[i + 1]);
        }
        assert(d[j - 1] == members[j]);
        lemma_lookup_at(d, key, j - 1);
    }
}

/// `lookup` finds nothing when no member is named `key`.
pub proof fn lemma_lookup_absent(members: Seq<(Seq<char>, JsonValue)>, key: Seq<char>)
    requires
        forall|i: int| 0 <= i < members.len() ==> (#[trigger] members[i]).0 != key,
    ensures
        lookup(members, key) is None,
        lookup_index(members, key) == -1,
    decreases members.len(),
{
    if members.len() > 0 {
        let d = members.drop_first();
        assert forall|i: int| 0 <= i < d.len() implies (#[trigger] d[i]).0 != key by {
            assert(d[i] == members[i + 1]);
        }
        lemma_lookup_absent(d, key);
    }
}

/// Members with the same names, and the same values under `key`, give the
/// same value for `key`.
pub proof fn lemma_lookup_same(
    a: Seq<(Seq<char>, JsonValue)>,
    b: Seq<(Seq<char>, JsonValue)>,
    key: Seq<char>,
)
    requires
        a.len() == b.len(),
        forall|i: int| 0 <= i < a.len() ==> (#[trigger] a[i]).0 == b[i].0,
        forall|i: int| 0 <= i < a.len() && (#[trigger] a[i]).0 == key ==> a[i].1 == b[i].1,
    ensures
        lookup(a, key) == lookup(b, key),
    decreases a.len(),
{
    if a.len() > 0 {
        let da = a.drop_first();
        let db = b.drop_first();
        assert forall|i: int| 0 <= i < da.len() implies (#[trigger] da[i]).0 == db[i].0 by {
            assert(da[i] == a[i + 1]);
            assert(db[i] == b[i + 1]);
        }
        assert forall|i: int| 0 <= i < da.len() && (#[trigger] da[i]).0 == key implies da[i].1
            == db[i].1 by {
            assert(da[i] == a[i + 1]);
            assert(db[i] == b[i + 1]);
        }
        assert(a[0].0 == b[0].0);
        lemma_lookup_same(da, db, key);
    }
}

/// Reading a member after setting one: the value set for its name, the
/// old value for any other.
pub proof fn lemma_lookup_with_member(
    members: Seq<(Seq<char>, JsonValue)>,
    key: Seq<char>,
    value: JsonValue,
    other: Seq<char>,
)
    ensures
        lookup(with_member(members, key, value), other) == if other == key {
            Some(value)
        } else {
            lookup(members, other)
        },
{
    lemma_lookup_index(members, key);
    let i = lookup_index(members, key);
    let m2 = with_member(members, key, value);
    if i < 0 {
        if other == key {
            assert forall|j: int| 0 <= j < members.len() implies (#[trigger] m2[j]).0 != key by {
                assert(m2[j] == members[j]);
            }
            lemma_lookup_at(m2, key, members.len() as int);
        } else {
            let ext = members.push((other, JsonValue::Null));
            assert forall|j: int| 0 <= j < members.len() implies (#[trigger] members[j]).0 == m2[j].0 by {
                assert(m2[j] == members[j]);
            }
            lemma_lookup_index(members, other);
            let io = lookup_index(members, other);
            if io >= 0 {
                assert forall|j: int| 0 <= j < io implies (#[trigger] m2[j]).0 != other by {
                    assert(m2[j] == members[j]);
                }
                assert(m2[io] == members[io]);
                lemma_lookup_at(m2, other, io);
            } else {
                assert forall|j: int| 0 <= j < m2.len() implies (#[trigger] m2[j]).0 != other by {
                    if j < members.len() {
                        assert(m2[j] == members[j]);
                    }
                }
                lemma_lookup_absent(m2, other);
            }
        }
    } else {
        assert forall|j: int| 0 <= j < members.len() implies (#[trigger] m2[j]).0 == members[j].0 by {}
        if other == key {
            assert forall|j: int| 0 <= j < i implies (#[trigger] m2[j]).0 != key by {}
            lemma_lookup_at(m2, key, i);
        } else {
            assert forall|j: int| 0 <= j < m2.len() && (#[trigger] m2[j]).0 == other implies m2[j].1
                == members[j].1 by {}
            lemma_lookup_same(m2, members, other);
        }
    }
}

/// Finds the first of `entries` named `key`.
pub fn find_member(entries: &Vec<(String, JsonValue)>, key: &str) -> (r: Option<usize>)
    ensures
        match r {
            Some(i) => i == lookup_index(entry_views(entries@), key@),
            None => lookup_index(entry_views(entries@), key@) < 0,
        },
{
    let ghost ev = entry_views(entries@);
    proof {
        lemma_lookup_index(ev, key@);
    }
    let k = crate::text::to_chars(key);
    let mut i: usize = 0;
    while i < entries.len()
        invariant
            i <= entries@.len(),
            k@ == key@,
            ev == entry_views(entries@),
            forall|j: int| 0 <= j < i ==> ev[j].0 != key@,
            -1 <= lookup_index(ev, key@) < ev.len(),
            lookup_index(ev, key@) >= 0 ==> ev[lookup_index(ev, key@)].0 == key@,
            forall|j: int| 0 <= j < lookup_index(ev, key@) ==> ev[j].0 != key@,
            lookup_index(ev, key@) < 0 ==> forall|j: int| 0 <= j < ev.len() ==> ev[j].0 != key@,
        decreases entries.len() - i,
    {
        assert(ev[i as int].0 == entries@[i as int].0@);
        if crate::text::chars_eq(&crate::text::to_chars(entries[i].0.as_str()), &k) {
            return Some(i);
        }
        i = i + 1;
    }
    None
}

/// The member `key` of `v` when `v` is an object.
pub fn get<'a>(v: &'a JsonValue, key: &str) -> (r: Option<&'a JsonValue>)
    ensures
        match r {
            Some(x) => json_get(*v, key@) == Some(*x),
            None => json_get(*v, key@) is None,
        },
{
    match v {
        JsonValue::Object(entries) => {
            proof {
                lemma_lookup_index(entry_views(entries@), key@);
            }
            match find_member(entries, key) {
                Some(i) => {
                    assert(entry_views(entries@)[i as int].1 == entries@[i as int].1);
                    Some(&entries[i].1)
                },
                None => None,
            }
        },
        _ => None,
    }
}

/// Sets the member `key` to `value`, adding it at the end when it is new.
pub fn set_member(entries: &mut Vec<(String, JsonValue)>, key: String, value: JsonValue)
    ensures
        entry_views(final(entries)@) == with_member(entry_views(old(entries)@), key@, value),
{
    proof {
        lemma_lookup_index(entry_views(entries@), key@);
    }
    match find_member(entries, key.as_str()) {
        Some(i) => {
            let ghost before = entries@;
            entries.set(i, (key, value));
            assert(entry_views(entries@) =~= entry_views(before).update(i as int, (key@, value)));
        },
        None => {
            let ghost before = entries@;
            entries.push((key, value));
            assert(entry_views(entries@) =~= entry_views(before).push((key@, value)));
        },
    }
}

/// The names of the members of `v` when it is an object; none otherwise.
pub fn object_keys(v: &JsonValue) -> (r: Vec<String>)
    ensures
        crate::text::views(r@) == member_names(*v),
{
    match v {
        JsonValue::Object(entries) => {
            let mut out: Vec<String> = Vec::new();
            let mut i: usize = 0;
            while i < entries.len()
                invariant
                    i <= entries@.len(),
                    crate::text::views(out@) == entries@.take(i as int).map_values(
                        |e: (String, JsonValue)| e.0@,
                    ),
                decreases entries.len() - i,
            {
                let ghost before = out@;
                out.push(entries[i].0.clone());
                assert(out@ =~= before.push(entries@[i as int].0));
                assert(entries@.take(i + 1) =~= entries@.take(i as int).push(entries@[i as int]));
                assert(crate::text::views(out@) =~= crate::text::views(before).push(
                    entries@[i as int].0@,
                ));
                i = i + 1;
            }
            assert(entries@.take(entries.len() as int) =~= entries@);
            assert(member_names(*v) =~= entries@.map_values(|e: (String, JsonValue)| e.0@));
            out
        },
        _ => {
            let out: Vec<String> = Vec::new();
            assert(crate::text::views(out@) =~= Seq::<Seq<char>>::empty());
            out
        },
    }
}

} // verus!
