//! A JSON document as plain values, the form in which manifests, packuments and advisories
//! reach the logic. Numbers keep their textual form. An object's members are held in order
//! with distinct keys, like the map they are read from.

use vstd::prelude::*;

verus! {

#[derive(Debug, PartialEq)]
pub enum Json {
    Null,
    Bool(bool),
    Number(String),
    Str(String),
    Array(Vec<Json>),
    Object(Vec<(String, Json)>),
}

/// The keys of an object's members, in order.
pub open spec fn member_keys(members: Seq<(String, Json)>) -> Seq<Seq<char>> {
    members.map_values(|m: (String, Json)| m.0@)
}

/// The position of the member named `key`, if any (the first, should there be several).
pub open spec fn member_index(members: Seq<(String, Json)>, key: Seq<char>) -> Option<int>
    decreases members.len(),
{
    if members.len() == 0 {
        None
    } else if members[0].0@ == key {
        Some(0)
    } else {
        match member_index(members.drop_first(), key) {
            Some(i) => Some(i + 1),
            None => None,
        }
    }
}

/// The value of the member named `key` of an object; `None` for a missing member or a value
/// that is not an object.
pub open spec fn get_spec(v: Json, key: Seq<char>) -> Option<Json> {
    match v {
        Json::Object(members) => match member_index(members@, key) {
            Some(i) => Some(members@[i].1),
            None => None,
        },
        _ => None,
    }
}

pub open spec fn as_str_spec(v: Option<Json>) -> Option<Seq<char>> {
    match v {
        Some(Json::Str(s)) => Some(s@),
        _ => None,
    }
}

proof fn lemma_member_index_bounds(members: Seq<(String, Json)>, key: Seq<char>)
    ensures
        member_index(members, key) matches Some(i) ==> 0 <= i < members.len() && members[i].0@ == key,
        member_index(members, key) is None ==> forall|j: int| 0 <= j < members.len() ==> members[j].0@ != key,
    decreases members.len(),
{
    if members.len() > 0 {
        lemma_member_index_bounds(members.drop_first(), key);
        if members[0].0@ != key {
            assert forall|j: int| 0 <= j < members.len() && member_index(members, key) is None implies members[j].0@
                != key by {
                if j > 0 {
                    assert(members[j] == members.drop_first()[j - 1]);
                }
            }
        }
    }
}

fn str_eq(a: &String, b: &str) -> (r: bool)
    ensures
        r == (a@ == b@),
{
    let other = String::from_str(b);
    *a == other
}

/// The position of the member named `key`.
pub fn find_member(members: &Vec<(String, Json)>, key: &str) -> (r: Option<usize>)
    ensures
        match r {
            Some(i) => member_index(members@, key@) == Some(i as int),
            None => member_index(members@, key@) is None,
        },
{
    let mut i: usize = 0;
    while i < members.len()
        invariant
            i <= members@.len(),
            forall|j: int| 0 <= j < i ==> members@[j].0@ != key@,
        decreases members@.len() - i,
    {
        if str_eq(&members[i].0, key) {
            proof {
                lemma_member_index_prefix(members@, key@, i as int);
            }
            return Some(i);
        }
        i = i + 1;
    }
    proof {
        lemma_member_index_prefix(members@, key@, members@.len() as int);
    }
    None
}

proof fn lemma_member_index_prefix(members: Seq<(String, Json)>, key: Seq<char>, i: int)
    requires
        0 <= i <= members.len(),
        forall|j: int| 0 <= j < i ==> members[j].0@ != key,
    ensures
        i < members.len() && members[i].0@ == key ==> member_index(members, key) == Some(i),
        i == members.len() ==> member_index(members, key) is None,
    decreases i,
{
    if i > 0 {
        let rest = members.drop_first();
        assert forall|j: int| 0 <= j < i - 1 implies rest[j].0@ != key by {
            assert(rest[j] == members[j + 1]);
        }
        lemma_member_index_prefix(rest, key, i - 1);
        if i < members.len() {
            assert(rest[i - 1] == members[i]);
        }
    }
}

/// `value.get(key)`.
pub fn get<'a>(value: &'a Json, key: &str) -> (r: Option<&'a Json>)
    ensures
        match r {
            Some(x) => get_spec(*value, key@) == Some(*x),
            None => get_spec(*value, key@) is None,
        },
{
    match value {
        Json::Object(members) => match find_member(members, key) {
            Some(i) => {
                proof {
                    lemma_member_index_bounds(members@, key@);
                }
                Some(&members[i].1)
            },
            None => None,
        },
        _ => None,
    }
}

/// `value.as_str()`.
pub fn as_str(value: Option<&Json>) -> (r: Option<&String>)
    ensures
        match r {
            Some(s) => as_str_spec(match value {
                Some(v) => Some(*v),
                None => None,
            }) == Some(s@),
            None => as_str_spec(match value {
                Some(v) => Some(*v),
                None => None,
            }) is None,
        },
{
    match value {
        Some(Json::Str(s)) => Some(s),
        _ => None,
    }
}

/// Sets the member `key` to `value`: replaced in place where it exists, appended otherwise.
pub open spec fn with_member(members: Seq<(String, Json)>, key: String, value: Json) -> Seq<(String, Json)> {
    match member_index(members, key@) {
        Some(i) => members.update(i, (key, value)),
        None => members.push((key, value)),
    }
}

pub fn insert_member(members: &mut Vec<(String, Json)>, key: String, value: Json)
    ensures
        final(members)@ == with_member(old(members)@, key, value),
{
    match find_member(members, key.as_str()) {
        Some(i) => {
            proof {
                lemma_member_index_bounds(members@, key@);
            }
            members.set(i, (key, value));
        },
        None => {
            members.push((key, value));
        },
    }
}

/// The value of the member named `key`.
pub open spec fn lookup(members: Seq<(String, Json)>, key: Seq<char>) -> Option<Json> {
    match member_index(members, key) {
        Some(i) => Some(members[i].1),
        None => None,
    }
}

proof fn lemma_member_index_push(members: Seq<(String, Json)>, m: (String, Json), key: Seq<char>)
    ensures
        member_index(members.push(m), key) == match member_index(members, key) {
            Some(i) => Some(i),
            None => if m.0@ == key {
                Some(members.len() as int)
            } else {
                None
            },
        },
    decreases members.len(),
{
    let pushed = members.push(m);
    if members.len() > 0 {
        assert(pushed.drop_first() =~= members.drop_first().push(m));
        assert(pushed[0] == members[0]);
        lemma_member_index_push(members.drop_first(), m, key);
        if members[0].0@ != key {
            assert(member_index(pushed, key) == match member_index(pushed.drop_first(), key) {
                Some(i) => Some(i + 1),
                None => None::<int>,
            });
            assert(member_index(members, key) == match member_index(members.drop_first(), key) {
                Some(i) => Some(i + 1),
                None => None::<int>,
            });
        }
    } else {
        assert(pushed[0] == m);
        assert(pushed.drop_first() =~= Seq::<(String, Json)>::empty());
        assert(member_index(Seq::<(String, Json)>::empty(), key) is None);
        assert(member_index(members, key) is None);
    }
}

proof fn lemma_member_index_update(members: Seq<(String, Json)>, i: int, m: (String, Json), key: Seq<char>)
    requires
        0 <= i < members.len(),
        m.0@ == members[i].0@,
    ensures
        member_index(members.update(i, m), key) == member_index(members, key),
    decreases members.len(),
{
    if i > 0 {
        assert(members.update(i, m).drop_first() =~= members.drop_first().update(i - 1, m));
        lemma_member_index_update(members.drop_first(), i - 1, m, key);
    } else {
        assert(members.update(0, m).drop_first() =~= members.drop_first());
    }
}

/// After setting a member, reading it gives back the value set, and every other member reads
/// as before.
pub proof fn lemma_read_after_insert(members: Seq<(String, Json)>, key: String, value: Json, other: Seq<char>)
    ensures
        lookup(with_member(members, key, value), key@) == Some(value),
        other != key@ ==> lookup(with_member(members, key, value), other) == lookup(members, other),
{
    lemma_member_index_bounds(members, key@);
    match member_index(members, key@) {
        Some(i) => {
            lemma_member_index_update(members, i, (key, value), key@);
            lemma_member_index_update(members, i, (key, value), other);
            lemma_member_index_bounds(members, other);
        },
        None => {
            lemma_member_index_push(members, (key, value), key@);
            lemma_member_index_push(members, (key, value), other);
            lemma_member_index_bounds(members, other);
        },
    }
}

/// A JSON value with its strings taken by their characters: what two documents are compared by.
pub enum JsonV {
    Null,
    Bool(bool),
    Number(Seq<char>),
    Str(Seq<char>),
    Array(Seq<JsonV>),
    Object(Seq<(Seq<char>, JsonV)>),
}

pub open spec fn jview(j: Json) -> JsonV
    decreases j,
{
    match j {
        Json::Null => JsonV::Null,
        Json::Bool(b) => JsonV::Bool(b),
        Json::Number(n) => JsonV::Number(n@),
        Json::Str(s) => JsonV::Str(s@),
        Json::Array(items) => JsonV::Array(
            Seq::new(
                items@.len(),
                |i: int|
                    if 0 <= i < items@.len() {
                        proof {
                            vstd::std_specs::vec::axiom_vec_decreases_to_view(items);
                        }
                        jview(items@[i])
                    } else {
                        JsonV::Null
                    },
            ),
        ),
        Json::Object(members) => JsonV::Object(
            Seq::new(
                members@.len(),
                |i: int|
                    if 0 <= i < members@.len() {
                        proof {
                            vstd::std_specs::vec::axiom_vec_decreases_to_view(members);
                        }
                        (members@[i].0@, jview(members@[i].1))
                    } else {
                        (Seq::empty(), JsonV::Null)
                    },
            ),
        ),
    }
}

/// An object's members, each key by its characters and each value by its view.
pub open spec fn members_view(ms: Seq<(String, Json)>) -> Seq<(Seq<char>, JsonV)> {
    Seq::new(ms.len(), |i: int| (ms[i].0@, jview(ms[i].1)))
}

pub proof fn lemma_object_view(members: Vec<(String, Json)>)
    ensures
        jview(Json::Object(members)) == JsonV::Object(members_view(members@)),
{
    let v = jview(Json::Object(members));
    let s = v->Object_0;
    assert(s.len() == members@.len());
    assert forall|i: int| 0 <= i < s.len() implies s[i] == members_view(members@)[i] by {}
    assert(s =~= members_view(members@));
}

pub proof fn lemma_array_view(items: Vec<Json>)
    ensures
        jview(Json::Array(items)) == JsonV::Array(Seq::new(items@.len(), |i: int| jview(items@[i]))),
{
    let v = jview(Json::Array(items));
    let s = v->Array_0;
    assert(s.len() == items@.len());
    assert forall|i: int| 0 <= i < s.len() implies s[i] == jview(items@[i]) by {}
    assert(s =~= Seq::new(items@.len(), |i: int| jview(items@[i])));
}

/// The position of the member named `key` among viewed members (the first, should there be
/// several).
pub open spec fn member_index_v(ms: Seq<(Seq<char>, JsonV)>, key: Seq<char>) -> Option<int>
    decreases ms.len(),
{
    if ms.len() == 0 {
        None
    } else if ms[0].0 == key {
        Some(0)
    } else {
        match member_index_v(ms.drop_first(), key) {
            Some(i) => Some(i + 1),
            None => None,
        }
    }
}

proof fn lemma_member_index_view(ms: Seq<(String, Json)>, key: Seq<char>)
    ensures
        member_index_v(members_view(ms), key) == member_index(ms, key),
    decreases ms.len(),
{
    if ms.len() > 0 {
        assert(members_view(ms).drop_first() =~= members_view(ms.drop_first()));
        lemma_member_index_view(ms.drop_first(), key);
    }
}

/// Sets a viewed member: replaced in place where it exists, appended otherwise.
pub open spec fn with_member_v(ms: Seq<(Seq<char>, JsonV)>, key: Seq<char>, value: JsonV) -> Seq<(Seq<char>, JsonV)> {
    match member_index_v(ms, key) {
        Some(i) => ms.update(i, (key, value)),
        None => ms.push((key, value)),
    }
}

/// Setting a member and then viewing the members is viewing them and then setting it.
pub proof fn lemma_with_member_view(ms: Seq<(String, Json)>, key: String, value: Json)
    ensures
        members_view(with_member(ms, key, value)) == with_member_v(members_view(ms), key@, jview(value)),
{
    lemma_member_index_view(ms, key@);
    lemma_member_index_bounds(ms, key@);
    assert(members_view(with_member(ms, key, value)) =~= with_member_v(members_view(ms), key@, jview(value)));
}

/// A copy of a document, equal to it in every part.
pub fn json_clone(j: &Json) -> (r: Json)
    ensures
        jview(r) == jview(*j),
    decreases j,
{
    match j {
        Json::Null => Json::Null,
        Json::Bool(b) => Json::Bool(*b),
        Json::Number(n) => Json::Number(n.clone()),
        Json::Str(s) => Json::Str(s.clone()),
        Json::Array(items) => {
            let mut out: Vec<Json> = Vec::new();
            let mut i: usize = 0;
            while i < items.len()
                invariant
                    *j == Json::Array(*items),
                    i <= items@.len(),
                    out@.len() == i,
                    forall|k: int| 0 <= k < i ==> jview(#[trigger] out@[k]) == jview(items@[k]),
                decreases items@.len() - i,
            {
                proof {
                    vstd::std_specs::vec::axiom_vec_decreases_to_view(*items);
                    assert(decreases_to!(*j => (*j)->Array_0));
                    assert(decreases_to!(*items => items@));
                    assert(decreases_to!(items@ => items@[i as int]));
                    assert(decreases_to!(*j => items@[i as int]));
                }
                let c = json_clone(&items[i]);
                out.push(c);
                i = i + 1;
            }
            let r = Json::Array(out);
            proof {
                lemma_array_view(out);
                lemma_array_view(*items);
                assert(Seq::new(out@.len(), |k: int| jview(out@[k])) =~= Seq::new(items@.len(), |k: int| jview(items@[k])));
            }
            r
        },
        Json::Object(members) => {
            let mut out: Vec<(String, Json)> = Vec::new();
            let mut i: usize = 0;
            while i < members.len()
                invariant
                    *j == Json::Object(*members),
                    i <= members@.len(),
                    out@.len() == i,
                    forall|k: int|
                        0 <= k < i ==> (#[trigger] out@[k]).0@ == members@[k].0@ && jview(out@[k].1) == jview(
                            members@[k].1,
                        ),
                decreases members@.len() - i,
            {
                proof {
                    vstd::std_specs::vec::axiom_vec_decreases_to_view(*members);
                    assert(decreases_to!(*j => (*j)->Object_0));
                    assert(decreases_to!(*members => members@));
                    assert(decreases_to!(members@ => members@[i as int]));
                    assert(decreases_to!(members@[i as int] => members@[i as int].1));
                    assert(decreases_to!(*j => members@[i as int].1));
                }
                let c = json_clone(&members[i].1);
                out.push((members[i].0.clone(), c));
                i = i + 1;
            }
            proof {
                lemma_object_view(out);
                lemma_object_view(*members);
                assert(members_view(out@) =~= members_view(members@));
            }
            Json::Object(out)
        },
    }
}

#[verifier::external_type_specification]
#[verifier::external_body]
pub struct ExJsonValue(serde_json::Value);

/// The document `serde_json` reads from bytes (objects with their keys in `serde_json`'s
/// order), or `None` when the bytes are not JSON.
pub uninterp spec fn json_parse_spec(bytes: Seq<u8>) -> Option<JsonV>;

/// The message `serde_json` gives for bytes it cannot read as JSON.
pub uninterp spec fn json_parse_error_spec(bytes: Seq<u8>) -> Seq<char>;

/// A `serde_json::Value` as the library's document, node for node (a number as its text).
#[verifier::external_body]
fn json_from_value(value: &serde_json::Value) -> Json {
    match value {
        serde_json::Value::Null => Json::Null,
        serde_json::Value::Bool(b) => Json::Bool(*b),
        serde_json::Value::Number(n) => Json::Number(n.to_string()),
        serde_json::Value::String(s) => Json::Str(s.clone()),
        serde_json::Value::Array(items) => Json::Array(items.iter().map(json_from_value).collect()),
        serde_json::Value::Object(map) => Json::Object(map.iter().map(|(k, v)| (k.clone(), json_from_value(v))).collect()),
    }
}

/// `serde_json::from_slice` into a `serde_json::Value`: trusted to read the bytes as the
/// document `json_parse_spec` names, or to refuse them with the message
/// `json_parse_error_spec` names; both depend on the bytes alone. What the parser accepts and
/// the message's text are not written out.
#[verifier::external_body]
pub(crate) fn parse_json(bytes: &[u8]) -> (r: Result<Json, String>)
    ensures
        match r {
            Ok(j) => json_parse_spec(bytes@) == Some(jview(j)),
            Err(m) => json_parse_spec(bytes@) is None && m@ == json_parse_error_spec(bytes@),
        },
{
    match serde_json::from_slice::<serde_json::Value>(bytes) {
        Ok(v) => Ok(json_from_value(&v)),
        Err(e) => Err(e.to_string()),
    }
}

} // verus!
