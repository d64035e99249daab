//! JSON values that envelopes carry.

use vstd::prelude::*;

use crate::text;

verus! {

/// One JSON value.
#[derive(Debug)]
pub enum Json {
    /// `null`.
    Null,
    /// A boolean.
    Bool(bool),
    /// A number that is a 64-bit signed integer.
    Integer(i64),
    /// Any other number, by its text.
    Number(String),
    /// A string.
    Str(String),
    /// An array.
    Array(Vec<Json>),
    /// An object's members.
    Object(Vec<(String, Json)>),
}

/// Value of the first member with the key at or after `k`.
pub open spec fn member_from(members: Seq<(String, Json)>, key: Seq<char>, k: int) -> Option<Json>
    decreases members.len() - k,
{
    if k < 0 || k >= members.len() {
        None
    } else if members[k].0@ == key {
        Some(members[k].1)
    } else {
        member_from(members, key, k + 1)
    }
}

/// Member of an object; none for any other value.
pub open spec fn member(value: Json, key: Seq<char>) -> Option<Json> {
    match value {
        Json::Object(members) => member_from(members@, key, 0),
        _ => None,
    }
}

/// Text member of an object.
pub open spec fn text_member(value: Json, key: Seq<char>) -> Option<Seq<char>> {
    match member(value, key) {
        Some(Json::Str(s)) => Some(s@),
        _ => None,
    }
}

/// Integer member of an object.
pub open spec fn integer_member(value: Json, key: Seq<char>) -> Option<i64> {
    match member(value, key) {
        Some(Json::Integer(n)) => Some(n),
        _ => None,
    }
}

/// Field of a record with `n` fields: by its key in an object, and by its
/// place in an array of exactly the fields in order.
pub open spec fn field(value: Json, key: Seq<char>, i: int, n: int) -> Option<Json> {
    match value {
        Json::Object(members) => member_from(members@, key, 0),
        Json::Array(items) => if 0 <= i < n && items@.len() == n {
            Some(items@[i])
        } else {
            None
        },
        _ => None,
    }
}

/// Text field of a record.
pub open spec fn text_field(value: Json, key: Seq<char>, i: int, n: int) -> Option<Seq<char>> {
    match field(value, key, i, n) {
        Some(Json::Str(s)) => Some(s@),
        _ => None,
    }
}

/// Boolean field of a record.
pub open spec fn bool_field(value: Json, key: Seq<char>, i: int, n: int) -> Option<bool> {
    match field(value, key, i, n) {
        Some(Json::Bool(b)) => Some(b),
        _ => None,
    }
}

/// Name of a bare variant: a text, or an object whose one member holds null.
pub open spec fn variant_name(value: Json) -> Option<Seq<char>> {
    match value {
        Json::Str(s) => Some(s@),
        Json::Object(members) => if members@.len() == 1 && members@[0].1 is Null {
            Some(members@[0].0@)
        } else {
            None
        },
        _ => None,
    }
}

/// Whether a value is a JSON text.
pub open spec fn text_value(v: Json, s: Seq<char>) -> bool {
    v matches Json::Str(x) && x@ == s
}

/// Whether a member has a key and a text.
pub open spec fn text_entry(m: (String, Json), key: Seq<char>, s: Seq<char>) -> bool {
    m.0@ == key && text_value(m.1, s)
}

/// Index of the first member with the key.
pub fn position_in(members: &Vec<(String, Json)>, key: &str) -> (r: Option<usize>)
    ensures
        match r {
            Some(i) => i < members@.len() && member_from(members@, key@, 0) == Some(
                members@[i as int].1,
            ),
            None => member_from(members@, key@, 0) is None,
        },
{
    let mut k: usize = 0;
    while k < members.len()
        invariant
            k <= members@.len(),
            member_from(members@, key@, 0) == member_from(members@, key@, k as int),
        decreases members.len() - k,
    {
        if text::eq(members[k].0.as_str(), key) {
            return Some(k);
        }
        k = k + 1;
    }
    None
}

/// Member of an object.
pub fn get<'a>(value: &'a Json, key: &str) -> (r: Option<&'a Json>)
    ensures
        match r {
            Some(x) => member(*value, key@) == Some(*x),
            None => member(*value, key@) is None,
        },
{
    match value {
        Json::Object(members) => match position_in(members, key) {
            Some(i) => Some(&members[i].1),
            None => None,
        },
        _ => None,
    }
}

/// Text member of an object.
pub fn get_text<'a>(value: &'a Json, key: &str) -> (r: Option<&'a str>)
    ensures
        match r {
            Some(s) => text_member(*value, key@) == Some(s@),
            None => text_member(*value, key@) is None,
        },
{
    match get(value, key) {
        Some(Json::Str(s)) => Some(s.as_str()),
        _ => None,
    }
}

/// Integer member of an object.
pub fn get_integer(value: &Json, key: &str) -> (r: Option<i64>)
    ensures
        r == integer_member(*value, key@),
{
    match get(value, key) {
        Some(Json::Integer(n)) => Some(*n),
        _ => None,
    }
}

/// Field of a record with `n` fields.
pub fn get_field<'a>(value: &'a Json, key: &str, i: usize, n: usize) -> (r: Option<&'a Json>)
    ensures
        match r {
            Some(x) => field(*value, key@, i as int, n as int) == Some(*x),
            None => field(*value, key@, i as int, n as int) is None,
        },
{
    match value {
        Json::Object(members) => match position_in(members, key) {
            Some(k) => Some(&members[k].1),
            None => None,
        },
        Json::Array(items) => if i < n && items.len() == n {
            Some(&items[i])
        } else {
            None
        },
        _ => None,
    }
}

/// Text field of a record.
pub fn get_text_field<'a>(value: &'a Json, key: &str, i: usize, n: usize) -> (r: Option<&'a str>)
    ensures
        match r {
            Some(s) => text_field(*value, key@, i as int, n as int) == Some(s@),
            None => text_field(*value, key@, i as int, n as int) is None,
        },
{
    match get_field(value, key, i, n) {
        Some(Json::Str(s)) => Some(s.as_str()),
        _ => None,
    }
}

/// Boolean field of a record.
pub fn get_bool_field(value: &Json, key: &str, i: usize, n: usize) -> (r: Option<bool>)
    ensures
        r == bool_field(*value, key@, i as int, n as int),
{
    match get_field(value, key, i, n) {
        Some(Json::Bool(b)) => Some(*b),
        _ => None,
    }
}

/// Name of a bare variant.
pub fn get_variant_name(value: &Json) -> (r: Option<&str>)
    ensures
        match r {
            Some(s) => variant_name(*value) == Some(s@),
            None => variant_name(*value) is None,
        },
{
    match value {
        Json::Str(s) => Some(s.as_str()),
        Json::Object(members) => if members.len() == 1 {
            match &members[0].1 {
                Json::Null => Some(members[0].0.as_str()),
                _ => None,
            }
        } else {
            None
        },
        _ => None,
    }
}

/// Member with a text.
pub fn entry(key: &str, value: &str) -> (m: (String, Json))
    ensures
        text_entry(m, key@, value@),
{
    (key.to_owned(), Json::Str(value.to_owned()))
}

/// A member is the value of the first entry with its key, and only objects
/// have members.
pub proof fn law_members_are_found_by_key(members: Vec<(String, Json)>, key: Seq<char>, i: int)
    requires
        0 <= i < members@.len(),
        members@[i].0@ == key,
        forall|j: int| 0 <= j < i ==> (#[trigger] members@[j]).0@ != key,
    ensures
        member(Json::Object(members), key) == Some(members@[i].1),
{
    lemma_member_from(members@, key, 0, i);
}

proof fn lemma_member_from(members: Seq<(String, Json)>, key: Seq<char>, k: int, i: int)
    requires
        0 <= k <= i < members.len(),
        members[i].0@ == key,
        forall|j: int| 0 <= j < i ==> (#[trigger] members[j]).0@ != key,
    ensures
        member_from(members, key, k) == Some(members[i].1),
    decreases i - k,
{
    if k < i {
        lemma_member_from(members, key, k + 1, i);
    }
}

/// A key that no entry has is no member.
pub proof fn law_absent_keys_are_no_members(members: Seq<(String, Json)>, key: Seq<char>, k: int)
    requires
        0 <= k,
        forall|j: int| 0 <= j < members.len() ==> (#[trigger] members[j]).0@ != key,
    ensures
        member_from(members, key, k) is None,
    decreases members.len() - k,
{
    if k < members.len() {
        law_absent_keys_are_no_members(members, key, k + 1);
    }
}

} // verus!
