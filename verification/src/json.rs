//! JSON texts, taken apart one level at a time.
use crate::adapter::{is_first, lookup, pairs};
use crate::text::{same, views};
use std::collections::BTreeMap;
use vstd::prelude::*;
use vstd::string::*;
use vstd::utf8::encode_utf8;

verus! {

/// The members of a JSON object in the order of their names, each as compact JSON. A name that
/// occurs twice counts once, with its last value. `None` where the bytes are no JSON object.
pub uninterp spec fn json_members(bytes: Seq<u8>) -> Option<Seq<(Seq<char>, Seq<char>)>>;

/// The items of a JSON array, each as compact JSON, or `None` where the bytes are no JSON array.
pub uninterp spec fn json_items(bytes: Seq<u8>) -> Option<Seq<Seq<char>>>;

/// The characters of a JSON string, or `None` where the bytes are no JSON string.
pub uninterp spec fn json_string(bytes: Seq<u8>) -> Option<Seq<char>>;

/// `serde_json::from_slice` into a map of values: the members of an object. Nothing is said of the
/// error's wording.
#[verifier::external_body]
pub(crate) fn read_members(bytes: &[u8]) -> (r: Result<Vec<(String, String)>, String>)
    ensures
        match r {
            Ok(v) => json_members(bytes@) == Some(pairs(v@)),
            Err(_) => json_members(bytes@) is None,
        },
{
    let map: BTreeMap<String, serde_json::Value> =
        serde_json::from_slice(bytes).map_err(|e| e.to_string())?;
    Ok(map.into_iter().map(|(k, v)| (k, v.to_string())).collect())
}

/// `serde_json::from_slice` into a vector of values: the items of an array.
#[verifier::external_body]
pub(crate) fn read_items(bytes: &[u8]) -> (r: Option<Vec<String>>)
    ensures
        match r {
            Some(v) => json_items(bytes@) == Some(views(v@)),
            None => json_items(bytes@) is None,
        },
{
    let items: Vec<serde_json::Value> = serde_json::from_slice(bytes).ok()?;
    Some(items.into_iter().map(|v| v.to_string()).collect())
}

/// `serde_json::from_slice` into a string.
#[verifier::external_body]
pub(crate) fn read_string(bytes: &[u8]) -> (r: Option<String>)
    ensures
        match r {
            Some(s) => json_string(bytes@) == Some(s@),
            None => json_string(bytes@) is None,
        },
{
    serde_json::from_slice(bytes).ok()
}

/// The value of a member, where the object has it.
pub fn member<'a>(members: &'a Vec<(String, String)>, name: &str) -> (r: Option<&'a String>)
    ensures
        match r {
            Some(s) => lookup(pairs(members@), name@) == Some(s@),
            None => lookup(pairs(members@), name@) is None,
        },
{
    let ghost p = pairs(members@);
    let mut i: usize = 0;
    while i < members.len()
        invariant
            i <= members.len(),
            p == pairs(members@),
            forall|j: int| 0 <= j < i ==> (#[trigger] p[j]).0 != name@,
        decreases members.len() - i,
    {
        proof {
            assert(p[i as int] == (members[i as int].0@, members[i as int].1@));
        }
        if same(members[i].0.as_str(), name) {
            proof {
                assert(is_first(p, name@, i as int));
            }
            return Some(&members[i].1);
        }
        i += 1;
    }
    proof {
        assert forall|j: int| !is_first(p, name@, j) by {}
    }
    None
}

/// The members of an object, in the order of their names.
pub type Members = Seq<(Seq<char>, Seq<char>)>;

/// The members of a text that is a JSON object.
pub open spec fn members_of(text: Seq<char>) -> Option<Members> {
    json_members(encode_utf8(text))
}

/// The items of a text that is a JSON array.
pub open spec fn items_of(text: Seq<char>) -> Option<Seq<Seq<char>>> {
    json_items(encode_utf8(text))
}

/// The characters of a text that is a JSON string.
pub open spec fn string_of(text: Seq<char>) -> Option<Seq<char>> {
    json_string(encode_utf8(text))
}

/// The members of a text that is a JSON object.
pub fn members_in(text: &str) -> (r: Option<Vec<(String, String)>>)
    ensures
        match r {
            Some(v) => members_of(text@) == Some(pairs(v@)),
            None => members_of(text@) is None,
        },
{
    match read_members(text.as_bytes()) {
        Ok(v) => Some(v),
        Err(_) => None,
    }
}

/// The items of a member that is an array.
pub open spec fn member_items(m: Members, name: Seq<char>) -> Option<Seq<Seq<char>>> {
    match lookup(m, name) {
        Some(text) => items_of(text),
        None => None,
    }
}

/// The items of a member that is an array.
pub fn items_at(m: &Vec<(String, String)>, name: &str) -> (r: Option<Vec<String>>)
    ensures
        match r {
            Some(v) => member_items(pairs(m@), name@) == Some(views(v@)),
            None => member_items(pairs(m@), name@) is None,
        },
{
    match member(m, name) {
        Some(text) => read_items(text.as_str().as_bytes()),
        None => None,
    }
}

/// The members of a member that is an object.
pub open spec fn member_members(m: Members, name: Seq<char>) -> Option<Members> {
    match lookup(m, name) {
        Some(text) => members_of(text),
        None => None,
    }
}

/// The members of a member that is an object.
pub fn members_at(m: &Vec<(String, String)>, name: &str) -> (r: Option<Vec<(String, String)>>)
    ensures
        match r {
            Some(v) => member_members(pairs(m@), name@) == Some(pairs(v@)),
            None => member_members(pairs(m@), name@) is None,
        },
{
    match member(m, name) {
        Some(text) => members_in(text.as_str()),
        None => None,
    }
}

/// The characters of a member that is a string.
pub open spec fn member_string(m: Members, name: Seq<char>) -> Option<Seq<char>> {
    match lookup(m, name) {
        Some(text) => string_of(text),
        None => None,
    }
}

/// The characters of a member that is a string.
pub fn string_at(m: &Vec<(String, String)>, name: &str) -> (r: Option<String>)
    ensures
        match r {
            Some(s) => member_string(pairs(m@), name@) == Some(s@),
            None => member_string(pairs(m@), name@) is None,
        },
{
    match member(m, name) {
        Some(text) => read_string(text.as_str().as_bytes()),
        None => None,
    }
}

} // verus!
