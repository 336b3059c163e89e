//! A JSON document as the library reads it: what `mise ls --json` reports.

use vstd::prelude::*;
use crate::text::str_eq;

verus! {

/// A JSON value. Numbers are kept as their text: nothing here computes with them.
#[derive(Debug, PartialEq)]
pub enum Json {
    Null,
    Bool(bool),
    Number(String),
    Str(String),
    Array(Vec<Json>),
    Object(Vec<JsonMember>),
}

/// One member of a JSON object.
#[derive(Debug, PartialEq)]
pub struct JsonMember {
    pub key: String,
    pub value: Json,
}

/// The value under `key` among the members of an object: the first member with that key.
pub open spec fn lookup(members: Seq<JsonMember>, key: Seq<char>) -> Option<Json>
    decreases members.len(),
{
    if members.len() == 0 {
        None
    } else if members[0].key@ == key {
        Some(members[0].value)
    } else {
        lookup(members.skip(1), key)
    }
}

/// The keys of the members of an object, in order.
pub open spec fn member_keys(members: Seq<JsonMember>) -> Seq<Seq<char>> {
    members.map_values(|m: JsonMember| m.key@)
}

/// The keys of a document that is an object; none for any other document, or none at all.
pub open spec fn object_keys(doc: Option<Json>) -> Seq<Seq<char>> {
    match doc {
        Some(Json::Object(members)) => member_keys(members@),
        _ => Seq::<Seq<char>>::empty(),
    }
}

/// The value under `key` among the members of an object.
pub fn lookup_exec<'a>(members: &'a Vec<JsonMember>, key: &str) -> (r: Option<&'a Json>)
    ensures
        r matches Some(v) ==> lookup(members@, key@) == Some(*v),
        r is None ==> lookup(members@, key@) is None,
{
    let mut i: usize = 0;
    assert(members@.skip(0) =~= members@);
    while i < members.len()
        invariant
            i <= members.len(),
            lookup(members@, key@) == lookup(members@.skip(i as int), key@),
        decreases members.len() - i,
    {
        if str_eq(members[i].key.as_str(), key) {
            return Some(&members[i].value);
        }
        assert(members@.skip(i as int).skip(1) =~= members@.skip(i + 1));
        i = i + 1;
    }
    None
}

/// The keys of a document that is an object, in order; empty for anything else.
pub fn object_keys_exec(doc: &Option<Json>) -> (r: Vec<String>)
    ensures
        r.deep_view() == object_keys(*doc),
{
    let mut r: Vec<String> = Vec::new();
    match doc {
        Some(Json::Object(members)) => {
            let mut i: usize = 0;
            while i < members.len()
                invariant
                    i <= members.len(),
                    r.deep_view() == member_keys(members@).take(i as int),
                decreases members.len() - i,
            {
                r.push(members[i].key.clone());
                i = i + 1;
                assert(member_keys(members@).take(i as int) =~= member_keys(members@).take(
                    i - 1,
                ).push(members@[i - 1].key@));
                assert(r.deep_view() =~= member_keys(members@).take(i as int));
            }
            assert(member_keys(members@).take(members.len() as int) =~= member_keys(members@));
        },
        _ => {
            assert(r.deep_view() =~= object_keys(*doc));
        },
    }
    r
}

} // verus!
