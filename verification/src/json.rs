//! The library's model of a JSON value, and the navigation steps the
//! backend-response parsers take on it.
//!
//! The transport parses the raw response body and hands the library a
//! [`Json`] tree of plain values; every defensive check on the tree's shape
//! is made here, in verified code.

use vstd::prelude::*;
use crate::text::str_eq;

verus! {

/// A JSON value as the library sees it. A number is carried as its decimal
/// text; no navigation path of the backend's responses reads one.
pub enum Json {
    Null,
    Bool(bool),
    Num(String),
    Str(String),
    Arr(Vec<Json>),
    Obj(Vec<(String, Json)>),
}

/// The member of an object's pair list named `key`, front to back.
pub open spec fn member_lookup(pairs: Seq<(String, Json)>, key: Seq<char>) -> Option<Json>
    decreases pairs.len(),
{
    if pairs.len() == 0 {
        None
    } else if pairs[0].0@ == key {
        Some(pairs[0].1)
    } else {
        member_lookup(pairs.drop_first(), key)
    }
}

/// The member named `key` of `j`, if `j` is an object that has one.
pub open spec fn spec_member(j: Json, key: Seq<char>) -> Option<Json> {
    match j {
        Json::Obj(pairs) => member_lookup(pairs@, key),
        _ => None,
    }
}

/// The element of `j` at `i`, if `j` is an array that long.
pub open spec fn spec_element(j: Json, i: int) -> Option<Json> {
    match j {
        Json::Arr(items) => if 0 <= i < items@.len() {
            Some(items@[i])
        } else {
            None
        },
        _ => None,
    }
}

/// The characters of `j`, if `j` is a string.
pub open spec fn spec_text(j: Json) -> Option<Seq<char>> {
    match j {
        Json::Str(s) => Some(s@),
        _ => None,
    }
}

/// The member of the object `j` named `key`, or `None` where `j` is not an
/// object or has no such member.
pub fn member<'a>(j: &'a Json, key: &str) -> (r: Option<&'a Json>)
    ensures
        match r {
            Some(c) => spec_member(*j, key@) == Some(*c),
            None => spec_member(*j, key@) is None,
        },
{
    match j {
        Json::Obj(pairs) => {
            proof {
                assert(pairs@.skip(0) =~= pairs@);
            }
            let mut i: usize = 0;
            while i < pairs.len()
                invariant
                    *j == Json::Obj(*pairs),
                    i <= pairs@.len(),
                    member_lookup(pairs@, key@) == member_lookup(
                        pairs@.skip(i as int),
                        key@,
                    ),
                decreases pairs@.len() - i,
            {
                proof {
                    assert(pairs@.skip(i as int)[0] == pairs@[i as int]);
                    assert(pairs@.skip(i as int).drop_first() =~= pairs@.skip(i + 1));
                }
                if str_eq(pairs[i].0.as_str(), key) {
                    proof {
                        assert(member_lookup(pairs@.skip(i as int), key@)
                            == Some(pairs@[i as int].1));
                    }
                    return Some(&pairs[i].1);
                }
                i += 1;
            }
            None
        },
        _ => None,
    }
}

/// The element of the array `j` at `i`, or `None` where `j` is not an array
/// or is shorter.
pub fn element<'a>(j: &'a Json, i: usize) -> (r: Option<&'a Json>)
    ensures
        match r {
            Some(c) => spec_element(*j, i as int) == Some(*c),
            None => spec_element(*j, i as int) is None,
        },
{
    match j {
        Json::Arr(items) => {
            if i < items.len() {
                Some(&items[i])
            } else {
                None
            }
        },
        _ => None,
    }
}

/// The text of the string `j`, or `None` where `j` is not a string.
pub fn text<'a>(j: &'a Json) -> (r: Option<&'a String>)
    ensures
        match r {
            Some(s) => spec_text(*j) == Some(s@),
            None => spec_text(*j) is None,
        },
{
    match j {
        Json::Str(s) => Some(s),
        _ => None,
    }
}

} // verus!
