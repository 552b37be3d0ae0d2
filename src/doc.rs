use vstd::prelude::*;
use crate::text::str_eq;

verus! {

/// A structured document as it travels in channel payloads: the library's
/// own model of a JSON value. Numbers that are not unsigned integers keep
/// their text.
pub enum Doc {
    Null,
    Bool(bool),
    UInt(u64),
    OtherNumber(String),
    Str(String),
    Array(Vec<Doc>),
    Object(Vec<(String, Doc)>),
}

/// The value under `key` in an object's fields: the first field of that name.
pub open spec fn field_of(fields: Seq<(String, Doc)>, key: Seq<char>) -> Option<Doc>
    decreases fields.len(),
{
    if fields.len() == 0 {
        None
    } else if fields[0].0@ == key {
        Some(fields[0].1)
    } else {
        field_of(fields.drop_first(), key)
    }
}

/// The value under `key` when `d` is an object.
pub open spec fn member(d: Doc, key: Seq<char>) -> Option<Doc> {
    match d {
        Doc::Object(fields) => field_of(fields@, key),
        _ => None,
    }
}

/// The text under `key` when `d` is an object that holds a string there.
pub open spec fn str_member(d: Doc, key: Seq<char>) -> Option<Seq<char>> {
    match member(d, key) {
        Some(Doc::Str(s)) => Some(s@),
        _ => None,
    }
}

/// The keys and texts of an object's fields when each holds a string (its
/// text) or null (`None`); `None` for fields that hold anything else.
pub open spec fn text_fields(fields: Seq<(String, Doc)>) -> Option<Seq<(Seq<char>, Option<Seq<char>>)>>
    decreases fields.len(),
{
    if fields.len() == 0 {
        Some(Seq::empty())
    } else {
        match (text_fields(fields.drop_last()), fields.last().1) {
            (Some(r), Doc::Str(s)) => Some(r.push((fields.last().0@, Some(s@)))),
            (Some(r), Doc::Null) => Some(r.push((fields.last().0@, None))),
            _ => None,
        }
    }
}

/// The fields of an object made of strings and nulls only.
pub open spec fn object_texts(d: Doc) -> Option<Seq<(Seq<char>, Option<Seq<char>>)>> {
    match d {
        Doc::Object(fields) => text_fields(fields@),
        _ => None,
    }
}

/// Appends a field that holds a string or null.
pub fn push_text_field(fields: &mut Vec<(String, Doc)>, key: &str, value: Option<String>)
    requires
        text_fields(old(fields)@).is_some(),
    ensures
        text_fields(final(fields)@) == Some(text_fields(old(fields)@).unwrap().push((key@, match value {
            Some(v) => Some(v@),
            None => None,
        }))),
{
    let ghost before = fields@;
    let v = match value {
        Some(t) => Doc::Str(t),
        None => Doc::Null,
    };
    fields.push((key.to_string(), v));
    assert(fields@.drop_last() == before);
}

impl Doc {
    /// Looks up a field of an object; any other document has none.
    pub fn get(&self, key: &str) -> (r: Option<&Doc>)
        ensures
            match r {
                Some(v) => member(*self, key@) == Some(*v),
                None => member(*self, key@).is_none(),
            },
    {
        match self {
            Doc::Object(fields) => {
                let mut i: usize = 0;
                assert(fields@.subrange(0, fields@.len() as int) == fields@);
                while i < fields.len()
                    invariant
                        member(*self, key@) == field_of(fields@, key@),
                        i <= fields@.len(),
                        field_of(fields@, key@) == field_of(fields@.subrange(i as int, fields@.len() as int), key@),
                    decreases fields.len() - i,
                {
                    let ghost rest = fields@.subrange(i as int, fields@.len() as int);
                    assert(rest.drop_first() == fields@.subrange(i + 1, fields@.len() as int));
                    assert(rest[0] == fields@[i as int]);
                    if str_eq(fields[i].0.as_str(), key) {
                        return Some(&fields[i].1);
                    }
                    i = i + 1;
                }
                None
            },
            _ => None,
        }
    }

    /// The text under `key`, when this is an object holding a string there.
    pub fn get_str(&self, key: &str) -> (r: Option<String>)
        ensures
            match r {
                Some(s) => str_member(*self, key@) == Some(s@),
                None => str_member(*self, key@).is_none(),
            },
    {
        match self.get(key) {
            Some(Doc::Str(s)) => Some(s.clone()),
            _ => None,
        }
    }
}

} // verus!
