//! The library's model of a JSON value, and lookups in it.

use vstd::prelude::*;
use vstd::string::StrSliceExecFns;

verus! {

/// A JSON value. Integers that fit are held exactly; any other number is held
/// as its decimal text.
#[derive(Debug, PartialEq, Eq)]
pub enum JsonValue {
    Null,
    Bool(bool),
    /// A non-negative integer.
    UInt(u64),
    /// A negative integer.
    Int(i64),
    /// Any other number, as written.
    Decimal(String),
    Str(String),
    Array(Vec<JsonValue>),
    /// The members of an object, in order.
    Object(Vec<(String, JsonValue)>),
}

/// The value of the last member of `fields` named `key`, as a JSON parser that
/// keeps the last of repeated names reads it.
pub open spec fn lookup(fields: Seq<(String, JsonValue)>, key: Seq<char>) -> Option<JsonValue>
    decreases fields.len(),
{
    if fields.len() == 0 {
        None
    } else if fields.last().0@ == key {
        Some(fields.last().1)
    } else {
        lookup(fields.drop_last(), key)
    }
}

/// The member `key` of `v`, where `v` is an object that has one.
pub open spec fn member(v: JsonValue, key: Seq<char>) -> Option<JsonValue> {
    match v {
        JsonValue::Object(fields) => lookup(fields@, key),
        _ => None,
    }
}

/// The text of `v`, where `v` is a string.
pub open spec fn text_of(v: Option<JsonValue>) -> Option<Seq<char>> {
    match v {
        Some(JsonValue::Str(s)) => Some(s@),
        _ => None,
    }
}

/// The text of `v`, or the empty text where `v` is no string.
pub open spec fn text_or_empty(v: Option<JsonValue>) -> Seq<char> {
    match text_of(v) {
        Some(t) => t,
        None => Seq::empty(),
    }
}

/// The value of `v`, where `v` is a boolean; `false` otherwise.
pub open spec fn flag_of(v: Option<JsonValue>) -> bool {
    match v {
        Some(JsonValue::Bool(b)) => b,
        _ => false,
    }
}

/// Whether two texts are equal, character by character.
pub fn text_eq(a: &str, b: &str) -> (r: bool)
    ensures
        r == (a@ == b@),
{
    let n = a.unicode_len();
    if n != b.unicode_len() {
        return false;
    }
    let mut i: usize = 0;
    while i < n
        invariant
            n == a@.len(),
            n == b@.len(),
            i <= n,
            forall|k: int| 0 <= k < i ==> a@[k] == b@[k],
        decreases n - i,
    {
        if a.get_char(i) != b.get_char(i) {
            return false;
        }
        i = i + 1;
    }
    assert(a@ =~= b@);
    true
}

impl JsonValue {
    /// The member `key`, where `self` is an object that has one.
    pub fn get(&self, key: &str) -> (r: Option<&JsonValue>)
        ensures
            match r {
                Some(v) => member(*self, key@) == Some(*v),
                None => member(*self, key@) is None,
            },
    {
        match self {
            JsonValue::Object(fields) => {
                let mut found: Option<&JsonValue> = None;
                let mut i: usize = 0;
                while i < fields.len()
                    invariant
                        i <= fields@.len(),
                        match found {
                            Some(v) => lookup(fields@.take(i as int), key@) == Some(*v),
                            None => lookup(fields@.take(i as int), key@) is None,
                        },
                    decreases fields@.len() - i,
                {
                    assert(fields@.take(i + 1).drop_last() == fields@.take(i as int));
                    if text_eq(fields[i].0.as_str(), key) {
                        found = Some(&fields[i].1);
                    }
                    i = i + 1;
                }
                assert(fields@.take(fields@.len() as int) == fields@);
                found
            },
            _ => None,
        }
    }

    /// The text of the member `key`, where it is a string.
    pub fn get_text(&self, key: &str) -> (r: Option<&String>)
        ensures
            match r {
                Some(s) => member(*self, key@) == Some(JsonValue::Str(*s)) && text_of(
                    member(*self, key@),
                ) == Some(s@),
                None => text_of(member(*self, key@)) is None,
            },
    {
        match self.get(key) {
            Some(JsonValue::Str(s)) => Some(s),
            _ => None,
        }
    }

    /// A copy of the text of the member `key`, or the empty text where the
    /// member is missing or no string.
    pub fn text_or_empty(&self, key: &str) -> (r: String)
        ensures
            r@ == text_or_empty(member(*self, key@)),
    {
        match self.get_text(key) {
            Some(s) => s.clone(),
            None => String::new(),
        }
    }

    /// The member `key` where it is a boolean; `false` otherwise.
    pub fn flag(&self, key: &str) -> (r: bool)
        ensures
            r == flag_of(member(*self, key@)),
    {
        match self.get(key) {
            Some(JsonValue::Bool(b)) => *b,
            _ => false,
        }
    }

    /// The member `key`, taken out of `self`, where `self` is an object that
    /// has one.
    pub fn into_member(self, key: &str) -> (r: Option<JsonValue>)
        ensures
            r == member(self, key@),
    {
        match self {
            JsonValue::Object(members) => {
                let mut fields = members;
                let ghost all = fields@;
                while fields.len() > 0
                    invariant
                        lookup(fields@, key@) == lookup(all, key@),
                        member(self, key@) == lookup(all, key@),
                    decreases fields@.len(),
                {
                    let ghost before = fields@;
                    let last = fields.pop();
                    match last {
                        Some((k, v)) => {
                            assert(before.last() == (k, v));
                            assert(fields@ == before.drop_last());
                            if text_eq(k.as_str(), key) {
                                assert(lookup(before, key@) == Some(v));
                                return Some(v);
                            }
                        },
                        None => {},
                    }
                }
                None
            },
            _ => None,
        }
    }
}

} // verus!
