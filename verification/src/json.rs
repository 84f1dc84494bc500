//! JSON values as plain data, and the lookups that the payload rules need.

use vstd::prelude::*;
use vstd::string::*;

verus! {

/// A JSON value. Numbers are kept without their digits: no rule of this
/// library reads one.
pub enum Json {
    Null,
    Bool(bool),
    Number,
    Text(String),
    Array(Vec<Json>),
    Object(Vec<(String, Json)>),
}

/// `serde_json::Value`, which only the converter below reads.
#[verifier::external_type_specification]
#[verifier::external_body]
pub struct ExJsonValue(serde_json::Value);

/// What `serde_json` makes of the text `body`: the value it parses to, or
/// `None` where it rejects the text.
pub uninterp spec fn parsed_json(body: Seq<u8>) -> Option<Json>;

/// Rewrites a `serde_json::Value` as a `Json`, variant by variant; the
/// members of an object keep the order in which `serde_json` yields them.
/// Nothing is stated of the result.
#[verifier::external_body]
fn from_value(value: serde_json::Value) -> Json {
    match value {
        serde_json::Value::Null => Json::Null,
        serde_json::Value::Bool(b) => Json::Bool(b),
        serde_json::Value::Number(_) => Json::Number,
        serde_json::Value::String(s) => Json::Text(s),
        serde_json::Value::Array(items) => Json::Array(items.into_iter().map(from_value).collect()),
        serde_json::Value::Object(members) => Json::Object(
            members.into_iter().map(|(k, v)| (k, from_value(v))).collect(),
        ),
    }
}

/// `serde_json::from_slice` for a `serde_json::Value`: parses `body` as one
/// JSON text. The result is a function of the bytes alone.
#[verifier::external_body]
fn parse_value(body: &[u8]) -> (r: Option<Json>)
    ensures
        r == parsed_json(body@),
{
    match serde_json::from_slice::<serde_json::Value>(body) {
        Ok(value) => Some(from_value(value)),
        Err(_) => None,
    }
}

/// The value stored under `key` by the first of `members` that has this key.
pub open spec fn lookup(members: Seq<(String, Json)>, key: Seq<char>) -> Option<Json>
    decreases members.len(),
{
    if members.len() == 0 {
        None
    } else if members[0].0@ == key {
        Some(members[0].1)
    } else {
        lookup(members.drop_first(), key)
    }
}

impl Json {
    /// The member `key` of an object; `None` for a missing key and for a
    /// value that is no object.
    pub open spec fn member_of(self, key: Seq<char>) -> Option<Json> {
        match self {
            Json::Object(members) => lookup(members@, key),
            _ => None,
        }
    }

    /// The text of the member `key`, where it is a string.
    pub open spec fn text_of(self, key: Seq<char>) -> Option<Seq<char>> {
        match self.member_of(key) {
            Some(Json::Text(s)) => Some(s@),
            _ => None,
        }
    }

    /// The items of the member `key`, where it is an array.
    pub open spec fn items_of(self, key: Seq<char>) -> Option<Seq<Json>> {
        match self.member_of(key) {
            Some(Json::Array(items)) => Some(items@),
            _ => None,
        }
    }

    /// The text found by going down the members `first` and `second`.
    pub open spec fn text_under(self, first: Seq<char>, second: Seq<char>) -> Option<Seq<char>> {
        match self.member_of(first) {
            Some(inner) => inner.text_of(second),
            None => None,
        }
    }

    /// The text found by going down the members `first`, `second` and
    /// `third`.
    pub open spec fn text_below(self, first: Seq<char>, second: Seq<char>, third: Seq<char>) -> Option<
        Seq<char>,
    > {
        match self.member_of(first) {
            Some(inner) => inner.text_under(second, third),
            None => None,
        }
    }

    /// Parses `body` as one JSON text.
    pub fn parse(body: &[u8]) -> (r: Option<Json>)
        ensures
            r == parsed_json(body@),
    {
        parse_value(body)
    }

    /// Looks up the member `key` of an object.
    pub fn member(&self, key: &str) -> (r: Option<&Json>)
        ensures
            match r {
                Some(v) => self.member_of(key@) == Some(*v),
                None => self.member_of(key@) is None,
            },
    {
        match self {
            Json::Object(members) => {
                let wanted = String::from_str(key);
                let mut i: usize = 0;
                assert(members@.skip(0) =~= members@);
                while i < members.len()
                    invariant
                        i <= members.len(),
                        wanted@ == key@,
                        self.member_of(key@) == lookup(members@, key@),
                        lookup(members@, key@) == lookup(members@.skip(i as int), key@),
                    decreases members.len() - i,
                {
                    assert(members@.skip(i as int).drop_first() =~= members@.skip(i + 1));
                    assert(members@.skip(i as int)[0] == members@[i as int]);
                    if members[i].0 == wanted {
                        return Some(&members[i].1);
                    }
                    i = i + 1;
                }
                None
            },
            _ => None,
        }
    }

    /// Reads the member `key` as a string.
    pub fn text(&self, key: &str) -> (r: Option<&String>)
        ensures
            match r {
                Some(s) => self.text_of(key@) == Some(s@),
                None => self.text_of(key@) is None,
            },
    {
        match self.member(key) {
            Some(Json::Text(s)) => Some(s),
            _ => None,
        }
    }

    /// Reads the string found by going down the members `first` and
    /// `second`.
    pub fn text_in(&self, first: &str, second: &str) -> (r: Option<&String>)
        ensures
            match r {
                Some(s) => self.text_under(first@, second@) == Some(s@),
                None => self.text_under(first@, second@) is None,
            },
    {
        match self.member(first) {
            Some(inner) => inner.text(second),
            None => None,
        }
    }

    /// Reads the string found by going down the members `first`, `second`
    /// and `third`.
    pub fn text_within(&self, first: &str, second: &str, third: &str) -> (r: Option<&String>)
        ensures
            match r {
                Some(s) => self.text_below(first@, second@, third@) == Some(s@),
                None => self.text_below(first@, second@, third@) is None,
            },
    {
        match self.member(first) {
            Some(inner) => inner.text_in(second, third),
            None => None,
        }
    }

    /// Reads the member `key` as an array.
    pub fn items(&self, key: &str) -> (r: Option<&Vec<Json>>)
        ensures
            match r {
                Some(items) => self.items_of(key@) == Some(items@),
                None => self.items_of(key@) is None,
            },
    {
        match self.member(key) {
            Some(Json::Array(items)) => Some(items),
            _ => None,
        }
    }
}

} // verus!
