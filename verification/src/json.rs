//! JSON documents, as far as the poller reads them.

use vstd::prelude::*;

use crate::text::same_text;

verus! {

/// A JSON value. Numbers, booleans and `null` are never looked into and are
/// all `Scalar`.
pub enum Json {
    Scalar,
    Text(String),
    List(Vec<Json>),
    Object(Vec<(String, Json)>),
}

/// The position of the first entry under `key`, or the number of entries if
/// there is none.
pub open spec fn position(entries: Seq<(String, Json)>, key: Seq<char>) -> nat
    decreases entries.len(),
{
    if entries.len() == 0 || entries[0].0@ == key {
        0
    } else {
        1 + position(entries.skip(1), key)
    }
}

proof fn lemma_position(entries: Seq<(String, Json)>, key: Seq<char>, at: int)
    requires
        0 <= at <= entries.len(),
        at < entries.len() ==> entries[at].0@ == key,
        forall|k: int| 0 <= k < at ==> (#[trigger] entries[k]).0@ != key,
    ensures
        position(entries, key) == at,
    decreases entries.len(),
{
    if at > 0 {
        let rest = entries.skip(1);
        assert(entries[0].0@ != key);
        assert forall|k: int| 0 <= k < at - 1 implies (#[trigger] rest[k]).0@ != key by {
            assert(rest[k] == entries[k + 1]);
        }
        assert(at - 1 < rest.len() ==> rest[at - 1] == entries[at]);
        lemma_position(rest, key, at - 1);
    }
}

impl Json {
    /// What an object holds under `key`; nothing for any other value.
    pub open spec fn member(self, key: Seq<char>) -> Option<Json> {
        match self {
            Json::Object(entries) => if position(entries@, key) < entries@.len() {
                Some(entries@[position(entries@, key) as int].1)
            } else {
                None
            },
            _ => None,
        }
    }

    /// The text of a string; nothing for any other value.
    pub open spec fn text(self) -> Option<Seq<char>> {
        match self {
            Json::Text(s) => Some(s@),
            _ => None,
        }
    }

    /// The text that an object holds under `key`.
    pub open spec fn member_text(self, key: Seq<char>) -> Option<Seq<char>> {
        match self.member(key) {
            Some(value) => value.text(),
            None => None,
        }
    }

    /// The list that an object holds under `key`.
    pub open spec fn member_list(self, key: Seq<char>) -> Option<Seq<Json>> {
        match self.member(key) {
            Some(Json::List(items)) => Some(items@),
            _ => None,
        }
    }

    /// What an object holds under `key`.
    pub fn get(&self, key: &str) -> (found: Option<&Json>)
        ensures
            match found {
                Some(value) => self.member(key@) == Some(*value),
                None => self.member(key@) is None,
            },
    {
        match self {
            Json::Object(entries) => {
                let mut at: usize = 0;
                while at < entries.len()
                    invariant
                        at <= entries@.len(),
                        self == &Json::Object(*entries),
                        forall|k: int| 0 <= k < at ==> (#[trigger] entries@[k]).0@ != key@,
                    decreases entries@.len() - at,
                {
                    if same_text(entries[at].0.as_str(), key) {
                        proof {
                            lemma_position(entries@, key@, at as int);
                        }
                        return Some(&entries[at].1);
                    }
                    at += 1;
                }
                proof {
                    lemma_position(entries@, key@, at as int);
                }
                None
            },
            _ => None,
        }
    }

    /// The text of a string.
    pub fn as_text(&self) -> (found: Option<&String>)
        ensures
            match found {
                Some(s) => self.text() == Some(s@),
                None => self.text() is None,
            },
    {
        match self {
            Json::Text(s) => Some(s),
            _ => None,
        }
    }

    /// The text that an object holds under `key`.
    pub fn get_text(&self, key: &str) -> (found: Option<&String>)
        ensures
            match found {
                Some(s) => self.member_text(key@) == Some(s@),
                None => self.member_text(key@) is None,
            },
    {
        match self.get(key) {
            Some(value) => value.as_text(),
            None => None,
        }
    }

    /// The list that an object holds under `key`.
    pub fn get_list(&self, key: &str) -> (found: Option<&Vec<Json>>)
        ensures
            match found {
                Some(items) => self.member_list(key@) == Some(items@) && self.member(key@) == Some(
                    Json::List(*items),
                ),
                None => self.member_list(key@) is None,
            },
    {
        match self.get(key) {
            Some(value) => match value {
                Json::List(items) => Some(items),
                _ => None,
            },
            None => None,
        }
    }
}

/// An object holds under a key the value of the first entry with that key, and
/// nothing if there is no such entry.
pub proof fn lemma_first_entry_counts(entries: Vec<(String, Json)>, key: Seq<char>, at: int)
    requires
        0 <= at <= entries@.len(),
        at < entries@.len() ==> entries@[at].0@ == key,
        forall|k: int| 0 <= k < at ==> (#[trigger] entries@[k]).0@ != key,
    ensures
        at < entries@.len() ==> Json::Object(entries).member(key) == Some(entries@[at].1),
        at == entries@.len() ==> Json::Object(entries).member(key) is None,
{
    lemma_position(entries@, key, at);
}

/// Only objects hold anything under a key.
pub proof fn lemma_only_objects_have_members(value: Json, key: Seq<char>)
    requires
        !(value is Object),
    ensures
        value.member(key) is None,
        value.member_text(key) is None,
        value.member_list(key) is None,
{
}

/// What is held under a key is a text, a list or neither, as the value there is.
pub proof fn lemma_members_keep_their_kind(object: Json, key: Seq<char>, value: Json)
    requires
        object.member(key) == Some(value),
    ensures
        match value {
            Json::Text(s) => object.member_text(key) == Some(s@) && object.member_list(key) is None,
            Json::List(items) => object.member_text(key) is None && object.member_list(key)
                == Some(items@),
            _ => object.member_text(key) is None && object.member_list(key) is None,
        },
{
}

} // verus!
