//! The named texts that a template can draw on.

use vstd::prelude::*;

use crate::text::same_text;

verus! {

/// A map from field names to their texts.
pub struct Fields {
    entries: Vec<(String, String)>,
}

/// The text of the first entry under `name`.
spec fn lookup(entries: Seq<(String, String)>, name: Seq<char>) -> Option<Seq<char>>
    decreases entries.len(),
{
    if entries.len() == 0 {
        None
    } else if entries[0].0@ == name {
        Some(entries[0].1@)
    } else {
        lookup(entries.skip(1), name)
    }
}

impl View for Fields {
    type V = Map<Seq<char>, Seq<char>>;

    closed spec fn view(&self) -> Map<Seq<char>, Seq<char>> {
        Map::new(
            |name: Seq<char>| lookup(self.entries@, name) is Some,
            |name: Seq<char>| lookup(self.entries@, name)->0,
        )
    }
}

proof fn lemma_lookup_absent(entries: Seq<(String, String)>, name: Seq<char>)
    requires
        forall|k: int| 0 <= k < entries.len() ==> (#[trigger] entries[k]).0@ != name,
    ensures
        lookup(entries, name) is None,
    decreases entries.len(),
{
    if entries.len() > 0 {
        let rest = entries.skip(1);
        assert forall|k: int| 0 <= k < rest.len() implies (#[trigger] rest[k]).0@ != name by {
            assert(rest[k] == entries[k + 1]);
        }
        lemma_lookup_absent(rest, name);
    }
}

proof fn lemma_lookup_first(entries: Seq<(String, String)>, name: Seq<char>, at: int)
    requires
        0 <= at < entries.len(),
        entries[at].0@ == name,
        forall|k: int| 0 <= k < at ==> (#[trigger] entries[k]).0@ != name,
    ensures
        lookup(entries, name) == Some(entries[at].1@),
    decreases entries.len(),
{
    if at > 0 {
        let rest = entries.skip(1);
        assert(entries[0].0@ != name);
        assert forall|k: int| 0 <= k < at - 1 implies (#[trigger] rest[k]).0@ != name by {
            assert(rest[k] == entries[k + 1]);
        }
        assert(rest[at - 1] == entries[at]);
        lemma_lookup_first(rest, name, at - 1);
    }
}

/// Putting `value` where `name` is first found, or at the end, changes what is
/// found under `name` and nothing else.
proof fn lemma_lookup_put(
    before: Seq<(String, String)>,
    after: Seq<(String, String)>,
    at: int,
    name: Seq<char>,
    value: Seq<char>,
    other: Seq<char>,
)
    requires
        0 <= at <= before.len(),
        at < after.len(),
        after.len() == if at < before.len() { before.len() } else { before.len() + 1 },
        forall|k: int| 0 <= k < before.len() && k != at ==> #[trigger] after[k] == before[k],
        at < before.len() ==> before[at].0@ == name,
        forall|k: int| 0 <= k < at ==> (#[trigger] before[k]).0@ != name,
        after[at].0@ == name,
        after[at].1@ == value,
    ensures
        lookup(after, other) == if other == name {
            Some(value)
        } else {
            lookup(before, other)
        },
    decreases after.len(),
{
    if at == 0 {
        if other != name && before.len() > 0 {
            assert(after.skip(1) =~= before.skip(1));
        } else if other != name {
            lemma_lookup_absent(after, other);
        }
    } else {
        assert(after[0] == before[0]);
        assert(before[0].0@ != name);
        let b = before.skip(1);
        let a = after.skip(1);
        assert forall|k: int| 0 <= k < b.len() && k != at - 1 implies #[trigger] a[k] == b[k] by {
            assert(after[k + 1] == before[k + 1]);
        }
        assert forall|k: int| 0 <= k < at - 1 implies (#[trigger] b[k]).0@ != name by {
            assert(b[k] == before[k + 1]);
        }
        lemma_lookup_put(b, a, at - 1, name, value, other);
    }
}

impl Fields {
    /// No fields.
    pub fn new() -> (fields: Fields)
        ensures
            fields@ == Map::<Seq<char>, Seq<char>>::empty(),
    {
        let fields = Fields { entries: Vec::new() };
        assert(fields@ =~= Map::<Seq<char>, Seq<char>>::empty());
        fields
    }

    fn position(&self, name: &str) -> (at: usize)
        ensures
            at <= self.entries@.len(),
            at < self.entries@.len() ==> self.entries@[at as int].0@ == name@,
            forall|k: int| 0 <= k < at ==> (#[trigger] self.entries@[k]).0@ != name@,
    {
        let mut at: usize = 0;
        while at < self.entries.len()
            invariant
                at <= self.entries@.len(),
                forall|k: int| 0 <= k < at ==> (#[trigger] self.entries@[k]).0@ != name@,
            decreases self.entries@.len() - at,
        {
            if same_text(self.entries[at].0.as_str(), name) {
                return at;
            }
            at += 1;
        }
        at
    }

    /// Gives `name` the text `value`, in place of the one it had.
    pub fn insert(&mut self, name: String, value: String)
        ensures
            final(self)@ == old(self)@.insert(name@, value@),
    {
        let ghost before = self.entries@;
        let at = self.position(name.as_str());
        let ghost key = name@;
        let ghost put = value@;
        if at < self.entries.len() {
            self.entries.set(at, (name, value));
        } else {
            self.entries.push((name, value));
        }
        proof {
            assert forall|other: Seq<char>| #[trigger]
                lookup(self.entries@, other) == if other == key {
                    Some(put)
                } else {
                    lookup(before, other)
                } by {
                lemma_lookup_put(before, self.entries@, at as int, key, put, other);
            }
            assert(self@ =~= old(self)@.insert(key, put));
        }
    }

    /// The text under `name`.
    pub fn get(&self, name: &str) -> (found: Option<&String>)
        ensures
            match found {
                Some(value) => self@.contains_key(name@) && self@[name@] == value@,
                None => !self@.contains_key(name@),
            },
    {
        let at = self.position(name);
        if at < self.entries.len() {
            proof {
                lemma_lookup_first(self.entries@, name@, at as int);
            }
            Some(&self.entries[at].1)
        } else {
            proof {
                lemma_lookup_absent(self.entries@, name@);
            }
            None
        }
    }
}

} // verus!
