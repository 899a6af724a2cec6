//! Small tables keyed by text.

use vstd::prelude::*;
use vstd::string::*;
use crate::text::str_eq;

verus! {

/// Values by a key of text. A key finds the value that was entered first
/// for it.
#[derive(Debug)]
pub struct Assoc<V> {
    pub entries: Vec<(String, V)>,
}

/// The value that stands first for `key`, if one is there.
pub open spec fn value_at<V>(entries: Seq<(String, V)>, key: Seq<char>) -> Option<V>
    decreases entries.len(),
{
    if entries.len() == 0 {
        None
    } else if entries[0].0@ == key {
        Some(entries[0].1)
    } else {
        value_at(entries.drop_first(), key)
    }
}

/// A key is found at the first index that holds it, and nowhere if no index
/// does.
pub proof fn lemma_value_at<V>(entries: Seq<(String, V)>, key: Seq<char>, i: int)
    requires
        0 <= i <= entries.len(),
        forall|j: int| 0 <= j < i ==> (#[trigger] entries[j]).0@ != key,
    ensures
        i < entries.len() && entries[i].0@ == key ==> value_at(entries, key) == Some(entries[i].1),
        i == entries.len() ==> value_at(entries, key) is None,
    decreases i,
{
    if i > 0 {
        let rest = entries.drop_first();
        assert(entries[0].0@ != key);
        assert forall|j: int| 0 <= j < i - 1 implies (#[trigger] rest[j]).0@ != key by {
            assert(rest[j] == entries[j + 1]);
        }
        lemma_value_at(rest, key, i - 1);
        if i < entries.len() {
            assert(rest[i - 1] == entries[i]);
        }
    }
}

/// A value entered at the end is found where the key was not there before,
/// and no other key is touched.
pub proof fn lemma_value_at_push<V>(entries: Seq<(String, V)>, key: String, value: V, k: Seq<char>)
    ensures
        value_at(entries.push((key, value)), k) == if value_at(entries, k) is Some {
            value_at(entries, k)
        } else if key@ == k {
            Some(value)
        } else {
            None
        },
    decreases entries.len(),
{
    let after = entries.push((key, value));
    if entries.len() == 0 {
        assert(after.drop_first() =~= Seq::<(String, V)>::empty());
    } else {
        assert(after.drop_first() =~= entries.drop_first().push((key, value)));
        lemma_value_at_push(entries.drop_first(), key, value, k);
    }
}

/// A value put in the place of the first entry for its key is found under
/// that key, and no other key is touched.
pub proof fn lemma_value_at_update<V>(
    entries: Seq<(String, V)>,
    i: int,
    key: String,
    value: V,
    k: Seq<char>,
)
    requires
        0 <= i < entries.len(),
        entries[i].0@ == key@,
        forall|j: int| 0 <= j < i ==> (#[trigger] entries[j]).0@ != key@,
    ensures
        value_at(entries.update(i, (key, value)), k) == if k == key@ {
            Some(value)
        } else {
            value_at(entries, k)
        },
    decreases i,
{
    let after = entries.update(i, (key, value));
    if i == 0 {
        assert(after.drop_first() =~= entries.drop_first());
    } else {
        let rest = entries.drop_first();
        assert(entries[0].0@ != key@);
        assert(after.drop_first() =~= rest.update(i - 1, (key, value)));
        assert forall|j: int| 0 <= j < i - 1 implies (#[trigger] rest[j]).0@ != key@ by {
            assert(rest[j] == entries[j + 1]);
        }
        assert(rest[i - 1] == entries[i]);
        lemma_value_at_update(rest, i - 1, key, value, k);
    }
}

impl<V> Assoc<V> {
    /// The value under `key`.
    pub open spec fn at(&self, key: Seq<char>) -> Option<V> {
        value_at(self.entries@, key)
    }

    /// A table without entries.
    pub fn new() -> (r: Self)
        ensures
            forall|key: Seq<char>| r.at(key) is None,
            r.entries@.len() == 0,
    {
        Assoc { entries: Vec::new() }
    }

    /// The index of the first entry for `key`, or the number of entries.
    fn find(&self, key: &str) -> (i: usize)
        ensures
            i <= self.entries@.len(),
            forall|j: int| 0 <= j < i ==> (#[trigger] self.entries@[j]).0@ != key@,
            i < self.entries@.len() ==> self.entries@[i as int].0@ == key@ && self.at(key@) == Some(
                self.entries@[i as int].1,
            ),
            i == self.entries@.len() ==> self.at(key@) is None,
    {
        let mut i: usize = 0;
        while i < self.entries.len()
            invariant
                i <= self.entries.len(),
                forall|j: int| 0 <= j < i ==> (#[trigger] self.entries@[j]).0@ != key@,
            decreases self.entries.len() - i,
        {
            if str_eq(self.entries[i].0.as_str(), key) {
                proof {
                    lemma_value_at(self.entries@, key@, i as int);
                }
                return i;
            }
            i = i + 1;
        }
        proof {
            lemma_value_at(self.entries@, key@, i as int);
        }
        i
    }

    /// The value under `key`.
    pub fn get(&self, key: &str) -> (r: Option<&V>)
        ensures
            match r {
                Some(v) => self.at(key@) == Some(*v),
                None => self.at(key@) is None,
            },
    {
        let i = self.find(key);
        if i < self.entries.len() {
            Some(&self.entries[i].1)
        } else {
            None
        }
    }

    /// Whether there is a value under `key`.
    pub fn contains_key(&self, key: &str) -> (r: bool)
        ensures
            r == self.at(key@) is Some,
    {
        self.find(key) < self.entries.len()
    }

    /// Enters `value` under `key`, in place of what was there.
    pub fn insert(&mut self, key: String, value: V)
        ensures
            forall|k: Seq<char>|
                #[trigger] value_at(final(self).entries@, k) == if k == key@ {
                    Some(value)
                } else {
                    value_at(old(self).entries@, k)
                },
    {
        let i = self.find(key.as_str());
        proof {
            assert forall|k: Seq<char>|
                #[trigger] value_at(self.entries@.push((key, value)), k) == if self.at(k) is Some {
                    self.at(k)
                } else if k == key@ {
                    Some(value)
                } else {
                    None
                } by {
                lemma_value_at_push(self.entries@, key, value, k);
            }
            if i < self.entries@.len() {
                assert forall|k: Seq<char>|
                    #[trigger] value_at(self.entries@.update(i as int, (key, value)), k) == if k
                        == key@ {
                        Some(value)
                    } else {
                        self.at(k)
                    } by {
                    lemma_value_at_update(self.entries@, i as int, key, value, k);
                }
            }
        }
        if i < self.entries.len() {
            self.entries.set(i, (key, value));
        } else {
            self.entries.push((key, value));
        }
    }
}

} // verus!
