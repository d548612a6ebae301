//! Ordered attribute dictionaries: lookup and in-place update. An update of a
//! key that is present replaces its value where it stands; an update of an
//! absent key appends a new entry at the end. Attribute presence and order are
//! first-class: nothing here ever drops or reorders another entry.

use vstd::prelude::*;
use crate::types::{Dict, DictEntry, PdfValue};
use crate::names::bytes_eq;

verus! {

/// All keys of the entry sequence are distinct.
pub open spec fn dict_keys_unique(s: Seq<DictEntry>) -> bool {
    forall|i: int, j: int| 0 <= i < j < s.len() ==> s[i].key@ != s[j].key@
}

/// Some entry carries the given key.
pub open spec fn dict_has_key(s: Seq<DictEntry>, key: Seq<u8>) -> bool {
    exists|i: int| 0 <= i < s.len() && s[i].key@ == key
}

/// The index of the entry carrying the given key (meaningful when the key is
/// present and keys are unique).
pub open spec fn dict_index_of(s: Seq<DictEntry>, key: Seq<u8>) -> int {
    choose|i: int| 0 <= i < s.len() && s[i].key@ == key
}

/// The value stored under the given key, if any.
pub open spec fn dict_get(s: Seq<DictEntry>, key: Seq<u8>) -> Option<PdfValue> {
    if dict_has_key(s, key) {
        Some(s[dict_index_of(s, key)].value)
    } else {
        None
    }
}

/// The entry sequence after storing `value` under `key`: replaced in place
/// when the key is present, appended otherwise.
pub open spec fn dict_set(s: Seq<DictEntry>, key: Vec<u8>, value: PdfValue) -> Seq<DictEntry> {
    if dict_has_key(s, key@) {
        s.update(dict_index_of(s, key@), DictEntry { key: s[dict_index_of(s, key@)].key, value })
    } else {
        s.push(DictEntry { key, value })
    }
}

/// When keys are unique, any entry matching the key stands at the chosen index.
pub proof fn lemma_index_of_unique(s: Seq<DictEntry>, key: Seq<u8>, i: int)
    requires
        dict_keys_unique(s),
        0 <= i < s.len(),
        s[i].key@ == key,
    ensures
        dict_index_of(s, key) == i,
        dict_has_key(s, key),
        dict_get(s, key) == Some(s[i].value),
{
    assert(dict_has_key(s, key));
    let w = dict_index_of(s, key);
    assert(0 <= w < s.len() && s[w].key@ == key);
    if w != i {
        if w < i {
            assert(s[w].key@ != s[i].key@);
        } else {
            assert(s[i].key@ != s[w].key@);
        }
    }
}

/// Storing a value keeps the keys unique.
pub proof fn lemma_set_keeps_keys_unique(s: Seq<DictEntry>, key: Vec<u8>, value: PdfValue)
    requires
        dict_keys_unique(s),
    ensures
        dict_keys_unique(dict_set(s, key, value)),
{
    let post = dict_set(s, key, value);
    if dict_has_key(s, key@) {
        let w = dict_index_of(s, key@);
        assert(forall|j: int| 0 <= j < post.len() ==> post[j].key@ == s[j].key@);
    }
}

/// After storing a value, looking its key up returns exactly that value.
pub proof fn lemma_get_set_same(s: Seq<DictEntry>, key: Vec<u8>, value: PdfValue)
    requires
        dict_keys_unique(s),
    ensures
        dict_get(dict_set(s, key, value), key@) == Some(value),
        dict_has_key(dict_set(s, key, value), key@),
{
    let post = dict_set(s, key, value);
    lemma_set_keeps_keys_unique(s, key, value);
    if dict_has_key(s, key@) {
        let w = dict_index_of(s, key@);
        assert(post[w].key@ == key@);
        lemma_index_of_unique(post, key@, w);
    } else {
        assert(post[s.len() as int].key@ == key@);
        lemma_index_of_unique(post, key@, s.len() as int);
    }
}

/// Storing a value leaves every other key's lookup unchanged.
pub proof fn lemma_get_set_other(s: Seq<DictEntry>, key: Vec<u8>, value: PdfValue, other: Seq<u8>)
    requires
        dict_keys_unique(s),
        other != key@,
    ensures
        dict_get(dict_set(s, key, value), other) == dict_get(s, other),
{
    let post = dict_set(s, key, value);
    lemma_set_keeps_keys_unique(s, key, value);
    if dict_has_key(s, other) {
        let i = dict_index_of(s, other);
        assert(0 <= i < s.len() && s[i].key@ == other);
        if dict_has_key(s, key@) {
            let w = dict_index_of(s, key@);
            assert(w != i);
            assert(post[i] == s[i]);
        } else {
            assert(post[i] == s[i]);
        }
        lemma_index_of_unique(post, other, i);
        lemma_index_of_unique(s, other, i);
    } else {
        if dict_has_key(post, other) {
            let i = dict_index_of(post, other);
            assert(0 <= i < post.len() && post[i].key@ == other);
            if dict_has_key(s, key@) {
                assert(post[i].key@ == s[i].key@);
                assert(dict_has_key(s, other));
            } else {
                if i < s.len() {
                    assert(dict_has_key(s, other));
                } else {
                    assert(post[i].key@ == key@);
                }
            }
        }
    }
}

/// Storing a value moves no entry: every key keeps its position, entries with
/// other keys are untouched, and anything appended carries the stored key.
pub proof fn lemma_set_positional(s: Seq<DictEntry>, key: Vec<u8>, value: PdfValue)
    ensures
        s.len() <= dict_set(s, key, value).len(),
        forall|j: int|
            0 <= j < s.len() ==> (#[trigger] dict_set(s, key, value)[j]).key == s[j].key,
        forall|j: int|
            0 <= j < s.len() && s[j].key@ != key@ ==> #[trigger] dict_set(s, key, value)[j]
                == s[j],
        forall|j: int|
            s.len() <= j < dict_set(s, key, value).len() ==> (#[trigger] dict_set(
                s,
                key,
                value,
            )[j]).key@ == key@,
{
    if dict_has_key(s, key@) {
        let w = dict_index_of(s, key@);
        assert(0 <= w < s.len() && s[w].key@ == key@);
    }
}

impl Dict {
    /// The dictionary's keys are unique.
    pub open spec fn wf(&self) -> bool {
        dict_keys_unique(self.entries@)
    }

    /// An empty dictionary.
    pub fn new() -> (r: Dict)
        ensures
            r.entries@ =~= Seq::<DictEntry>::empty(),
            r.wf(),
    {
        Dict { entries: Vec::new() }
    }

    /// The number of attributes.
    pub fn len(&self) -> (r: usize)
        ensures
            r == self.entries@.len(),
    {
        self.entries.len()
    }

    /// The index of the entry carrying the given key, if any.
    pub fn index_of_key(&self, key: &[u8]) -> (r: Option<usize>)
        requires
            self.wf(),
        ensures
            match r {
                Some(i) => i < self.entries@.len() && self.entries@[i as int].key@ == key@
                    && dict_index_of(self.entries@, key@) == i
                    && dict_has_key(self.entries@, key@),
                None => !dict_has_key(self.entries@, key@),
            },
    {
        let n = self.entries.len();
        let mut i: usize = 0;
        while i < n
            invariant
                self.wf(),
                n == self.entries@.len(),
                0 <= i <= n,
                forall|j: int| 0 <= j < i ==> self.entries@[j].key@ != key@,
            decreases n - i,
        {
            if bytes_eq(self.entries[i].key.as_slice(), key) {
                proof {
                    lemma_index_of_unique(self.entries@, key@, i as int);
                }
                return Some(i);
            }
            i = i + 1;
        }
        None
    }

    /// Looks an attribute up by name.
    pub fn get(&self, key: &[u8]) -> (r: Option<&PdfValue>)
        requires
            self.wf(),
        ensures
            match r {
                Some(v) => dict_get(self.entries@, key@) == Some(*v),
                None => dict_get(self.entries@, key@) is None,
            },
    {
        match self.index_of_key(key) {
            Some(i) => Some(&self.entries[i].value),
            None => None,
        }
    }

    /// Whether an attribute with the given name is present.
    pub fn contains_key(&self, key: &[u8]) -> (r: bool)
        requires
            self.wf(),
        ensures
            r == dict_has_key(self.entries@, key@),
    {
        match self.index_of_key(key) {
            Some(_) => true,
            None => false,
        }
    }

    /// Stores `value` under `key`: replaced in place when the key is present,
    /// appended at the end otherwise. No other entry moves or changes.
    pub fn set_value(&mut self, key: Vec<u8>, value: PdfValue)
        requires
            old(self).wf(),
        ensures
            final(self).entries@ == dict_set(old(self).entries@, key, value),
            final(self).wf(),
    {
        proof {
            lemma_set_keeps_keys_unique(self.entries@, key, value);
        }
        match self.index_of_key(key.as_slice()) {
            Some(i) => {
                let entry = self.entries.remove(i);
                self.entries.insert(i, DictEntry { key: entry.key, value });
                proof {
                    assert(self.entries@ =~= dict_set(old(self).entries@, key, value));
                }
            }
            None => {
                self.entries.push(DictEntry { key, value });
            }
        }
    }
}

} // verus!
