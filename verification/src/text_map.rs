//! A mapping from text to text that remembers the order in which its keys
//! first came.

use vstd::prelude::*;
use crate::entries::{
    distinct_keys, lemma_find, lemma_upsert_distinct, pairs, position, upsert, upsert_all,
    value_of, values_of, Entry,
};
use crate::text::texts;

verus! {

/// Text values under distinct text keys, in the order the keys were first put.
#[derive(Debug, PartialEq, Eq)]
pub struct TextMap {
    entries: Vec<Entry<String>>,
}

impl View for TextMap {
    type V = Seq<(Seq<char>, Seq<char>)>;

    closed spec fn view(&self) -> Seq<(Seq<char>, Seq<char>)> {
        pairs(self.entries@)
    }
}

impl TextMap {
    #[verifier::type_invariant]
    spec fn keys_are_distinct(&self) -> bool {
        distinct_keys(pairs(self.entries@))
    }

    /// A mapping that holds nothing.
    pub fn new() -> (made: TextMap)
        ensures
            made@ == Seq::<(Seq<char>, Seq<char>)>::empty(),
    {
        let made = TextMap { entries: Vec::new() };
        assert(made@ =~= Seq::<(Seq<char>, Seq<char>)>::empty());
        made
    }

    /// How many keys the mapping holds.
    pub fn len(&self) -> (n: usize)
        ensures
            n == self@.len(),
    {
        self.entries.len()
    }

    /// The entries in order.
    pub fn entries(&self) -> (all: &Vec<Entry<String>>)
        ensures
            pairs(all@) == self@,
            distinct_keys(self@),
    {
        proof {
            use_type_invariant(self);
        }
        &self.entries
    }

    /// The value under `key`.
    pub fn get(&self, key: &str) -> (found: Option<&String>)
        ensures
            match found {
                Some(value) => value_of(self@, key@) == Some(value@),
                None => value_of(self@, key@) is None,
            },
    {
        match position(&self.entries, key) {
            Some(i) => Some(&self.entries[i].value),
            None => None,
        }
    }

    /// Puts `value` under `key`: in the key's place where the mapping has it,
    /// at the end otherwise.
    pub fn insert(&mut self, key: String, value: String)
        ensures
            final(self)@ == upsert(old(self)@, key@, value@),
    {
        proof {
            use_type_invariant(&*self);
            lemma_upsert_distinct(self@, key@, value@);
            lemma_find(self@, key@);
        }
        let mut entries: Vec<Entry<String>> = Vec::new();
        core::mem::swap(&mut self.entries, &mut entries);
        match position(&entries, key.as_str()) {
            Some(i) => {
                entries.set(i, Entry { key, value });
            },
            None => {
                entries.push(Entry { key, value });
            },
        }
        assert(pairs(entries@) =~= upsert(old(self)@, key@, value@));
        core::mem::swap(&mut self.entries, &mut entries);
    }

    /// Puts every entry of `batch` into the mapping, first to last.
    pub fn insert_all(&mut self, batch: &Vec<Entry<String>>)
        ensures
            final(self)@ == upsert_all(old(self)@, pairs(batch@)),
    {
        let mut i: usize = 0;
        while i < batch.len()
            invariant
                i <= batch.len(),
                self@ == upsert_all(old(self)@, pairs(batch@).take(i as int)),
            decreases batch.len() - i,
        {
            proof {
                let next = pairs(batch@).take(i + 1);
                assert(next.drop_last() =~= pairs(batch@).take(i as int));
                assert(next.last() == pairs(batch@)[i as int]);
            }
            self.insert(batch[i].key.clone(), batch[i].value.clone());
            i += 1;
        }
        assert(pairs(batch@).take(batch.len() as int) =~= pairs(batch@));
    }

    /// The mapping that the entries spell out when put in one after the other:
    /// a later entry replaces the value of an earlier one under the same key.
    pub fn from_entries(entries: &Vec<Entry<String>>) -> (made: TextMap)
        ensures
            made@ == upsert_all(Seq::empty(), pairs(entries@)),
    {
        let mut made = TextMap::new();
        made.insert_all(entries);
        made
    }

    /// A copy of the values in order.
    pub fn values(&self) -> (all: Vec<String>)
        ensures
            texts(all@) == values_of(self@),
    {
        let mut all: Vec<String> = Vec::new();
        let mut i: usize = 0;
        while i < self.entries.len()
            invariant
                i <= self.entries.len(),
                all@.len() == i,
                forall|j: int| 0 <= j < i ==> all@[j]@ == (#[trigger] self.entries@[j]).value@,
            decreases self.entries.len() - i,
        {
            all.push(self.entries[i].value.clone());
            i += 1;
        }
        assert(texts(all@) =~= values_of(self@));
        all
    }

    /// A copy of the entries in order.
    pub fn to_entries(&self) -> (all: Vec<Entry<String>>)
        ensures
            pairs(all@) == self@,
            distinct_keys(self@),
    {
        proof {
            use_type_invariant(self);
        }
        let mut all: Vec<Entry<String>> = Vec::new();
        let mut i: usize = 0;
        while i < self.entries.len()
            invariant
                i <= self.entries.len(),
                all@.len() == i,
                forall|j: int| 0 <= j < i ==> all@[j]@ == (#[trigger] self.entries@[j])@,
            decreases self.entries.len() - i,
        {
            all.push(Entry { key: self.entries[i].key.clone(), value: self.entries[i].value.clone() });
            i += 1;
        }
        assert(pairs(all@) =~= self@);
        all
    }
}

impl Clone for TextMap {
    fn clone(&self) -> (copy: TextMap)
        ensures
            copy@ == self@,
    {
        proof {
            use_type_invariant(self);
        }
        let entries = self.to_entries();
        TextMap { entries }
    }
}

} // verus!
