//! The applied key-value state of a replica: a journal of `set` operations
//! whose abstract value is the map from each key to the value it was last
//! set to.

use vstd::prelude::*;

verus! {

/// One applied `set` operation.
pub struct StoreEntry {
    pub key: String,
    pub value: u32,
}

/// The value bound to `key` by a journal of entries: the value of the latest
/// entry for `key`, if any.
pub open spec fn journal_lookup(entries: Seq<StoreEntry>, key: Seq<char>) -> Option<u32>
    decreases entries.len(),
{
    if entries.len() == 0 {
        None
    } else if entries.last().key@ == key {
        Some(entries.last().value)
    } else {
        journal_lookup(entries.drop_last(), key)
    }
}

/// The replicated store.
pub struct Store {
    entries: Vec<StoreEntry>,
}

impl View for Store {
    type V = Map<Seq<char>, u32>;

    /// The abstract value: keys mapped to the value they were last set to.
    closed spec fn view(&self) -> Map<Seq<char>, u32> {
        Map::new(
            |k: Seq<char>| journal_lookup(self.entries@, k) is Some,
            |k: Seq<char>| journal_lookup(self.entries@, k)->0,
        )
    }
}

impl Store {
    /// The journal of applied `set` operations, oldest first.
    pub closed spec fn journal(&self) -> Seq<StoreEntry> {
        self.entries@
    }

    pub fn new() -> (r: Store)
        ensures
            r@ == Map::<Seq<char>, u32>::empty(),
            r.journal() =~= Seq::<StoreEntry>::empty(),
    {
        let r = Store { entries: Vec::new() };
        proof {
            assert(r@ =~= Map::<Seq<char>, u32>::empty());
        }
        r
    }

    /// Bind `key` to `value`.
    pub fn set(&mut self, key: String, value: u32)
        ensures
            final(self)@ == old(self)@.insert(key@, value),
            final(self).journal() == old(self).journal().push(
                StoreEntry { key: key, value: value },
            ),
    {
        self.entries.push(StoreEntry { key, value });
        proof {
            assert(self.entries@.drop_last() =~= old(self).entries@);
            assert(self@ =~= old(self)@.insert(self.entries@.last().key@, value));
        }
    }

    /// The value bound to `key`, if any.
    pub fn get(&self, key: &String) -> (r: Option<u32>)
        ensures
            r == (if self@.contains_key(key@) {
                Some(self@[key@])
            } else {
                None::<u32>
            }),
    {
        let mut remaining: usize = self.entries.len();
        proof {
            assert(self.entries@.subrange(0, self.entries@.len() as int) =~= self.entries@);
        }
        while remaining > 0
            invariant
                remaining <= self.entries@.len(),
                journal_lookup(self.entries@, key@) == journal_lookup(
                    self.entries@.subrange(0, remaining as int),
                    key@,
                ),
            decreases remaining,
        {
            let entry = &self.entries[remaining - 1];
            proof {
                assert(self.entries@.subrange(0, remaining as int).drop_last() =~= self.entries@
                    .subrange(0, remaining - 1));
            }
            if entry.key == *key {
                return Some(entry.value);
            }
            remaining = remaining - 1;
        }
        proof {
            assert(self.entries@.subrange(0, 0) =~= Seq::<StoreEntry>::empty());
        }
        None
    }

    /// An independent copy with the same abstract value and journal.
    pub fn snapshot(&self) -> (r: Store)
        ensures
            r@ == self@,
            r.journal() == self.journal(),
    {
        let mut copied: Vec<StoreEntry> = Vec::new();
        let mut i: usize = 0;
        while i < self.entries.len()
            invariant
                i <= self.entries@.len(),
                copied@ =~= self.entries@.subrange(0, i as int),
            decreases self.entries@.len() - i,
        {
            let entry = &self.entries[i];
            copied.push(StoreEntry { key: entry.key.clone(), value: entry.value });
            i = i + 1;
        }
        let r = Store { entries: copied };
        proof {
            assert(r.entries@ =~= self.entries@);
        }
        r
    }

    /// The journal as plain pairs, oldest first, for callers that must
    /// carry the snapshot across a wire.
    pub fn journal_pairs(&self) -> (r: Vec<(String, u32)>)
        ensures
            r@.len() == self.journal().len(),
            forall|j: int|
                0 <= j < r@.len() ==> (#[trigger] r@[j]).0@ == self.journal()[j].key@
                    && r@[j].1 == self.journal()[j].value,
    {
        let mut out: Vec<(String, u32)> = Vec::new();
        let mut i: usize = 0;
        while i < self.entries.len()
            invariant
                i <= self.entries@.len(),
                out@.len() == i as int,
                forall|j: int|
                    0 <= j < out@.len() ==> (#[trigger] out@[j]).0@ == self.entries@[j].key@
                        && out@[j].1 == self.entries@[j].value,
            decreases self.entries@.len() - i,
        {
            let entry = &self.entries[i];
            out.push((entry.key.clone(), entry.value));
            i = i + 1;
        }
        out
    }

    /// The canonical byte encoding of the journal, hashed into checkpoint
    /// state digests: for each entry, the key's UTF-8 bytes followed by the
    /// eight little-endian bytes of the value.
    pub fn encode(&self) -> (r: Vec<u8>)
        ensures
            r@ == journal_bytes(self.journal()),
    {
        let mut out: Vec<u8> = Vec::new();
        let mut i: usize = 0;
        while i < self.entries.len()
            invariant
                i <= self.entries@.len(),
                out@ == journal_bytes(self.entries@.subrange(0, i as int)),
            decreases self.entries@.len() - i,
        {
            let entry = &self.entries[i];
            crate::encoding::push_str_bytes(&mut out, entry.key.as_str());
            let value_bytes = crate::encoding::u64_to_le_bytes(entry.value as u64);
            crate::encoding::push_bytes(&mut out, value_bytes.as_slice());
            proof {
                assert(self.entries@.subrange(0, i + 1).drop_last() =~= self.entries@.subrange(
                    0,
                    i as int,
                ));
            }
            i = i + 1;
        }
        proof {
            assert(self.entries@.subrange(0, self.entries@.len() as int) =~= self.entries@);
        }
        out
    }
}

/// The canonical byte encoding of a journal.
pub open spec fn journal_bytes(entries: Seq<StoreEntry>) -> Seq<u8>
    decreases entries.len(),
{
    if entries.len() == 0 {
        Seq::empty()
    } else {
        journal_bytes(entries.drop_last()) + vstd::utf8::encode_utf8(entries.last().key@)
            + crate::encoding::le_bytes(entries.last().value as nat, 8)
    }
}

} // verus!
