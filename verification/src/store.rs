//! Where the tags and their keys are kept.
//!
//! The index decides what to record, drop and evict. A store carries that
//! out in some memory of its own, which may run out: one store keeps its
//! entries on the heap, another in a zone shared by several processes.

use vstd::prelude::*;

use crate::bytes::{same_bytes, same_key};
use crate::cache_key::CacheKey;
use crate::model::{
    distinct, has_tag, keys_of, lemma_position, lemma_total_push, lemma_total_remove,
    lemma_total_update, position, total_keys, touched, with_keys, without, TagEntry,
};

verus! {

/// There was no room for what was to be stored.
#[derive(Clone, Copy, Debug, PartialEq, Eq)]
pub struct AllocError;

/// Memory for the entries of a tag index, ordered by use.
///
/// The first three functions are the model that the others are stated over. A
/// store in ordinary Rust can leave them out: it then has no model, and that
/// it does what is stated here rests on its author.
pub trait TagStore: Sized {
    /// The entries held, least recently used first.
    open spec fn entries(&self) -> Seq<TagEntry> {
        arbitrary()
    }

    /// How often this store has had no room for something.
    open spec fn refusals(&self) -> nat {
        arbitrary()
    }

    /// What holds of the store between operations.
    open spec fn sound(&self) -> bool {
        arbitrary()
    }

    /// Whether `tag` is held.
    fn holds(&self, tag: &[u8]) -> (held: bool)
        requires
            self.sound(),
            distinct(self.entries()),
        ensures
            held == has_tag(self.entries(), tag@),
    ;

    /// Makes `tag` the most recently used.
    fn touch(&mut self, tag: &[u8])
        requires
            old(self).sound(),
            distinct(old(self).entries()),
            has_tag(old(self).entries(), tag@),
        ensures
            final(self).sound(),
            final(self).refusals() == old(self).refusals(),
            final(self).entries() == touched(old(self).entries(), tag@),
    ;

    /// Whether `key` is recorded against `tag`.
    fn carries(&self, tag: &[u8], key: &CacheKey) -> (carried: bool)
        requires
            self.sound(),
            distinct(self.entries()),
            has_tag(self.entries(), tag@),
        ensures
            carried == keys_of(self.entries(), tag@).contains(*key),
    ;

    /// How many keys are recorded against `tag`.
    fn key_count(&self, tag: &[u8]) -> (count: usize)
        requires
            self.sound(),
            distinct(self.entries()),
            has_tag(self.entries(), tag@),
        ensures
            count == keys_of(self.entries(), tag@).len(),
    ;

    /// Drops the oldest key of `tag` and puts `key` in the room it leaves.
    fn replace_oldest(&mut self, tag: &[u8], key: &CacheKey)
        requires
            old(self).sound(),
            distinct(old(self).entries()),
            has_tag(old(self).entries(), tag@),
            keys_of(old(self).entries(), tag@).len() > 0,
        ensures
            final(self).sound(),
            final(self).refusals() == old(self).refusals(),
            final(self).entries() == with_keys(
                old(self).entries(),
                tag@,
                keys_of(old(self).entries(), tag@).drop_first().push(*key),
            ),
    ;

    /// Adds `key` to the keys of `tag`, if there is room.
    fn push_key(&mut self, tag: &[u8], key: &CacheKey) -> (done: Result<(), AllocError>)
        requires
            old(self).sound(),
            distinct(old(self).entries()),
            has_tag(old(self).entries(), tag@),
        ensures
            final(self).sound(),
            match done {
                Ok(_) => {
                    &&& final(self).refusals() == old(self).refusals()
                    &&& final(self).entries() == with_keys(
                        old(self).entries(),
                        tag@,
                        keys_of(old(self).entries(), tag@).push(*key),
                    )
                    &&& total_keys(final(self).entries()) <= usize::MAX
                },
                Err(_) => {
                    &&& final(self).refusals() == old(self).refusals() + 1
                    &&& final(self).entries() == old(self).entries()
                },
            },
    ;

    /// Adds `tag` with the one key `key` as the most recently used entry, if
    /// there is room.
    fn create(&mut self, tag: &[u8], key: &CacheKey) -> (done: Result<(), AllocError>)
        requires
            old(self).sound(),
            distinct(old(self).entries()),
            !has_tag(old(self).entries(), tag@),
        ensures
            final(self).sound(),
            match done {
                Ok(_) => {
                    &&& final(self).refusals() == old(self).refusals()
                    &&& final(self).entries() == old(self).entries().push(
                        (TagEntry { tag: tag@, keys: seq![*key] }),
                    )
                    &&& total_keys(final(self).entries()) <= usize::MAX
                },
                Err(_) => {
                    &&& final(self).refusals() == old(self).refusals() + 1
                    &&& final(self).entries() == old(self).entries()
                },
            },
    ;

    /// The least recently used tag.
    fn coldest(&self) -> (tag: Option<Vec<u8>>)
        requires
            self.sound(),
        ensures
            tag is None <==> self.entries().len() == 0,
            tag matches Some(name) ==> name@ == self.entries()[0].tag,
    ;

    /// Removes `tag` and returns its keys, or `None` if it is not held.
    fn remove(&mut self, tag: &[u8]) -> (keys: Option<Vec<CacheKey>>)
        requires
            old(self).sound(),
            distinct(old(self).entries()),
        ensures
            final(self).sound(),
            final(self).refusals() == old(self).refusals(),
            final(self).entries() == without(old(self).entries(), tag@),
            keys is Some <==> has_tag(old(self).entries(), tag@),
            keys matches Some(list) ==> list@ == keys_of(old(self).entries(), tag@),
    ;
}

/// One tag's entry.
pub struct Entry {
    pub tag: Vec<u8>,
    pub keys: Vec<CacheKey>,
}

impl View for Entry {
    type V = TagEntry;

    open spec fn view(&self) -> TagEntry {
        TagEntry { tag: self.tag@, keys: self.keys@ }
    }
}

/// A store on the heap of one process. It has no room once the heap has none,
/// or once it holds more keys than can be counted.
pub struct HeapStore {
    /// Least recently used first.
    pub list: Vec<Entry>,
    /// Keys held, over all entries.
    pub held: usize,
    pub refused: Ghost<nat>,
}

impl HeapStore {
    /// A store that holds nothing.
    pub fn new() -> (store: Self)
        ensures
            store.sound(),
            store.entries() == Seq::<TagEntry>::empty(),
            store.refusals() == 0,
    {
        let store = HeapStore { list: Vec::new(), held: 0, refused: Ghost(0) };
        assert(store.entries() =~= Seq::<TagEntry>::empty());
        store
    }

    fn find(&self, tag: &[u8]) -> (found: Option<usize>)
        requires
            distinct(self.entries()),
        ensures
            found is Some <==> has_tag(self.entries(), tag@),
            found matches Some(i) ==> i < self.list@.len() && i == position(self.entries(), tag@),
    {
        let mut i: usize = 0;
        while i < self.list.len()
            invariant
                i <= self.list@.len(),
                distinct(self.entries()),
                forall|j: int| 0 <= j < i ==> #[trigger] self.entries()[j].tag != tag@,
            decreases self.list@.len() - i,
        {
            if same_bytes(self.list[i].tag.as_slice(), tag) {
                proof {
                    assert(self.entries()[i as int].tag == tag@);
                    lemma_position(self.entries(), tag@, i as int);
                }
                return Some(i);
            }
            i += 1;
        }
        None
    }

    /// The place of a tag that is held.
    fn index_of(&self, tag: &[u8]) -> (i: usize)
        requires
            distinct(self.entries()),
            has_tag(self.entries(), tag@),
        ensures
            i < self.list@.len(),
            i == position(self.entries(), tag@),
    {
        match self.find(tag) {
            Some(i) => i,
            None => 0,
        }
    }

    /// Counts a request for which there was no room.
    fn refuse(&mut self) -> (error: AllocError)
        requires
            old(self).sound(),
        ensures
            final(self).sound(),
            final(self).refusals() == old(self).refusals() + 1,
            final(self).entries() == old(self).entries(),
    {
        self.refused = Ghost(self.refused@ + 1);
        AllocError
    }

    /// Adds `key` to the keys of `tag`, given whether there is `room` for it.
    fn place_key(&mut self, tag: &[u8], key: &CacheKey, room: bool) -> (done: Result<
        (),
        AllocError,
    >)
        requires
            old(self).sound(),
            distinct(old(self).entries()),
            has_tag(old(self).entries(), tag@),
        ensures
            final(self).sound(),
            done is Ok <==> room && old(self).held < usize::MAX,
            match done {
                Ok(_) => {
                    &&& final(self).refusals() == old(self).refusals()
                    &&& final(self).entries() == with_keys(
                        old(self).entries(),
                        tag@,
                        keys_of(old(self).entries(), tag@).push(*key),
                    )
                },
                Err(_) => {
                    &&& final(self).refusals() == old(self).refusals() + 1
                    &&& final(self).entries() == old(self).entries()
                },
            },
    {
        if !room || self.held == usize::MAX {
            return Err(self.refuse());
        }
        let i: usize = self.index_of(tag);
        let ghost keys = keys_of(self.entries(), tag@).push(*key);
        proof {
            lemma_total_update(self.entries(), i as int, TagEntry { tag: tag@, keys });
        }
        self.list[i].keys.push(*key);
        self.held += 1;
        assert(self.entries() =~= with_keys(old(self).entries(), tag@, keys));
        Ok(())
    }

    /// Adds `tag` with the one key `key` as the most recently used entry, in
    /// the empty `name` and `keys`, given whether there is `room` for it.
    fn place(
        &mut self,
        tag: &[u8],
        key: &CacheKey,
        name: Vec<u8>,
        keys: Vec<CacheKey>,
        room: bool,
    ) -> (done: Result<(), AllocError>)
        requires
            old(self).sound(),
            name@.len() == 0,
            keys@.len() == 0,
        ensures
            final(self).sound(),
            done is Ok <==> room && old(self).held < usize::MAX,
            match done {
                Ok(_) => {
                    &&& final(self).refusals() == old(self).refusals()
                    &&& final(self).entries() == old(self).entries().push(
                        (TagEntry { tag: tag@, keys: seq![*key] }),
                    )
                },
                Err(_) => {
                    &&& final(self).refusals() == old(self).refusals() + 1
                    &&& final(self).entries() == old(self).entries()
                },
            },
    {
        if !room || self.held == usize::MAX {
            return Err(self.refuse());
        }
        let mut name: Vec<u8> = name;
        let mut keys: Vec<CacheKey> = keys;
        proof {
            lemma_total_push(self.entries(), TagEntry { tag: tag@, keys: seq![*key] });
        }
        name.extend_from_slice(tag);
        keys.push(*key);
        assert(name@ =~= tag@);
        assert(keys@ =~= seq![*key]);
        self.list.push(Entry { tag: name, keys });
        self.held += 1;
        assert(self.entries() =~= old(self).entries().push(
            TagEntry { tag: tag@, keys: seq![*key] },
        ));
        Ok(())
    }
}

impl TagStore for HeapStore {
    open spec fn entries(&self) -> Seq<TagEntry> {
        self.list@.map_values(|entry: Entry| entry@)
    }

    open spec fn refusals(&self) -> nat {
        self.refused@
    }

    open spec fn sound(&self) -> bool {
        self.held == total_keys(self.entries())
    }

    fn holds(&self, tag: &[u8]) -> (held: bool) {
        self.find(tag).is_some()
    }

    fn touch(&mut self, tag: &[u8]) {
        let i: usize = self.index_of(tag);
        proof {
            lemma_total_remove(self.entries(), i as int);
            lemma_total_push(self.entries().remove(i as int), self.entries()[i as int]);
        }
        let entry: Entry = self.list.remove(i);
        self.list.push(entry);
        assert(self.entries() =~= touched(old(self).entries(), tag@));
    }

    fn carries(&self, tag: &[u8], key: &CacheKey) -> (carried: bool) {
        let i: usize = self.index_of(tag);
        let mut k: usize = 0;
        while k < self.list[i].keys.len()
            invariant
                i < self.list@.len(),
                i == position(self.entries(), tag@),
                k <= self.list@[i as int].keys@.len(),
                forall|j: int| 0 <= j < k ==> self.list@[i as int].keys@[j] != *key,
            decreases self.list@[i as int].keys@.len() - k,
        {
            if same_key(&self.list[i].keys[k], key) {
                return true;
            }
            k += 1;
        }
        false
    }

    fn key_count(&self, tag: &[u8]) -> (count: usize) {
        self.list[self.index_of(tag)].keys.len()
    }

    fn replace_oldest(&mut self, tag: &[u8], key: &CacheKey) {
        let i: usize = self.index_of(tag);
        let ghost keys = keys_of(self.entries(), tag@).drop_first().push(*key);
        proof {
            lemma_total_update(self.entries(), i as int, TagEntry { tag: tag@, keys });
        }
        self.list[i].keys.remove(0);
        self.list[i].keys.push(*key);
        assert(self.entries() =~= with_keys(old(self).entries(), tag@, keys));
    }

    fn push_key(&mut self, tag: &[u8], key: &CacheKey) -> (done: Result<(), AllocError>) {
        let i: usize = self.index_of(tag);
        let room: bool = self.list[i].keys.try_reserve(1).is_ok();
        assert(self.entries() =~= old(self).entries());
        self.place_key(tag, key, room)
    }

    fn create(&mut self, tag: &[u8], key: &CacheKey) -> (done: Result<(), AllocError>) {
        let mut name: Vec<u8> = Vec::new();
        let mut keys: Vec<CacheKey> = Vec::new();
        let room: bool = name.try_reserve(tag.len()).is_ok() && keys.try_reserve(1).is_ok()
            && self.list.try_reserve(1).is_ok();
        assert(self.entries() =~= old(self).entries());
        self.place(tag, key, name, keys, room)
    }

    fn coldest(&self) -> (tag: Option<Vec<u8>>) {
        if self.list.len() == 0 {
            None
        } else {
            Some(vstd::slice::slice_to_vec(self.list[0].tag.as_slice()))
        }
    }

    fn remove(&mut self, tag: &[u8]) -> (keys: Option<Vec<CacheKey>>) {
        let i: usize = self.find(tag)?;
        proof {
            lemma_total_remove(self.entries(), i as int);
        }
        let entry: Entry = self.list.remove(i);
        self.held -= entry.keys.len();
        assert(self.entries() =~= without(old(self).entries(), tag@));
        Some(entry.keys)
    }
}

/// A heap store's entries are those of its list, in that order, each with its
/// own tag and keys, and it has been refused as often as it says.
pub proof fn law_heap_entries_are_the_list(store: HeapStore, i: int)
    ensures
        store.entries().len() == store.list@.len(),
        0 <= i < store.list@.len() ==> {
            &&& store.entries()[i].tag == store.list@[i].tag@
            &&& store.entries()[i].keys == store.list@[i].keys@
        },
        store.sound() ==> store.held == total_keys(store.entries()),
{
}

} // verus!
