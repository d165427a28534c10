//! The tag index.
//!
//! Maps a tag to the set of cache keys carrying it, with an LRU over the
//! tags. Nothing removes a key except purging its tag, so entries for cache
//! files NGINX has since evicted would otherwise pile up forever. The index
//! evicts the coldest tag to make room, which is safe only because a scan of
//! the cache directory is authoritative: a tag that is not held costs a scan.
//! A tag that is held answers with the keys it has, so a key that it lost is
//! not found until the tag is gone from the index.

use vstd::prelude::*;

use crate::bytes::same_bytes;
use crate::cache_key::CacheKey;
use crate::index_laws::law_grown_tag_is_kept;
use crate::model::{
    advanced, drops_oldest, has_tag, inserted, inserted_evicting, keys_of,
    needs_no_room, others, position, recorded, total_keys, touched, valid_entries, valid_tag, with_key,
    without,    IndexView, TagEntry, EVICT_ATTEMPTS, MAX_KEYS_PER_TAG,
};
use crate::store::{AllocError, TagStore};
use crate::tags::MAX_TAG_LEN;

verus! {

/// Tag to cache keys, with an LRU over the tags.
pub struct TagIndex<S> {
    pub store: S,
    /// Tags currently held.
    pub tags: usize,
    /// Cache keys currently held, summed over every tag.
    pub keys: usize,
    /// Tags dropped to make room.
    pub evicted: u64,
    /// Keys dropped because a tag reached the limit.
    pub dropped: u64,
}

impl<S: TagStore> View for TagIndex<S> {
    type V = IndexView;

    open spec fn view(&self) -> IndexView {
        IndexView {
            entries: self.store.entries(),
            refusals: self.store.refusals(),
            evicted: self.evicted,
            dropped: self.dropped,
        }
    }
}

impl<S: TagStore> TagIndex<S> {
    /// The contents are valid and the two counts agree with them.
    pub open spec fn inv(&self) -> bool {
        &&& self.store.sound()
        &&& valid_entries(self@.entries)
        &&& self.tags == self@.entries.len()
        &&& self.keys == total_keys(self@.entries)
    }

    /// An index over a store that holds nothing yet.
    pub fn new(store: S) -> (index: Self)
        requires
            store.sound(),
            store.entries().len() == 0,
        ensures
            index.inv(),
            index.store == store,
            index@ == (IndexView {
                entries: Seq::empty(),
                refusals: store.refusals(),
                evicted: 0,
                dropped: 0,
            }),
    {
        let index = TagIndex { store, tags: 0, keys: 0, evicted: 0, dropped: 0 };
        assert(index@.entries =~= Seq::<TagEntry>::empty());
        index
    }

    /// Records `key` against `tag`, ignoring a key already present.
    ///
    /// A tag that was held keeps its keys, also where there is no room.
    pub fn insert(&mut self, tag: &[u8], key: &CacheKey) -> (done: Result<(), AllocError>)
        requires
            old(self).inv(),
        ensures
            final(self).inv(),
            inserted(old(self)@, tag@, *key, final(self)@, done is Ok),
            has_tag(old(self)@.entries, tag@) ==> {
                &&& has_tag(final(self)@.entries, tag@)
                &&& keys_of(final(self)@.entries, tag@) == if done is Ok {
                    with_key(keys_of(old(self)@.entries, tag@), *key)
                } else {
                    keys_of(old(self)@.entries, tag@)
                }
            },
    {
        let done: Result<(), AllocError> = self.insert_evicting(tag, key);
        proof {
            if has_tag(old(self)@.entries, tag@) {
                law_grown_tag_is_kept(old(self)@, tag@, *key, self@, done is Ok);
            }
        }
        done
    }

    /// Tries to record `key`, evicting the coldest other tags until there is
    /// room for it.
    fn insert_evicting(&mut self, tag: &[u8], key: &CacheKey) -> (done: Result<(), AllocError>)
        requires
            old(self).inv(),
        ensures
            final(self).inv(),
            inserted(old(self)@, tag@, *key, final(self)@, done is Ok),
    {
        if tag.is_empty() || tag.len() > MAX_TAG_LEN {
            return Err(AllocError);
        }
        // Using a tag counts as touching it, and it also puts it behind all
        // others: growing an entry must not be able to drop the very entry it
        // is growing.
        proof {
            crate::model::lemma_touched(self@.entries, tag@);
        }
        if self.store.holds(tag) {
            self.store.touch(tag);
        }
        let ghost pre = old(self)@;
        let ghost used = touched(pre.entries, tag@);
        assert(used.skip(0) =~= used);
        let mut attempt: usize = 0;
        while attempt < EVICT_ATTEMPTS
            invariant
                self.inv(),
                valid_tag(tag@),
                pre == old(self)@,
                attempt <= others(pre.entries, tag@) <= used.len(),
                attempt <= EVICT_ATTEMPTS,
                valid_entries(used),
                has_tag(used, tag@) == has_tag(pre.entries, tag@),
                others(pre.entries, tag@) == others(used, tag@),
                has_tag(used, tag@) ==> used.last().tag == tag@,
                used == touched(pre.entries, tag@),
                self@.entries == used.skip(attempt as int),
                self@.evicted == advanced(pre.evicted, attempt as int),
                self@.dropped == pre.dropped,
                self@.refusals == pre.refusals + attempt,
                needs_no_room(pre.entries, tag@, *key) ==> attempt == 0 && needs_no_room(
                    used,
                    tag@,
                    *key,
                ),
            decreases EVICT_ATTEMPTS - attempt,
        {
            let done: Result<(), AllocError> = if self.store.holds(tag) {
                self.append(tag, key)
            } else {
                self.create(tag, key)
            };
            match done {
                Ok(()) => {
                    assert(inserted_evicting(pre, tag@, *key, self@, true, attempt as int));
                    return Ok(());
                },
                Err(e) => {
                    if !self.evict(tag) {
                        proof {
                            if self@.entries.len() > 0 {
                                assert(used[attempt as int].tag == tag@);
                                crate::model::lemma_position(used, tag@, attempt as int);
                                crate::model::lemma_position(used, tag@, used.len() - 1);
                            }
                        }
                        assert(inserted_evicting(pre, tag@, *key, self@, false, attempt as int));
                        return Err(e);
                    }
                },
            }
            proof {
                assert(used[attempt as int].tag != tag@);
                assert(used.skip(attempt as int).drop_first() =~= used.skip(attempt + 1));
            }
            attempt += 1;
        }
        assert(inserted_evicting(pre, tag@, *key, self@, false, attempt as int));
        Err(AllocError)
    }

    /// Adds a key to a tag that is already present.
    fn append(&mut self, tag: &[u8], key: &CacheKey) -> (done: Result<(), AllocError>)
        requires
            old(self).inv(),
            valid_tag(tag@),
            has_tag(old(self)@.entries, tag@),
        ensures
            final(self).inv(),
            final(self)@.evicted == old(self)@.evicted,
            needs_no_room(old(self)@.entries, tag@, *key) ==> done is Ok,
            match done {
                Ok(_) => {
                    &&& final(self)@.refusals == old(self)@.refusals
                    &&& final(self)@.entries == recorded(old(self)@.entries, tag@, *key)
                    &&& final(self)@.dropped == advanced(
                        old(self)@.dropped,
                        if drops_oldest(old(self)@.entries, tag@, *key) {
                            1
                        } else {
                            0
                        },
                    )
                },
                Err(_) => final(self)@ == (IndexView {
                    refusals: old(self)@.refusals + 1,
                    ..old(self)@
                }),
            },
    {
        proof {
            crate::model::lemma_recorded(self@.entries, tag@, *key);
        }
        if self.store.carries(tag, key) {
            proof {
                let i = position(self@.entries, tag@);
                assert(self@.entries.update(i, self@.entries[i]) =~= self@.entries);
            }
            return Ok(());
        }
        if self.store.key_count(tag) >= MAX_KEYS_PER_TAG {
            self.store.replace_oldest(tag, key);
            self.dropped = self.dropped.wrapping_add(1);
            return Ok(());
        }
        self.store.push_key(tag, key)?;
        self.keys += 1;
        Ok(())
    }

    /// Adds a tag that is not yet present.
    fn create(&mut self, tag: &[u8], key: &CacheKey) -> (done: Result<(), AllocError>)
        requires
            old(self).inv(),
            valid_tag(tag@),
            !has_tag(old(self)@.entries, tag@),
        ensures
            final(self).inv(),
            match done {
                Ok(_) => final(self)@ == (IndexView {
                    entries: recorded(old(self)@.entries, tag@, *key),
                    ..old(self)@
                }),
                Err(_) => final(self)@ == (IndexView {
                    refusals: old(self)@.refusals + 1,
                    ..old(self)@
                }),
            },
    {
        proof {
            crate::model::lemma_recorded(self@.entries, tag@, *key);
            crate::model::lemma_total_at_least_tags(self@.entries);
        }
        self.store.create(tag, key)?;
        self.tags += 1;
        self.keys += 1;
        Ok(())
    }

    /// Drops the coldest tag, unless it is `kept`. Returns whether anything
    /// was there to drop.
    fn evict(&mut self, kept: &[u8]) -> (evicted: bool)
        requires
            old(self).inv(),
        ensures
            final(self).inv(),
            evicted == (old(self)@.entries.len() > 0 && old(self)@.entries[0].tag != kept@),
            final(self)@ == if evicted {
                IndexView {
                    entries: old(self)@.entries.drop_first(),
                    evicted: advanced(old(self)@.evicted, 1),
                    ..old(self)@
                }
            } else {
                old(self)@
            },
    {
        let name: Vec<u8> = match self.store.coldest() {
            None => return false,
            Some(name) => name,
        };
        if same_bytes(name.as_slice(), kept) {
            return false;
        }
        proof {
            crate::model::lemma_position(self@.entries, name@, 0);
            crate::model::lemma_total_remove(self@.entries, 0);
            assert(self@.entries.remove(0) =~= self@.entries.drop_first());
        }
        match self.store.remove(name.as_slice()) {
            None => false,
            Some(keys) => {
                self.tags -= 1;
                self.keys -= keys.len();
                self.evicted = self.evicted.wrapping_add(1);
                true
            },
        }
    }

    /// Removes `tag` and returns the cache keys recorded against it.
    pub fn take(&mut self, tag: &[u8]) -> (keys: Option<Vec<CacheKey>>)
        requires
            old(self).inv(),
        ensures
            final(self).inv(),
            keys is Some <==> has_tag(old(self)@.entries, tag@),
            keys matches Some(list) ==> list@ == keys_of(old(self)@.entries, tag@),
            final(self)@ == (IndexView {
                entries: without(old(self)@.entries, tag@),
                ..old(self)@
            }),
    {
        proof {
            if has_tag(self@.entries, tag@) {
                crate::model::lemma_total_remove(self@.entries, position(self@.entries, tag@));
            }
        }
        let keys: Vec<CacheKey> = self.store.remove(tag)?;
        self.tags -= 1;
        self.keys -= keys.len();
        Some(keys)
    }
}

} // verus!
