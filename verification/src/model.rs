//! What a tag index holds, and what each operation makes of it.
//!
//! The contents are one sequence of tags with their cache keys, coldest
//! first: the tag that was used least recently stands at the front, and
//! whatever is used moves to the back.

use vstd::prelude::*;

use crate::cache_key::CacheKey;
use crate::tags::MAX_TAG_LEN;

verus! {

/// Most cache keys recorded against a single tag.
///
/// A tag is meant to name a group of entries. One that names hundreds of
/// thousands is really a per-URL label duplicating the cache key, and would
/// crowd out every other tag. Beyond this the oldest key is dropped and only
/// a scan will find it.
pub const MAX_KEYS_PER_TAG: usize = 65536;

/// Evictions attempted before an insert gives up.
pub const EVICT_ATTEMPTS: usize = 64;

/// One tag and the cache keys recorded against it, oldest key first.
#[verifier::ext_equal]
pub struct TagEntry {
    pub tag: Seq<u8>,
    pub keys: Seq<CacheKey>,
}

/// A tag index: its contents, coldest tag first, how often its memory has
/// had no room, and what it has discarded.
#[verifier::ext_equal]
pub struct IndexView {
    pub entries: Seq<TagEntry>,
    pub refusals: nat,
    pub evicted: u64,
    pub dropped: u64,
}

/// No tag occurs twice.
pub open spec fn distinct(entries: Seq<TagEntry>) -> bool {
    forall|i: int, j: int|
        0 <= i < j < entries.len() ==> #[trigger] entries[i].tag != #[trigger] entries[j].tag
}

pub open spec fn has_tag(entries: Seq<TagEntry>, tag: Seq<u8>) -> bool {
    exists|i: int| 0 <= i < entries.len() && #[trigger] entries[i].tag == tag
}

/// Where `tag` stands among `entries`.
pub open spec fn position(entries: Seq<TagEntry>, tag: Seq<u8>) -> int
    recommends
        has_tag(entries, tag),
{
    choose|i: int| 0 <= i < entries.len() && #[trigger] entries[i].tag == tag
}

/// The cache keys recorded against `tag`.
pub open spec fn keys_of(entries: Seq<TagEntry>, tag: Seq<u8>) -> Seq<CacheKey>
    recommends
        has_tag(entries, tag),
{
    entries[position(entries, tag)].keys
}

/// Whether `key` is recorded against `tag`.
pub open spec fn holds(entries: Seq<TagEntry>, tag: Seq<u8>, key: CacheKey) -> bool {
    has_tag(entries, tag) && keys_of(entries, tag).contains(key)
}

/// How many cache keys are held, summed over every tag.
pub open spec fn total_keys(entries: Seq<TagEntry>) -> nat
    decreases entries.len(),
{
    if entries.len() == 0 {
        0
    } else {
        total_keys(entries.drop_last()) + entries.last().keys.len()
    }
}

/// A tag that may enter the index.
pub open spec fn valid_tag(tag: Seq<u8>) -> bool {
    0 < tag.len() <= MAX_TAG_LEN
}

/// What holds of every entry: its tag is valid, and its keys are at least
/// one, at most the limit, and all different.
pub open spec fn valid_entry(entry: TagEntry) -> bool {
    &&& valid_tag(entry.tag)
    &&& 0 < entry.keys.len() <= MAX_KEYS_PER_TAG
    &&& entry.keys.no_duplicates()
}

/// What holds of the contents of an index at all times.
pub open spec fn valid_entries(entries: Seq<TagEntry>) -> bool {
    &&& distinct(entries)
    &&& forall|i: int| 0 <= i < entries.len() ==> valid_entry(#[trigger] entries[i])
}

/// The contents once `tag` has been used: it becomes the warmest.
pub open spec fn touched(entries: Seq<TagEntry>, tag: Seq<u8>) -> Seq<TagEntry> {
    if has_tag(entries, tag) {
        let i = position(entries, tag);
        entries.remove(i).push(entries[i])
    } else {
        entries
    }
}

/// The contents without `tag`.
pub open spec fn without(entries: Seq<TagEntry>, tag: Seq<u8>) -> Seq<TagEntry> {
    if has_tag(entries, tag) {
        entries.remove(position(entries, tag))
    } else {
        entries
    }
}

/// The contents with the keys of `tag` replaced.
pub open spec fn with_keys(
    entries: Seq<TagEntry>,
    tag: Seq<u8>,
    keys: Seq<CacheKey>,
) -> Seq<TagEntry>
    recommends
        has_tag(entries, tag),
{
    entries.update(position(entries, tag), TagEntry { tag, keys })
}

/// A tag's keys once `key` has been recorded against it: a key already there
/// changes nothing, and a full list loses its oldest key.
pub open spec fn with_key(keys: Seq<CacheKey>, key: CacheKey) -> Seq<CacheKey> {
    if keys.contains(key) {
        keys
    } else if keys.len() >= MAX_KEYS_PER_TAG {
        keys.drop_first().push(key)
    } else {
        keys.push(key)
    }
}

/// The contents once `key` has been recorded against `tag`.
pub open spec fn recorded(entries: Seq<TagEntry>, tag: Seq<u8>, key: CacheKey) -> Seq<TagEntry> {
    if has_tag(entries, tag) {
        with_keys(entries, tag, with_key(keys_of(entries, tag), key))
    } else {
        entries.push(TagEntry { tag, keys: seq![key] })
    }
}

/// Whether recording `key` against `tag` pushes out the tag's oldest key.
pub open spec fn drops_oldest(entries: Seq<TagEntry>, tag: Seq<u8>, key: CacheKey) -> bool {
    &&& has_tag(entries, tag)
    &&& !keys_of(entries, tag).contains(key)
    &&& keys_of(entries, tag).len() >= MAX_KEYS_PER_TAG
}

/// Whether recording `key` against `tag` pushes out `held`: the tag's list is
/// full, and that is its oldest key.
pub open spec fn pushes_out(
    entries: Seq<TagEntry>,
    tag: Seq<u8>,
    key: CacheKey,
    held: CacheKey,
) -> bool {
    drops_oldest(entries, tag, key) && held == keys_of(entries, tag)[0]
}

/// Whether recording `key` against `tag` takes no new room.
pub open spec fn needs_no_room(entries: Seq<TagEntry>, tag: Seq<u8>, key: CacheKey) -> bool {
    &&& has_tag(entries, tag)
    &&& keys_of(entries, tag).contains(key) || keys_of(entries, tag).len() >= MAX_KEYS_PER_TAG
}

/// A 64-bit counter that has advanced by `n`.
pub open spec fn advanced(counter: u64, n: int) -> u64 {
    ((counter + n) % 0x1_0000_0000_0000_0000) as u64
}

/// How many entries are for other tags than `tag`.
pub open spec fn others(entries: Seq<TagEntry>, tag: Seq<u8>) -> int {
    if has_tag(entries, tag) {
        entries.len() - 1
    } else {
        entries.len() as int
    }
}

/// An insert of a valid tag that evicted the `n` coldest of the other tags.
///
/// The tag is used first, which puts it out of reach of the evictions: growing
/// an entry cannot drop that entry. Each eviction answers one refusal of the
/// memory below. A successful insert records the key in what is left. A failed
/// one has been refused to the end, either of its attempts or of the tags that
/// it could evict, and records nothing.
pub open spec fn inserted_evicting(
    pre: IndexView,
    tag: Seq<u8>,
    key: CacheKey,
    post: IndexView,
    ok: bool,
    n: int,
) -> bool {
    let used = touched(pre.entries, tag);
    let left = used.skip(n);
    &&& 0 <= n <= others(pre.entries, tag)
    &&& n <= EVICT_ATTEMPTS
    &&& post.evicted == advanced(pre.evicted, n)
    &&& needs_no_room(pre.entries, tag, key) ==> ok && n == 0
    &&& if ok {
        &&& n < EVICT_ATTEMPTS
        &&& post.refusals == pre.refusals + n
        &&& post.entries == recorded(left, tag, key)
        &&& post.dropped == advanced(pre.dropped, if drops_oldest(left, tag, key) { 1 } else { 0 })
    } else {
        &&& n == EVICT_ATTEMPTS || n == others(pre.entries, tag)
        &&& post.refusals == pre.refusals + n + if n == EVICT_ATTEMPTS {
            0int
        } else {
            1int
        }
        &&& post.entries == left
        &&& post.dropped == pre.dropped
    }
}

/// What an insert makes of an index, whatever room there was: an invalid tag
/// is refused and changes nothing, and a valid one is inserted after some
/// number of evictions.
pub open spec fn inserted(
    pre: IndexView,
    tag: Seq<u8>,
    key: CacheKey,
    post: IndexView,
    ok: bool,
) -> bool {
    if valid_tag(tag) {
        exists|n: int| #[trigger] inserted_evicting(pre, tag, key, post, ok, n)
    } else {
        !ok && post == pre
    }
}

pub proof fn lemma_position(entries: Seq<TagEntry>, tag: Seq<u8>, i: int)
    requires
        distinct(entries),
        0 <= i < entries.len(),
        entries[i].tag == tag,
    ensures
        has_tag(entries, tag),
        position(entries, tag) == i,
{
    let p = position(entries, tag);
    assert(0 <= p < entries.len() && entries[p].tag == tag);
}

pub proof fn lemma_total_remove(entries: Seq<TagEntry>, i: int)
    requires
        0 <= i < entries.len(),
    ensures
        total_keys(entries) == total_keys(entries.remove(i)) + entries[i].keys.len(),
    decreases entries.len(),
{
    let rest = entries.remove(i);
    if i == entries.len() - 1 {
        assert(rest =~= entries.drop_last());
    } else {
        lemma_total_remove(entries.drop_last(), i);
        assert(rest.drop_last() =~= entries.drop_last().remove(i));
    }
}

pub proof fn lemma_total_update(entries: Seq<TagEntry>, i: int, entry: TagEntry)
    requires
        0 <= i < entries.len(),
    ensures
        total_keys(entries.update(i, entry)) == total_keys(entries) - entries[i].keys.len()
            + entry.keys.len(),
    decreases entries.len(),
{
    let new = entries.update(i, entry);
    if i == entries.len() - 1 {
        assert(new.drop_last() =~= entries.drop_last());
    } else {
        lemma_total_update(entries.drop_last(), i, entry);
        assert(new.drop_last() =~= entries.drop_last().update(i, entry));
    }
}

pub proof fn lemma_total_push(entries: Seq<TagEntry>, entry: TagEntry)
    ensures
        total_keys(entries.push(entry)) == total_keys(entries) + entry.keys.len(),
{
    assert(entries.push(entry).drop_last() =~= entries);
}

/// Every tag holds a key, so there are at least as many keys as tags.
pub proof fn lemma_total_at_least_tags(entries: Seq<TagEntry>)
    requires
        forall|i: int| 0 <= i < entries.len() ==> valid_entry(#[trigger] entries[i]),
    ensures
        total_keys(entries) >= entries.len(),
    decreases entries.len(),
{
    if entries.len() > 0 {
        lemma_total_at_least_tags(entries.drop_last());
        assert(valid_entry(entries[entries.len() - 1]));
    }
}

pub proof fn lemma_touched(entries: Seq<TagEntry>, tag: Seq<u8>)
    requires
        valid_entries(entries),
    ensures
        valid_entries(touched(entries, tag)),
        touched(entries, tag).len() == entries.len(),
        total_keys(touched(entries, tag)) == total_keys(entries),
        has_tag(touched(entries, tag), tag) == has_tag(entries, tag),
        has_tag(entries, tag) ==> keys_of(touched(entries, tag), tag) == keys_of(entries, tag),
{
    if has_tag(entries, tag) {
        let i = position(entries, tag);
        let new = touched(entries, tag);
        lemma_total_remove(entries, i);
        lemma_total_push(entries.remove(i), entries[i]);
        assert(new[new.len() - 1].tag == tag);
        lemma_position(new, tag, new.len() - 1);
    }
}

pub proof fn lemma_recorded(entries: Seq<TagEntry>, tag: Seq<u8>, key: CacheKey)
    requires
        valid_entries(entries),
        valid_tag(tag),
    ensures
        valid_entries(recorded(entries, tag, key)),
        has_tag(recorded(entries, tag, key), tag),
        keys_of(recorded(entries, tag, key), tag).contains(key),
        has_tag(entries, tag) ==> keys_of(recorded(entries, tag, key), tag) == with_key(
            keys_of(entries, tag),
            key,
        ),
        total_keys(recorded(entries, tag, key)) == total_keys(entries) + if has_tag(entries, tag)
            && (keys_of(entries, tag).contains(key) || drops_oldest(entries, tag, key)) {
            0int
        } else {
            1int
        },
{
    let new = recorded(entries, tag, key);
    if has_tag(entries, tag) {
        let i = position(entries, tag);
        let keys = keys_of(entries, tag);
        assert(valid_entry(entries[i]));
        assert(with_key(keys, key).contains(key)) by {
            if !keys.contains(key) {
                assert(with_key(keys, key).last() == key);
            }
        }
        assert(with_key(keys, key).no_duplicates());
        lemma_total_update(entries, i, TagEntry { tag, keys: with_key(keys, key) });
        lemma_position(new, tag, i);
    } else {
        lemma_total_push(entries, TagEntry { tag, keys: seq![key] });
        assert(new[new.len() - 1].tag == tag);
        lemma_position(new, tag, new.len() - 1);
        assert(seq![key][0] == key);
    }
}

} // verus!
