//! What the operations of a tag index promise together.

use vstd::prelude::*;

use crate::cache_key::CacheKey;
use crate::index::TagIndex;
use crate::model::{
    distinct, drops_oldest, has_tag, holds, inserted, inserted_evicting, keys_of, lemma_position,
    lemma_recorded, lemma_total_push, lemma_touched, position, pushes_out, recorded, total_keys,
    touched, valid_entries, valid_entry, valid_tag, with_key, without, IndexView, TagEntry,
    EVICT_ATTEMPTS, MAX_KEYS_PER_TAG,
};
use crate::store::TagStore;

verus! {

proof fn lemma_skip(entries: Seq<TagEntry>, n: int, tag: Seq<u8>)
    requires
        valid_entries(entries),
        0 <= n <= entries.len(),
    ensures
        valid_entries(entries.skip(n)),
        has_tag(entries.skip(n), tag) <==> has_tag(entries, tag) && position(entries, tag) >= n,
        has_tag(entries.skip(n), tag) ==> keys_of(entries.skip(n), tag) == keys_of(entries, tag),
        has_tag(entries.skip(n), tag) ==> position(entries.skip(n), tag) == position(entries, tag)
            - n,
{
    let left = entries.skip(n);
    assert forall|i: int| 0 <= i < left.len() implies valid_entry(#[trigger] left[i]) by {
        assert(valid_entry(entries[n + i]));
    }
    assert(distinct(left)) by {
        assert forall|i: int, j: int| 0 <= i < j < left.len() implies #[trigger] left[i].tag
            != #[trigger] left[j].tag by {
            assert(entries[n + i].tag != entries[n + j].tag);
        }
    }
    if has_tag(left, tag) {
        let i = position(left, tag);
        assert(entries[n + i].tag == tag);
        lemma_position(entries, tag, n + i);
    }
    if has_tag(entries, tag) && position(entries, tag) >= n {
        assert(left[position(entries, tag) - n].tag == tag);
    }
}

proof fn lemma_touched_other(entries: Seq<TagEntry>, tag: Seq<u8>, other: Seq<u8>)
    requires
        valid_entries(entries),
        other != tag,
    ensures
        has_tag(touched(entries, tag), other) == has_tag(entries, other),
        has_tag(entries, other) ==> keys_of(touched(entries, tag), other) == keys_of(
            entries,
            other,
        ),
        has_tag(entries, other) && has_tag(entries, tag) ==> position(touched(entries, tag), other)
            == if position(entries, other) < position(entries, tag) {
            position(entries, other)
        } else {
            position(entries, other) - 1
        },
{
    let new = touched(entries, tag);
    lemma_touched(entries, tag);
    if has_tag(entries, tag) {
        let at = position(entries, tag);
        if has_tag(new, other) {
            let i = position(new, other);
            let k = if i < at {
                i
            } else {
                i + 1
            };
            assert(i < new.len() - 1);
            assert(entries[k].tag == other);
            lemma_position(entries, other, k);
        }
        if has_tag(entries, other) {
            let k = position(entries, other);
            let i = if k < at {
                k
            } else {
                k - 1
            };
            assert(new[i].tag == other);
            lemma_position(new, other, i);
        }
    }
}

proof fn lemma_recorded_other(entries: Seq<TagEntry>, tag: Seq<u8>, key: CacheKey, other: Seq<u8>)
    requires
        valid_entries(entries),
        valid_tag(tag),
        other != tag,
    ensures
        has_tag(recorded(entries, tag, key), other) == has_tag(entries, other),
        has_tag(entries, other) ==> keys_of(recorded(entries, tag, key), other) == keys_of(
            entries,
            other,
        ),
{
    let new = recorded(entries, tag, key);
    lemma_recorded(entries, tag, key);
    if has_tag(new, other) {
        let i = position(new, other);
        assert(i < entries.len() && entries[i].tag == other);
        lemma_position(entries, other, i);
    }
    if has_tag(entries, other) {
        let i = position(entries, other);
        assert(new[i].tag == other);
        lemma_position(new, other, i);
    }
}

/// A key that was recorded is there to be taken: after a successful insert,
/// what a take of the tag returns holds the key.
pub proof fn law_insert_records(pre: IndexView, tag: Seq<u8>, key: CacheKey, post: IndexView)
    requires
        valid_entries(pre.entries),
        inserted(pre, tag, key, post, true),
    ensures
        valid_entries(post.entries),
        has_tag(post.entries, tag),
        keys_of(post.entries, tag).contains(key),
{
    let n = choose|n: int| #[trigger] inserted_evicting(pre, tag, key, post, true, n);
    let used = touched(pre.entries, tag);
    lemma_touched(pre.entries, tag);
    lemma_skip(used, n, tag);
    lemma_recorded(used.skip(n), tag, key);
}

/// An insert never gives another tag a key: whatever another tag has
/// afterwards it had before.
pub proof fn law_insert_invents_nothing(
    pre: IndexView,
    tag: Seq<u8>,
    key: CacheKey,
    post: IndexView,
    ok: bool,
    other: Seq<u8>,
)
    requires
        valid_entries(pre.entries),
        inserted(pre, tag, key, post, ok),
        other != tag,
        has_tag(post.entries, other),
    ensures
        has_tag(pre.entries, other),
        keys_of(post.entries, other) == keys_of(pre.entries, other),
{
    if valid_tag(tag) {
        let n = choose|n: int| #[trigger] inserted_evicting(pre, tag, key, post, ok, n);
        let used = touched(pre.entries, tag);
        lemma_touched(pre.entries, tag);
        lemma_touched_other(pre.entries, tag, other);
        lemma_skip(used, n, other);
        lemma_recorded_other(used.skip(n), tag, key, other);
    }
}

/// A tag that was not held starts with the key alone.
pub proof fn law_new_tag_starts_with_the_key(
    pre: IndexView,
    tag: Seq<u8>,
    key: CacheKey,
    post: IndexView,
    ok: bool,
)
    requires
        valid_entries(pre.entries),
        inserted(pre, tag, key, post, ok),
        !has_tag(pre.entries, tag),
    ensures
        has_tag(post.entries, tag) == ok,
        ok ==> keys_of(post.entries, tag) == seq![key],
{
    if valid_tag(tag) {
        let n = choose|n: int| #[trigger] inserted_evicting(pre, tag, key, post, ok, n);
        let used = touched(pre.entries, tag);
        lemma_touched(pre.entries, tag);
        lemma_skip(used, n, tag);
        if ok {
            let left = used.skip(n);
            lemma_recorded(left, tag, key);
            let new = recorded(left, tag, key);
            assert(new[new.len() - 1].tag == tag);
            lemma_position(new, tag, new.len() - 1);
        }
    }
}

/// An insert adds one association at most: whatever is held afterwards was
/// held before, or it is the key under the tag, and the insert succeeded.
pub proof fn law_insert_adds_only_the_key(
    pre: IndexView,
    tag: Seq<u8>,
    key: CacheKey,
    post: IndexView,
    ok: bool,
    other: Seq<u8>,
    held: CacheKey,
)
    requires
        valid_entries(pre.entries),
        inserted(pre, tag, key, post, ok),
        holds(post.entries, other, held),
    ensures
        holds(pre.entries, other, held) || (ok && other == tag && held == key),
{
    if other != tag {
        law_insert_invents_nothing(pre, tag, key, post, ok, other);
    } else if has_tag(pre.entries, tag) {
        law_grown_tag_is_kept(pre, tag, key, post, ok);
        let keys = keys_of(pre.entries, tag);
        if ok && !keys.contains(held) && held != key {
            let new = with_key(keys, key);
            let i = choose|i: int| 0 <= i < new.len() && new[i] == held;
            assert(keys.contains(keys[i]) || keys.contains(keys[i + 1]));
            assert(keys.len() >= MAX_KEYS_PER_TAG ==> new[i] == keys[i + 1]);
        }
    } else {
        law_new_tag_starts_with_the_key(pre, tag, key, post, ok);
    }
}

/// Tags are evicted for want of room only: where the memory refused nothing,
/// the insert of a valid tag succeeds, nothing is evicted, and every other
/// tag keeps its keys.
pub proof fn law_insert_with_room_loses_nothing(
    pre: IndexView,
    tag: Seq<u8>,
    key: CacheKey,
    post: IndexView,
    ok: bool,
    other: Seq<u8>,
)
    requires
        valid_entries(pre.entries),
        valid_tag(tag),
        inserted(pre, tag, key, post, ok),
        post.refusals == pre.refusals,
    ensures
        ok,
        post.evicted == pre.evicted,
        other != tag && has_tag(pre.entries, other) ==> {
            &&& has_tag(post.entries, other)
            &&& keys_of(post.entries, other) == keys_of(pre.entries, other)
        },
{
    let n = choose|n: int| #[trigger] inserted_evicting(pre, tag, key, post, ok, n);
    let used = touched(pre.entries, tag);
    lemma_touched(pre.entries, tag);
    assert(n == 0);
    assert(used.skip(0) =~= used);
    if other != tag {
        lemma_touched_other(pre.entries, tag, other);
        lemma_recorded_other(used, tag, key, other);
    }
}

/// The coldest tags are the first to go: whatever survives an insert, every
/// other tag used more recently survives it too.
pub proof fn law_coldest_tags_go_first(
    pre: IndexView,
    tag: Seq<u8>,
    key: CacheKey,
    post: IndexView,
    ok: bool,
    colder: Seq<u8>,
    warmer: Seq<u8>,
)
    requires
        valid_entries(pre.entries),
        inserted(pre, tag, key, post, ok),
        colder != tag,
        warmer != tag,
        has_tag(pre.entries, colder),
        has_tag(pre.entries, warmer),
        position(pre.entries, colder) <= position(pre.entries, warmer),
        has_tag(post.entries, colder),
    ensures
        has_tag(post.entries, warmer),
{
    if valid_tag(tag) {
        let n = choose|n: int| #[trigger] inserted_evicting(pre, tag, key, post, ok, n);
        let used = touched(pre.entries, tag);
        lemma_touched(pre.entries, tag);
        lemma_touched_other(pre.entries, tag, colder);
        lemma_touched_other(pre.entries, tag, warmer);
        lemma_skip(used, n, colder);
        lemma_skip(used, n, warmer);
        lemma_recorded_other(used.skip(n), tag, key, colder);
        lemma_recorded_other(used.skip(n), tag, key, warmer);
        if has_tag(pre.entries, tag) {
            assert(position(pre.entries, colder) != position(pre.entries, tag));
            assert(position(pre.entries, warmer) != position(pre.entries, tag));
        }
    }
}

/// An index is valid after every insert, whatever came of it.
pub proof fn law_insert_keeps_the_index_valid(
    pre: IndexView,
    tag: Seq<u8>,
    key: CacheKey,
    post: IndexView,
    ok: bool,
)
    requires
        valid_entries(pre.entries),
        inserted(pre, tag, key, post, ok),
    ensures
        valid_entries(post.entries),
{
    if valid_tag(tag) {
        let n = choose|n: int| #[trigger] inserted_evicting(pre, tag, key, post, ok, n);
        let used = touched(pre.entries, tag);
        lemma_touched(pre.entries, tag);
        lemma_skip(used, n, tag);
        lemma_recorded(used.skip(n), tag, key);
    }
}

/// Growing an entry never drops it: a tag that was held is held after an
/// insert, whatever room there was. A successful insert adds the key to the
/// keys it had, and a failed one leaves them as they were.
pub proof fn law_grown_tag_is_kept(
    pre: IndexView,
    tag: Seq<u8>,
    key: CacheKey,
    post: IndexView,
    ok: bool,
)
    requires
        valid_entries(pre.entries),
        inserted(pre, tag, key, post, ok),
        has_tag(pre.entries, tag),
    ensures
        has_tag(post.entries, tag),
        keys_of(post.entries, tag) == if ok {
            with_key(keys_of(pre.entries, tag), key)
        } else {
            keys_of(pre.entries, tag)
        },
{
    if valid_tag(tag) {
        let n = choose|n: int| #[trigger] inserted_evicting(pre, tag, key, post, ok, n);
        let used = touched(pre.entries, tag);
        lemma_touched(pre.entries, tag);
        assert(used[used.len() - 1].tag == tag);
        lemma_position(used, tag, used.len() - 1);
        lemma_skip(used, n, tag);
        lemma_recorded(used.skip(n), tag, key);
    }
}

/// A key stays with a tag that stays: an insert, under the same tag or
/// another, takes a key from a tag that is still held only where it is the
/// oldest of the tag's own full list.
pub proof fn law_insert_keeps_recorded_keys(
    pre: IndexView,
    tag: Seq<u8>,
    key: CacheKey,
    post: IndexView,
    ok: bool,
    other: Seq<u8>,
    held: CacheKey,
)
    requires
        valid_entries(pre.entries),
        inserted(pre, tag, key, post, ok),
        has_tag(pre.entries, other),
        keys_of(pre.entries, other).contains(held),
        has_tag(post.entries, other),
        other == tag ==> !pushes_out(pre.entries, tag, key, held),
    ensures
        keys_of(post.entries, other).contains(held),
{
    if other == tag {
        law_grown_tag_is_kept(pre, tag, key, post, ok);
        let keys = keys_of(pre.entries, tag);
        let i = choose|i: int| 0 <= i < keys.len() && keys[i] == held;
        if drops_oldest(pre.entries, tag, key) {
            assert(with_key(keys, key)[i - 1] == held);
        } else {
            assert(with_key(keys, key)[i] == held);
        }
    } else {
        law_insert_invents_nothing(pre, tag, key, post, ok, other);
    }
}

/// The counters count what they name, up to where they are full: one the tags
/// that an insert lost, the other the oldest key of a full list.
pub proof fn law_counters_count_what_is_lost(
    pre: IndexView,
    tag: Seq<u8>,
    key: CacheKey,
    post: IndexView,
    ok: bool,
)
    requires
        valid_entries(pre.entries),
        inserted(pre, tag, key, post, ok),
    ensures
        ({
            let added: int = if ok && !has_tag(pre.entries, tag) {
                1
            } else {
                0
            };
            let lost = pre.entries.len() + added - post.entries.len();
            let pushed_out: int = if ok && drops_oldest(pre.entries, tag, key) {
                1
            } else {
                0
            };
            &&& 0 <= lost <= EVICT_ATTEMPTS
            &&& pre.evicted + lost <= u64::MAX ==> post.evicted == pre.evicted + lost
            &&& pre.dropped + pushed_out <= u64::MAX ==> post.dropped == pre.dropped + pushed_out
        }),
{
    if valid_tag(tag) {
        let n = choose|n: int| #[trigger] inserted_evicting(pre, tag, key, post, ok, n);
        let used = touched(pre.entries, tag);
        lemma_touched(pre.entries, tag);
        if has_tag(used, tag) {
            assert(used[used.len() - 1].tag == tag);
            lemma_position(used, tag, used.len() - 1);
        }
        lemma_skip(used, n, tag);
    }
}

/// A key already recorded is ignored: the insert succeeds and only marks the
/// tag as used.
pub proof fn law_key_already_present_is_ignored(
    pre: IndexView,
    tag: Seq<u8>,
    key: CacheKey,
    post: IndexView,
    ok: bool,
)
    requires
        valid_entries(pre.entries),
        has_tag(pre.entries, tag),
        keys_of(pre.entries, tag).contains(key),
        inserted(pre, tag, key, post, ok),
    ensures
        ok,
        post == (IndexView { entries: touched(pre.entries, tag), ..pre }),
{
    assert(valid_tag(tag)) by {
        assert(valid_entry(pre.entries[position(pre.entries, tag)]));
    }
    let n = choose|n: int| #[trigger] inserted_evicting(pre, tag, key, post, ok, n);
    let used = touched(pre.entries, tag);
    lemma_touched(pre.entries, tag);
    assert(used.skip(0) =~= used);
    let i = position(used, tag);
    assert(recorded(used, tag, key) =~= used.update(
        i,
        TagEntry { tag, keys: with_key(used[i].keys, key) },
    ));
    assert(recorded(used, tag, key) =~= used);
}

/// A tag that was taken is gone, and every other tag keeps its keys.
pub proof fn law_take_removes_the_tag_alone(
    entries: Seq<TagEntry>,
    tag: Seq<u8>,
    other: Seq<u8>,
)
    requires
        valid_entries(entries),
        other != tag,
    ensures
        valid_entries(without(entries, tag)),
        !has_tag(without(entries, tag), tag),
        has_tag(without(entries, tag), other) == has_tag(entries, other),
        has_tag(entries, other) ==> keys_of(without(entries, tag), other) == keys_of(
            entries,
            other,
        ),
{
    let new = without(entries, tag);
    if has_tag(entries, tag) {
        let at = position(entries, tag);
        assert(!has_tag(new, tag)) by {
            if has_tag(new, tag) {
                let i = position(new, tag);
                let k = if i < at {
                    i
                } else {
                    i + 1
                };
                assert(entries[k].tag == tag);
                assert(entries[at].tag == tag);
            }
        }
        if has_tag(new, other) {
            let i = position(new, other);
            let k = if i < at {
                i
            } else {
                i + 1
            };
            assert(entries[k].tag == other);
            lemma_position(entries, other, k);
        }
        if has_tag(entries, other) {
            let k = position(entries, other);
            let i = if k < at {
                k
            } else {
                k - 1
            };
            assert(new[i].tag == other);
            lemma_position(new, other, i);
        }
    }
}

/// The limits: a tag holds up to 65536 keys, an insert evicts up to 64 tags,
/// and a tag has from 1 to 256 bytes.
pub proof fn law_limits(tag: Seq<u8>)
    ensures
        MAX_KEYS_PER_TAG == 65536,
        EVICT_ATTEMPTS == 64,
        valid_tag(tag) <==> 1 <= tag.len() <= 256,
{
}

/// A tag is found by its own bytes: where one entry is for it, that entry's
/// keys are its keys and taking it out removes that entry, and where none is,
/// it is not held and taking it out changes nothing.
pub proof fn law_tag_is_found_by_its_bytes(entries: Seq<TagEntry>, tag: Seq<u8>, i: int)
    requires
        forall|j: int| 0 <= j < entries.len() && j != i ==> (#[trigger] entries[j]).tag != tag,
    ensures
        0 <= i < entries.len() && entries[i].tag == tag ==> {
            &&& has_tag(entries, tag)
            &&& keys_of(entries, tag) == entries[i].keys
            &&& without(entries, tag) == entries.remove(i)
        },
        !(0 <= i < entries.len() && entries[i].tag == tag) ==> {
            &&& !has_tag(entries, tag)
            &&& without(entries, tag) == entries
        },
{
    if 0 <= i < entries.len() && entries[i].tag == tag {
        assert(has_tag(entries, tag));
        let p = position(entries, tag);
        assert(entries[p].tag == tag);
    }
}

/// How many keys are held is the sum over the entries.
pub proof fn law_total_is_the_sum(entries: Seq<TagEntry>, entry: TagEntry)
    ensures
        total_keys(Seq::<TagEntry>::empty()) == 0,
        total_keys(entries.push(entry)) == total_keys(entries) + entry.keys.len(),
{
    lemma_total_push(entries, entry);
}

/// A tag that is empty or longer than 256 bytes is refused, and nothing
/// changes.
pub proof fn law_insert_refuses_unfit_tags(
    pre: IndexView,
    tag: Seq<u8>,
    key: CacheKey,
    post: IndexView,
    ok: bool,
)
    requires
        inserted(pre, tag, key, post, ok),
        tag.len() == 0 || tag.len() > 256,
    ensures
        !ok,
        post == pre,
{
}

/// A tag that is held grows by the key, and becomes the most recently used.
///
/// With fewer than the most keys that a tag can hold, none is lost: the new
/// key is put behind those the tag has. With that many, the oldest makes way.
/// A key it already has changes nothing else. Neither of the latter needs
/// room; for the former it is enough that the memory refused nothing.
pub proof fn law_insert_grows_a_held_tag(
    pre: IndexView,
    tag: Seq<u8>,
    key: CacheKey,
    post: IndexView,
    ok: bool,
    i: int,
)
    requires
        inserted(pre, tag, key, post, ok),
        1 <= tag.len() <= 256,
        0 <= i < pre.entries.len(),
        pre.entries[i].tag == tag,
        forall|j: int|
            0 <= j < pre.entries.len() && j != i ==> (#[trigger] pre.entries[j]).tag != tag,
        post.refusals == pre.refusals || pre.entries[i].keys.contains(key)
            || pre.entries[i].keys.len() >= MAX_KEYS_PER_TAG,
    ensures
        ok,
        post.refusals == pre.refusals,
        post.evicted == pre.evicted,
        post.entries.drop_last() == pre.entries.remove(i),
        post.entries.last().tag == tag,
        ({
            let keys = pre.entries[i].keys;
            let after = post.entries.last().keys;
            &&& keys.contains(key) ==> after == keys && post.dropped == pre.dropped
            &&& !keys.contains(key) && keys.len() < MAX_KEYS_PER_TAG ==> {
                &&& after == keys.push(key)
                &&& post.dropped == pre.dropped
            }
            &&& !keys.contains(key) && keys.len() >= MAX_KEYS_PER_TAG ==> {
                &&& after == keys.drop_first().push(key)
                &&& pre.dropped < u64::MAX ==> post.dropped == pre.dropped + 1
            }
        }),
{
    let n = choose|n: int| #[trigger] inserted_evicting(pre, tag, key, post, ok, n);
    law_tag_is_found_by_its_bytes(pre.entries, tag, i);
    assert(position(pre.entries, tag) == i);
    let used = touched(pre.entries, tag);
    let last = used.len() - 1;
    assert(used == pre.entries.remove(i).push(pre.entries[i]));
    assert forall|j: int| 0 <= j < used.len() && j != last implies (#[trigger] used[j]).tag
        != tag by {
        let k = if j < i {
            j
        } else {
            j + 1
        };
        assert(pre.entries[k].tag != tag);
    }
    law_tag_is_found_by_its_bytes(used, tag, last);
    assert(position(used, tag) == last);
    assert(n == 0);
    assert(used.skip(0) =~= used);
    assert(post.entries.drop_last() =~= pre.entries.remove(i));
}

/// A tag that is not held is added with the key alone, as the most recently
/// used, where the memory refused nothing.
pub proof fn law_insert_adds_a_new_tag(
    pre: IndexView,
    tag: Seq<u8>,
    key: CacheKey,
    post: IndexView,
    ok: bool,
)
    requires
        inserted(pre, tag, key, post, ok),
        1 <= tag.len() <= 256,
        forall|j: int| 0 <= j < pre.entries.len() ==> (#[trigger] pre.entries[j]).tag != tag,
        post.refusals == pre.refusals,
    ensures
        ok,
        post.evicted == pre.evicted,
        post.dropped == pre.dropped,
        post.entries == pre.entries.push(TagEntry { tag, keys: seq![key] }),
{
    let n = choose|n: int| #[trigger] inserted_evicting(pre, tag, key, post, ok, n);
    assert(n == 0);
    assert(pre.entries.skip(0) =~= pre.entries);
}

/// Each refusal of the memory costs one tag, the coldest of the others, and
/// the insert is then tried again on what is left, up to 64 times. It fails
/// only once that many tags have gone, or no other is left to go; the key is
/// then recorded nowhere. `used` is what is held, coldest first, once the tag
/// has been used.
pub proof fn law_refusal_costs_the_coldest_tag(
    pre: IndexView,
    tag: Seq<u8>,
    key: CacheKey,
    post: IndexView,
    ok: bool,
    used: Seq<TagEntry>,
    held: bool,
)
    requires
        inserted(pre, tag, key, post, ok),
        1 <= tag.len() <= 256,
        !held ==> used == pre.entries && forall|j: int|
            0 <= j < pre.entries.len() ==> (#[trigger] pre.entries[j]).tag != tag,
        held ==> exists|i: int|
            {
                &&& 0 <= i < pre.entries.len()
                &&& (#[trigger] pre.entries[i]).tag == tag
                &&& forall|j: int|
                    0 <= j < pre.entries.len() && j != i ==> (#[trigger] pre.entries[j]).tag != tag
                &&& used == pre.entries.remove(i).push(pre.entries[i])
            },
    ensures
        ({
            let refused = post.refusals - pre.refusals;
            let others: int = if held {
                used.len() - 1
            } else {
                used.len() as int
            };
            &&& 0 <= refused <= 64
            &&& ok ==> {
                &&& refused <= others
                &&& refused < 64
                &&& pre.evicted + refused <= u64::MAX ==> post.evicted == pre.evicted + refused
                &&& post.entries.last().tag == tag
                &&& !held || used.last().keys.len() < MAX_KEYS_PER_TAG ==> post.dropped
                    == pre.dropped
                &&& held ==> post.entries.drop_last() == used.skip(refused).drop_last()
                &&& !held ==> post.entries == used.skip(refused).push(
                    TagEntry { tag, keys: seq![key] },
                )
                &&& held && !used.last().keys.contains(key) && used.last().keys.len()
                    < MAX_KEYS_PER_TAG ==> post.entries.last().keys == used.last().keys.push(key)
            }
            &&& !ok ==> {
                &&& refused > 0
                &&& post.dropped == pre.dropped
                &&& refused == 64 || refused == others + 1
                &&& refused == others + 1 ==> post.entries == used.skip(others)
                &&& refused != others + 1 ==> post.entries == used.skip(64)
                &&& pre.evicted + refused <= u64::MAX ==> post.evicted == pre.evicted
                    + used.len() - post.entries.len()
            }
        }),
{
    let n = choose|n: int| #[trigger] inserted_evicting(pre, tag, key, post, ok, n);
    if held {
        let i = choose|i: int|
            {
                &&& 0 <= i < pre.entries.len()
                &&& (#[trigger] pre.entries[i]).tag == tag
                &&& forall|j: int|
                    0 <= j < pre.entries.len() && j != i ==> (#[trigger] pre.entries[j]).tag != tag
                &&& used == pre.entries.remove(i).push(pre.entries[i])
            };
        law_tag_is_found_by_its_bytes(pre.entries, tag, i);
        assert(position(pre.entries, tag) == i);
        let left = used.skip(n);
        let last = left.len() - 1;
        assert forall|j: int| 0 <= j < left.len() && j != last implies (#[trigger] left[j]).tag
            != tag by {
            let k = if n + j < i {
                n + j
            } else {
                n + j + 1
            };
            assert(pre.entries[k].tag != tag);
        }
        assert(left[last].tag == tag);
        law_tag_is_found_by_its_bytes(left, tag, last);
        assert(position(left, tag) == last);
        if ok {
            assert(post.entries.drop_last() =~= left.drop_last());
        }
    } else {
        let left = used.skip(n);
        assert forall|j: int| 0 <= j < left.len() implies (#[trigger] left[j]).tag != tag by {
            assert(pre.entries[n + j].tag != tag);
        }
        law_tag_is_found_by_its_bytes(pre.entries, tag, -1);
        law_tag_is_found_by_its_bytes(left, tag, -1);
    }
}

/// An index is seen with the entries and refusals of its store and its own
/// counters, and is sound only where its two counts are those of the entries.
pub proof fn law_index_is_seen_as_it_is<S: TagStore>(index: TagIndex<S>)
    ensures
        index@.entries == index.store.entries(),
        index@.refusals == index.store.refusals(),
        index@.evicted == index.evicted,
        index@.dropped == index.dropped,
        index.inv() ==> index.tags == index@.entries.len() && index.keys == total_keys(
            index@.entries,
        ),
{
}

} // verus!
