//! Recording: which responses are noted in the index, and under which tags.
//!
//! A response is noted before its entry is committed, so an aborted transfer
//! can leave a tag pointing at a cache key that never materialised. That is
//! harmless: a purge simply finds no node for it and moves on.

use vstd::prelude::*;

use crate::cache_key::CacheKey;
use crate::header::{
    header_named, header_views, law_first_header_counts, named_value, same_name, Header,
    HeaderView,
};
use crate::index::TagIndex;
use crate::index_laws::{
    law_grown_tag_is_kept, law_insert_adds_only_the_key, law_insert_keeps_recorded_keys,
    law_insert_invents_nothing, law_insert_keeps_the_index_valid, law_insert_records,
    law_insert_with_room_loses_nothing, law_new_tag_starts_with_the_key,
};
use crate::model::{
    has_tag, holds, inserted, inserted_evicting, keys_of, position, pushes_out,
    valid_entries, valid_entry, valid_tag, IndexView,
};
use crate::store::TagStore;
use crate::tags::{listed_tags, split_listed_tags, MAX_TAG_LEN};
use crate::text::contents;

verus! {

/// The cache side of a response.
pub struct CacheSlot {
    /// Whether the entry has a node in the cache tree.
    pub has_node: bool,
    /// Whether the entry's file is open.
    pub has_file: bool,
    /// The key it is stored under.
    pub key: CacheKey,
}

/// What decides whether a response is noted.
pub struct Response<'a> {
    /// Whether it answers the main request, not a subrequest.
    pub is_main: bool,
    /// Whether its upstream marks it as cacheable, if it has an upstream.
    pub cacheable: Option<bool>,
    /// Its place in the cache, if it has one.
    pub cache: Option<CacheSlot>,
    /// Its headers.
    pub headers: Vec<Header<'a>>,
}

/// The cache key of a response that is being stored: it comes from an
/// upstream that marks it as cacheable, and has a node or an open file.
pub open spec fn stored_key(cacheable: Option<bool>, cache: Option<CacheSlot>) -> Option<CacheKey> {
    match (cacheable, cache) {
        (Some(true), Some(slot)) => if slot.has_node || slot.has_file {
            Some(slot.key)
        } else {
            None
        },
        _ => None,
    }
}

/// The cache key of a response that is being stored, if it is being stored.
pub fn cache_key(cacheable: Option<bool>, cache: &Option<CacheSlot>) -> (key: Option<CacheKey>)
    ensures
        key == stored_key(cacheable, *cache),
{
    match cacheable {
        Some(true) => {},
        _ => {
            return None;
        },
    }
    match cache {
        Some(slot) => if slot.has_node || slot.has_file {
            Some(slot.key)
        } else {
            None
        },
        None => None,
    }
}

/// The tags that the index can hold.
pub open spec fn recordable(tags: Seq<Seq<u8>>) -> Seq<Seq<u8>> {
    tags.filter(|tag: Seq<u8>| valid_tag(tag))
}

/// The tags that a response with this header value is noted under: each of
/// those listed that the index can hold.
pub open spec fn noted_tags(value: Seq<u8>) -> Seq<Seq<u8>> {
    recordable(listed_tags(value))
}

fn keep_recordable<'a>(tags: &Vec<&'a [u8]>) -> (kept: Vec<&'a [u8]>)
    ensures
        contents(kept@) == recordable(contents(tags@)),
{
    let ghost all = contents(tags@);
    let mut kept: Vec<&'a [u8]> = Vec::new();
    let mut i: usize = 0;
    proof {
        reveal(Seq::filter);
        assert(contents(kept@) =~= recordable(all.take(0)));
    }
    while i < tags.len()
        invariant
            i <= tags@.len(),
            all == contents(tags@),
            contents(kept@) == recordable(all.take(i as int)),
        decreases tags@.len() - i,
    {
        let ghost before = contents(kept@);
        proof {
            reveal(Seq::filter);
            assert(all.take(i + 1).drop_last() =~= all.take(i as int));
        }
        if tags[i].len() > 0 && tags[i].len() <= MAX_TAG_LEN {
            kept.push(tags[i]);
            assert(contents(kept@) =~= before.push(all[i as int]));
        }
        i += 1;
    }
    assert(all.take(i as int) =~= all);
    kept
}

/// What is noted of a response: its key and the tags to note it under.
pub open spec fn noted(
    is_main: bool,
    cacheable: Option<bool>,
    cache: Option<CacheSlot>,
    headers: Seq<HeaderView>,
    header: Seq<u8>,
) -> Option<(CacheKey, Seq<Seq<u8>>)> {
    match (stored_key(cacheable, cache), named_value(headers, header, true)) {
        (Some(key), Some(value)) if is_main => Some((key, noted_tags(value))),
        _ => None,
    }
}

/// A key to note and the tags to note it under.
pub struct Note<'a> {
    pub key: CacheKey,
    pub tags: Vec<&'a [u8]>,
}

/// What is noted of a response: its cache key under each tag of its first
/// header named `header`, if it is the main response, it is being stored, and
/// it has that header. A tag that is too long for the index is left out; those
/// beside it are not.
pub fn note_of<'a>(response: &Response<'a>, header: &[u8]) -> (note: Option<Note<'a>>)
    ensures
        note is Some <==> {
            &&& response.is_main
            &&& stored_key(response.cacheable, response.cache) is Some
            &&& named_value(header_views(response.headers@), header@, true) is Some
        },
        note matches Some(n) ==> {
            &&& stored_key(response.cacheable, response.cache) == Some(n.key)
            &&& named_value(header_views(response.headers@), header@, true) matches Some(value)
            &&& contents(n.tags@) == noted_tags(value)
        },
        (match note {
            Some(n) => Some((n.key, contents(n.tags@))),
            None => None,
        }) == noted(
            response.is_main,
            response.cacheable,
            response.cache,
            header_views(response.headers@),
            header@,
        ),
{
    if !response.is_main {
        return None;
    }
    // Only responses on their way into the cache carry a key worth recording.
    let key: CacheKey = match cache_key(response.cacheable, &response.cache) {
        Some(key) => key,
        None => {
            return None;
        },
    };
    match header_named(&response.headers, header, true) {
        Some(value) => Some(Note { key, tags: keep_recordable(&split_listed_tags(value)) }),
        None => None,
    }
}

/// The states an index goes through while `key` is recorded against `tags` in
/// turn, up to the first that is refused; `written` tags were recorded.
pub open spec fn runs_through(
    states: Seq<IndexView>,
    tags: Seq<Seq<u8>>,
    key: CacheKey,
    written: int,
) -> bool {
    &&& 0 <= written <= tags.len()
    &&& states.len() == written + 1 + if written < tags.len() {
        1int
    } else {
        0int
    }
    &&& forall|i: int|
        0 <= i < written ==> inserted(#[trigger] states[i], tags[i], key, states[i + 1], true)
    &&& written < tags.len() ==> inserted(
        states[written],
        tags[written],
        key,
        states[written + 1],
        false,
    )
}

/// What recording `key` against `tags` makes of an index.
pub open spec fn recorded_all(
    pre: IndexView,
    tags: Seq<Seq<u8>>,
    key: CacheKey,
    post: IndexView,
    written: int,
) -> bool {
    exists|states: Seq<IndexView>|
        {
            &&& #[trigger] runs_through(states, tags, key, written)
            &&& states.first() == pre
            &&& states.last() == post
        }
}

/// Records `key` against each of `tags` in turn, and returns against how many.
///
/// It stops at the first that is refused: a full index drops the association.
/// A later purge for the tag will miss the entry if the index then holds the
/// tag for other entries, and finds it by a scan if it does not.
pub fn record_tags<S: TagStore>(
    index: &mut TagIndex<S>,
    tags: &Vec<&[u8]>,
    key: &CacheKey,
) -> (written: usize)
    requires
        old(index).inv(),
    ensures
        final(index).inv(),
        recorded_all(old(index)@, contents(tags@), *key, final(index)@, written as int),
{
    let ghost all = contents(tags@);
    let ghost mut states = seq![index@];
    let mut i: usize = 0;
    while i < tags.len()
        invariant
            i <= tags@.len(),
            all == contents(tags@),
            index.inv(),
            states.len() == i + 1,
            states.first() == old(index)@,
            states.last() == index@,
            forall|j: int|
                0 <= j < i ==> inserted(#[trigger] states[j], all[j], *key, states[j + 1], true),
        decreases tags@.len() - i,
    {
        let done = index.insert(tags[i], key);
        proof {
            states = states.push(index@);
        }
        if done.is_err() {
            assert(runs_through(states, all, *key, i as int));
            return i;
        }
        i += 1;
    }
    assert(runs_through(states, all, *key, i as int));
    i
}

proof fn lemma_refusals_grow(
    pre: IndexView,
    tag: Seq<u8>,
    key: CacheKey,
    post: IndexView,
    ok: bool,
)
    requires
        inserted(pre, tag, key, post, ok),
    ensures
        post.refusals >= pre.refusals,
{
    if valid_tag(tag) {
        let n = choose|n: int| #[trigger] inserted_evicting(pre, tag, key, post, ok, n);
    }
}

/// Each state is what an insert made of the one before.
proof fn lemma_run_step(
    states: Seq<IndexView>,
    tags: Seq<Seq<u8>>,
    key: CacheKey,
    written: int,
    i: int,
)
    requires
        runs_through(states, tags, key, written),
        0 <= i < states.len() - 1,
    ensures
        i < tags.len(),
        inserted(states[i], tags[i], key, states[i + 1], i < written),
{
    if i < written {
        assert(inserted(states[i], tags[i], key, states[i + 1], true));
    }
}

proof fn lemma_run(
    states: Seq<IndexView>,
    tags: Seq<Seq<u8>>,
    key: CacheKey,
    written: int,
    i: int,
)
    requires
        runs_through(states, tags, key, written),
        valid_entries(states[0].entries),
        0 <= i < states.len(),
    ensures
        valid_entries(states[i].entries),
        states[0].refusals <= states[i].refusals,
    decreases i,
{
    if i > 0 {
        lemma_run(states, tags, key, written, i - 1);
        lemma_run_step(states, tags, key, written, i - 1);
        law_insert_keeps_the_index_valid(
            states[i - 1],
            tags[i - 1],
            key,
            states[i],
            i - 1 < written,
        );
        lemma_refusals_grow(states[i - 1], tags[i - 1], key, states[i], i - 1 < written);
    }
}

proof fn lemma_run_to_end(
    states: Seq<IndexView>,
    tags: Seq<Seq<u8>>,
    key: CacheKey,
    written: int,
    i: int,
)
    requires
        runs_through(states, tags, key, written),
        0 <= i < states.len(),
    ensures
        states[i].refusals <= states.last().refusals,
    decreases states.len() - i,
{
    if i < states.len() - 1 {
        lemma_run_to_end(states, tags, key, written, i + 1);
        lemma_run_step(states, tags, key, written, i);
        lemma_refusals_grow(states[i], tags[i], key, states[i + 1], i < written);
    }
}

/// A run that was refused nothing stops short only at a tag that the index
/// cannot hold.
proof fn lemma_run_with_room(
    states: Seq<IndexView>,
    tags: Seq<Seq<u8>>,
    key: CacheKey,
    written: int,
    i: int,
)
    requires
        runs_through(states, tags, key, written),
        valid_entries(states[0].entries),
        states.last().refusals == states[0].refusals,
        0 <= i < states.len() - 1,
    ensures
        states[i + 1].refusals == states[i].refusals,
        valid_entries(states[i].entries),
        valid_tag(tags[i]) ==> i < written,
{
    lemma_run(states, tags, key, written, i);
    lemma_run(states, tags, key, written, i + 1);
    lemma_run_to_end(states, tags, key, written, i);
    lemma_run_to_end(states, tags, key, written, i + 1);
    lemma_run_step(states, tags, key, written, i);
    if valid_tag(tags[i]) {
        law_insert_with_room_loses_nothing(
            states[i],
            tags[i],
            key,
            states[i + 1],
            i < written,
            tags[i],
        );
    }
}

/// A key that is held at one state of a run is held at the later ones.
proof fn lemma_run_holds(
    states: Seq<IndexView>,
    tags: Seq<Seq<u8>>,
    key: CacheKey,
    written: int,
    from: int,
    to: int,
    tag: Seq<u8>,
    held: CacheKey,
)
    requires
        runs_through(states, tags, key, written),
        valid_entries(states[0].entries),
        states.last().refusals == states[0].refusals,
        0 <= from <= to < states.len(),
        holds(states[from].entries, tag, held),
        tags.take(written).contains(tag) ==> !pushes_out(states[from].entries, tag, key, held),
    ensures
        holds(states[to].entries, tag, held),
    decreases to - from,
{
    if from < to {
        let pre = states[from];
        let post = states[from + 1];
        lemma_run_step(states, tags, key, written, from);
        lemma_run_with_room(states, tags, key, written, from);
        assert(valid_tag(tag)) by {
            assert(valid_entry(pre.entries[position(pre.entries, tag)]));
        }
        if tags[from] == tag {
            assert(tags.take(written)[from] == tag);
            law_grown_tag_is_kept(pre, tag, key, post, true);
            law_insert_records(pre, tag, key, post);
            law_insert_keeps_recorded_keys(pre, tag, key, post, true, tag, held);
        } else if valid_tag(tags[from]) {
            law_insert_with_room_loses_nothing(pre, tags[from], key, post, true, tag);
        }
        lemma_run_holds(states, tags, key, written, from + 1, to, tag, held);
    }
}

/// What has been recorded is held: where the memory refused nothing, every tag
/// that the index can hold, with only such tags before it, was recorded.
pub proof fn law_tags_before_the_first_invalid_are_recorded(
    pre: IndexView,
    tags: Seq<Seq<u8>>,
    key: CacheKey,
    post: IndexView,
    written: int,
    at: int,
)
    requires
        valid_entries(pre.entries),
        recorded_all(pre, tags, key, post, written),
        post.refusals == pre.refusals,
        0 <= at < tags.len(),
        forall|i: int| 0 <= i <= at ==> valid_tag(#[trigger] tags[i]),
    ensures
        at < written,
        holds(post.entries, tags[at], key),
{
    let states = run_of(pre, tags, key, post, written);
    if written <= at {
        assert(valid_tag(tags[written]));
        lemma_run_with_room(states, tags, key, written, written);
    }
    lemma_run_step(states, tags, key, written, at);
    lemma_run(states, tags, key, written, at);
    law_insert_records(states[at], tags[at], key, states[at + 1]);
    lemma_run_holds(states, tags, key, written, at + 1, states.len() - 1, tags[at], key);
}

/// What was held before is held after a recording: where the memory refused
/// nothing, every tag keeps its keys, except that a full list loses its oldest
/// to a new key.
pub proof fn law_recording_keeps_recorded_keys(
    pre: IndexView,
    tags: Seq<Seq<u8>>,
    key: CacheKey,
    post: IndexView,
    written: int,
    tag: Seq<u8>,
    held: CacheKey,
)
    requires
        valid_entries(pre.entries),
        recorded_all(pre, tags, key, post, written),
        post.refusals == pre.refusals,
        holds(pre.entries, tag, held),
        tags.take(written).contains(tag) ==> !pushes_out(pre.entries, tag, key, held),
    ensures
        holds(post.entries, tag, held),
{
    let states = run_of(pre, tags, key, post, written);
    lemma_run_holds(states, tags, key, written, 0, states.len() - 1, tag, held);
}

/// Whether `tag` was evicted: it is not held, or it was recorded anew and holds
/// the new key alone.
spec fn lost(now: IndexView, tag: Seq<u8>, key: CacheKey, listed: bool) -> bool {
    !has_tag(now.entries, tag) || (listed && keys_of(now.entries, tag) == seq![key])
}

proof fn lemma_run_keeps_or_loses(
    states: Seq<IndexView>,
    tags: Seq<Seq<u8>>,
    key: CacheKey,
    written: int,
    i: int,
    tag: Seq<u8>,
    held: CacheKey,
)
    requires
        runs_through(states, tags, key, written),
        valid_entries(states[0].entries),
        holds(states[0].entries, tag, held),
        tags.take(written).contains(tag) ==> !pushes_out(states[0].entries, tag, key, held),
        0 <= i < states.len(),
    ensures
        lost(states[i], tag, key, tags.take(written).contains(tag)) || {
            &&& holds(states[i].entries, tag, held)
            &&& tags.take(written).contains(tag) ==> !pushes_out(
                states[i].entries,
                tag,
                key,
                held,
            )
        },
    decreases i,
{
    if i > 0 {
        let listed = tags.take(written).contains(tag);
        let pre = states[i - 1];
        let post = states[i];
        let ok = i - 1 < written;
        lemma_run_keeps_or_loses(states, tags, key, written, i - 1, tag, held);
        lemma_run(states, tags, key, written, i - 1);
        lemma_run_step(states, tags, key, written, i - 1);
        if tags[i - 1] != tag {
            if has_tag(post.entries, tag) {
                law_insert_invents_nothing(pre, tags[i - 1], key, post, ok, tag);
            }
        } else {
            if ok {
                assert(tags.take(written)[i - 1] == tag);
            }
            if has_tag(pre.entries, tag) {
                law_grown_tag_is_kept(pre, tag, key, post, ok);
                if keys_of(pre.entries, tag) == seq![key] {
                    assert(seq![key][0] == key);
                    assert(keys_of(pre.entries, tag).contains(key));
                } else if ok {
                    law_insert_records(pre, tag, key, post);
                    law_insert_keeps_recorded_keys(pre, tag, key, post, ok, tag, held);
                }
            } else {
                law_new_tag_starts_with_the_key(pre, tag, key, post, ok);
            }
        }
    }
}

/// What a recording evicts is lost whole: whatever the memory refused, a tag
/// that is still held has the keys it had, except that a full list loses its
/// oldest to a new key, and that a tag which was evicted and then recorded
/// anew holds the new key alone.
pub proof fn law_recording_loses_whole_tags(
    pre: IndexView,
    tags: Seq<Seq<u8>>,
    key: CacheKey,
    post: IndexView,
    written: int,
    tag: Seq<u8>,
    held: CacheKey,
)
    requires
        valid_entries(pre.entries),
        recorded_all(pre, tags, key, post, written),
        holds(pre.entries, tag, held),
        has_tag(post.entries, tag),
        tags.take(written).contains(tag) ==> {
            &&& !pushes_out(pre.entries, tag, key, held)
            &&& held == key || keys_of(post.entries, tag) != seq![key]
        },
    ensures
        holds(post.entries, tag, held),
{
    let states = run_of(pre, tags, key, post, written);
    lemma_run_keeps_or_loses(states, tags, key, written, states.len() - 1, tag, held);
    assert(seq![key][0] == key);
}

proof fn lemma_run_recorded(
    states: Seq<IndexView>,
    tags: Seq<Seq<u8>>,
    key: CacheKey,
    written: int,
    at: int,
    i: int,
)
    requires
        runs_through(states, tags, key, written),
        valid_entries(states[0].entries),
        0 <= at < written,
        at < i < states.len(),
    ensures
        has_tag(states[i].entries, tags[at]) ==> holds(states[i].entries, tags[at], key),
    decreases i,
{
    let tag = tags[at];
    let pre = states[i - 1];
    let ok = i - 1 < written;
    lemma_run(states, tags, key, written, i - 1);
    lemma_run_step(states, tags, key, written, i - 1);
    if i - 1 > at {
        lemma_run_recorded(states, tags, key, written, at, i - 1);
    }
    if tags[i - 1] != tag {
        if has_tag(states[i].entries, tag) {
            law_insert_invents_nothing(pre, tags[i - 1], key, states[i], ok, tag);
        }
    } else if ok {
        law_insert_records(pre, tag, key, states[i]);
    } else if has_tag(pre.entries, tag) {
        law_grown_tag_is_kept(pre, tag, key, states[i], ok);
    } else {
        law_new_tag_starts_with_the_key(pre, tag, key, states[i], ok);
    }
}

/// Whatever the memory refused, a tag that the key was recorded against, and
/// that is still held at the end of the recording, has the key.
pub proof fn law_recorded_tag_that_stays_has_the_key(
    pre: IndexView,
    tags: Seq<Seq<u8>>,
    key: CacheKey,
    post: IndexView,
    written: int,
    tag: Seq<u8>,
)
    requires
        valid_entries(pre.entries),
        recorded_all(pre, tags, key, post, written),
        tags.take(written).contains(tag),
        has_tag(post.entries, tag),
    ensures
        holds(post.entries, tag, key),
{
    let states = run_of(pre, tags, key, post, written);
    let listed = tags.take(written);
    let at = choose|i: int| 0 <= i < listed.len() && listed[i] == tag;
    lemma_run_recorded(states, tags, key, written, at, states.len() - 1);
}

/// A recording adds no other association: whatever an index holds afterwards
/// it held before, or it is the key under one of the tags recorded.
pub proof fn law_recording_invents_nothing(
    pre: IndexView,
    tags: Seq<Seq<u8>>,
    key: CacheKey,
    post: IndexView,
    written: int,
    tag: Seq<u8>,
    held: CacheKey,
)
    requires
        valid_entries(pre.entries),
        recorded_all(pre, tags, key, post, written),
        holds(post.entries, tag, held),
    ensures
        holds(pre.entries, tag, held) || (held == key && tags.take(written).contains(tag)),
{
    let states = run_of(pre, tags, key, post, written);
    lemma_run_invents_nothing(states, tags, key, written, states.len() - 1, tag, held);
}

proof fn lemma_run_invents_nothing(
    states: Seq<IndexView>,
    tags: Seq<Seq<u8>>,
    key: CacheKey,
    written: int,
    i: int,
    tag: Seq<u8>,
    held: CacheKey,
)
    requires
        runs_through(states, tags, key, written),
        valid_entries(states[0].entries),
        0 <= i < states.len(),
        holds(states[i].entries, tag, held),
    ensures
        holds(states[0].entries, tag, held) || (held == key && tags.take(written).contains(tag)),
    decreases i,
{
    if i > 0 {
        let pre = states[i - 1];
        let ok = i - 1 < written;
        lemma_run(states, tags, key, written, i - 1);
        lemma_run_step(states, tags, key, written, i - 1);
        law_insert_adds_only_the_key(pre, tags[i - 1], key, states[i], ok, tag, held);
        if holds(pre.entries, tag, held) {
            lemma_run_invents_nothing(states, tags, key, written, i - 1, tag, held);
        } else {
            assert(tags.take(written)[i - 1] == tag);
        }
    }
}

/// An index is valid after every recording, and its memory has refused no less
/// than before.
pub proof fn law_recording_keeps_the_index_valid(
    pre: IndexView,
    tags: Seq<Seq<u8>>,
    key: CacheKey,
    post: IndexView,
    written: int,
)
    requires
        valid_entries(pre.entries),
        recorded_all(pre, tags, key, post, written),
    ensures
        valid_entries(post.entries),
        pre.refusals <= post.refusals,
{
    let states = run_of(pre, tags, key, post, written);
    lemma_run(states, tags, key, written, states.len() - 1);
}

/// The states that a recording went through.
spec fn run_of(
    pre: IndexView,
    tags: Seq<Seq<u8>>,
    key: CacheKey,
    post: IndexView,
    written: int,
) -> Seq<IndexView> {
    choose|states: Seq<IndexView>|
        {
            &&& #[trigger] runs_through(states, tags, key, written)
            &&& states.first() == pre
            &&& states.last() == post
        }
}

proof fn lemma_filter<A>(list: Seq<A>, keep: spec_fn(A) -> bool, item: A)
    ensures
        list.filter(keep).contains(item) <==> list.contains(item) && keep(item),
    decreases list.len(),
{
    reveal(Seq::filter);
    if list.len() > 0 {
        let rest = list.drop_last();
        let last = list.last();
        let kept = rest.filter(keep);
        lemma_filter(rest, keep, item);
        assert(list =~= rest.push(last));
        assert(list.contains(item) <==> rest.contains(item) || last == item) by {
            if rest.contains(item) {
                let i = choose|i: int| 0 <= i < rest.len() && rest[i] == item;
                assert(list[i] == item);
            }
            if last == item {
                assert(list[list.len() - 1] == item);
            }
            if list.contains(item) && last != item {
                let i = choose|i: int| 0 <= i < list.len() && list[i] == item;
                assert(rest[i] == item);
            }
        }
        if keep(last) {
            assert(kept.push(last).contains(item) <==> kept.contains(item) || last == item) by {
                if kept.contains(item) {
                    let i = choose|i: int| 0 <= i < kept.len() && kept[i] == item;
                    assert(kept.push(last)[i] == item);
                }
                if last == item {
                    assert(kept.push(last)[kept.len() as int] == item);
                }
                if kept.push(last).contains(item) && last != item {
                    let i = choose|i: int| 0 <= i <= kept.len() && kept.push(last)[i] == item;
                    assert(kept[i] == item);
                }
            }
        }
    }
}

/// A response is noted under exactly those of its listed tags that the index
/// can hold.
pub proof fn law_noted_tags_are_the_valid_listed_tags(value: Seq<u8>, tag: Seq<u8>)
    ensures
        noted_tags(value).contains(tag) <==> listed_tags(value).contains(tag) && valid_tag(tag),
{
    lemma_filter(listed_tags(value), |t: Seq<u8>| valid_tag(t), tag);
}

/// What a response lists is answered from memory: where the memory refused
/// nothing, its key is held under every tag of its header value that the index
/// can hold, whatever other tags stand there.
pub proof fn law_recorded_tags_can_be_taken(
    pre: IndexView,
    value: Seq<u8>,
    key: CacheKey,
    post: IndexView,
    written: int,
    tag: Seq<u8>,
)
    requires
        valid_entries(pre.entries),
        recorded_all(pre, noted_tags(value), key, post, written),
        post.refusals == pre.refusals,
        listed_tags(value).contains(tag),
        valid_tag(tag),
    ensures
        written == noted_tags(value).len(),
        has_tag(post.entries, tag),
        keys_of(post.entries, tag).contains(key),
{
    let tags = noted_tags(value);
    assert forall|i: int| 0 <= i < tags.len() implies valid_tag(#[trigger] tags[i]) by {
        assert(tags.contains(tags[i]));
        law_noted_tags_are_the_valid_listed_tags(value, tags[i]);
    }
    law_noted_tags_are_the_valid_listed_tags(value, tag);
    let at = choose|i: int| 0 <= i < tags.len() && tags[i] == tag;
    law_tags_before_the_first_invalid_are_recorded(pre, tags, key, post, written, at);
    law_tags_before_the_first_invalid_are_recorded(
        pre,
        tags,
        key,
        post,
        written,
        tags.len() - 1,
    );
}

/// A response is being stored where its upstream marks it as cacheable and it
/// has a node in the cache tree, whether or not its file is open, or its file
/// is open, whether or not it has a node. Its key is then the one of its place
/// in the cache.
pub proof fn law_node_or_file_makes_a_stored_response(slot: CacheSlot)
    ensures
        slot.has_node ==> stored_key(Some(true), Some(slot)) == Some(slot.key),
        slot.has_file ==> stored_key(Some(true), Some(slot)) == Some(slot.key),
        !slot.has_node && !slot.has_file ==> stored_key(Some(true), Some(slot)) is None,
{
}

/// A response without an upstream, one that its upstream does not mark as
/// cacheable, and one without a place in the cache are not being stored.
pub proof fn law_other_responses_are_not_stored(
    cacheable: Option<bool>,
    cache: Option<CacheSlot>,
)
    requires
        cacheable is None || cacheable == Some(false) || cache is None,
    ensures
        stored_key(cacheable, cache) is None,
{
}

/// Exactly the tags of 1 to 256 bytes are recordable, in the order they have.
pub proof fn law_fitting_tags_are_recordable(before: Seq<Seq<u8>>, tag: Seq<u8>)
    ensures
        recordable(Seq::<Seq<u8>>::empty()) == Seq::<Seq<u8>>::empty(),
        recordable(before.push(tag)) == if 1 <= tag.len() <= 256 {
            recordable(before).push(tag)
        } else {
            recordable(before)
        },
{
    reveal(Seq::filter);
    assert(before.push(tag).drop_last() =~= before);
}

/// The main response that is being stored is noted under its own key, for the
/// tags of its first header with the name, also where that header comes after
/// others and repeats.
pub proof fn law_stored_main_response_is_noted(
    slot: CacheSlot,
    headers: Seq<HeaderView>,
    header: Seq<u8>,
    i: int,
)
    requires
        slot.has_node || slot.has_file,
        0 <= i < headers.len(),
        same_name(headers[i].name, header),
        forall|j: int| 0 <= j < i ==> !same_name((#[trigger] headers[j]).name, header),
    ensures
        noted(true, Some(true), Some(slot), headers, header) == Some(
            (slot.key, recordable(listed_tags(headers[i].value))),
        ),
{
    law_first_header_counts(headers, header, true, i);
}

/// Nothing is noted of a subrequest, of a response that is not being stored,
/// and of one without the header.
pub proof fn law_other_responses_are_not_noted(
    is_main: bool,
    cacheable: Option<bool>,
    cache: Option<CacheSlot>,
    headers: Seq<HeaderView>,
    header: Seq<u8>,
)
    requires
        !is_main || cacheable is None || cacheable == Some(false) || cache is None || (
        !cache->0.has_node && !cache->0.has_file) || forall|j: int|
            0 <= j < headers.len() ==> !same_name((#[trigger] headers[j]).name, header),
    ensures
        noted(is_main, cacheable, cache, headers, header) is None,
{
    if forall|j: int|
        0 <= j < headers.len() ==> !same_name((#[trigger] headers[j]).name, header) {
        law_first_header_counts(headers, header, true, headers.len() as int);
    }
}

/// A recording is one insert after another: it inserts the first tag, and goes
/// on with the others where that succeeded. Where it did not, it ends there.
/// Without tags it changes nothing.
pub proof fn law_recording_inserts_in_turn(
    pre: IndexView,
    tags: Seq<Seq<u8>>,
    key: CacheKey,
    post: IndexView,
    written: int,
)
    requires
        recorded_all(pre, tags, key, post, written),
    ensures
        tags.len() == 0 ==> post == pre && written == 0,
        tags.len() > 0 && written == 0 ==> inserted(pre, tags[0], key, post, false),
        tags.len() > 0 && written != 0 ==> exists|mid: IndexView|
            {
                &&& #[trigger] inserted(pre, tags[0], key, mid, true)
                &&& recorded_all(mid, tags.drop_first(), key, post, written - 1)
            },
        0 <= written <= tags.len(),
{
    let states = run_of(pre, tags, key, post, written);
    if tags.len() > 0 && written != 0 {
        let mid = states[1];
        let rest = states.drop_first();
        let later = tags.drop_first();
        assert(inserted(states[0], tags[0], key, states[1], true));
        assert forall|i: int| 0 <= i < written - 1 implies inserted(
            #[trigger] rest[i],
            later[i],
            key,
            rest[i + 1],
            true,
        ) by {
            assert(inserted(states[i + 1], tags[i + 1], key, states[i + 2], true));
        }
        assert(runs_through(rest, later, key, written - 1));
        assert(rest.first() == mid && rest.last() == post);
        assert(recorded_all(mid, later, key, post, written - 1));
    }
}

} // verus!
