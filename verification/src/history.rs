//! What an index answers after any history of recordings and purges.

use vstd::prelude::*;

use crate::cache_key::{named_key, CacheKey};
use crate::index_laws::law_take_removes_the_tag_alone;
use crate::model::{
    has_tag, holds, inserted, keys_of, pushes_out, valid_entries, valid_tag, without, IndexView,
};
use crate::purge::{
    after_removals, asks_for, index_report, invalidated, law_held_entry_is_removed,
    law_only_held_keys_are_asked_for, law_tag_not_held_is_scanned, looked_up, purge_step,
    ActionView, EventView, Outcome, Phase,
};
use crate::record::{
    law_recorded_tag_that_stays_has_the_key, law_recorded_tags_can_be_taken,
    law_recording_keeps_recorded_keys, law_recording_keeps_the_index_valid,
    law_recording_loses_whole_tags, law_tags_before_the_first_invalid_are_recorded, noted_tags,
    recorded_all, runs_through,
};
use crate::scan::{Fate, Visit};
use crate::tags::listed_tags;

verus! {

/// What is done to an index.
pub enum Change {
    /// `key` is recorded against `tags` in turn, of which `written` are taken
    /// in. A response does this, and a scan for each file that stays.
    Record { tags: Seq<Seq<u8>>, key: CacheKey, written: int },
    /// A tag is taken out by a purge.
    Take { tag: Seq<u8> },
}

impl Change {
    /// What the change makes of an index.
    pub open spec fn leads(self, pre: IndexView, post: IndexView) -> bool {
        match self {
            Change::Record { tags, key, written } => recorded_all(pre, tags, key, post, written),
            Change::Take { tag } => post == (IndexView {
                entries: without(pre.entries, tag),
                ..pre
            }),
        }
    }

    /// Whether the change leaves `key` with `tag`. It is not a purge of the
    /// tag. If it is a recording, it does not push the key out as the oldest
    /// of the tag's full list, and either the memory refuses nothing, or the
    /// tag is not evicted: it is still held, and not with another key that was
    /// just recorded alone, as it is once evicted and recorded anew.
    pub open spec fn spares(
        self,
        pre: IndexView,
        post: IndexView,
        tag: Seq<u8>,
        key: CacheKey,
    ) -> bool {
        match self {
            Change::Record { tags, key: recorded, written } => {
                let listed = tags.take(written).contains(tag);
                &&& listed ==> !pushes_out(pre.entries, tag, recorded, key)
                &&& pre.refusals == post.refusals || {
                    &&& has_tag(post.entries, tag)
                    &&& listed ==> recorded == key || keys_of(post.entries, tag) != seq![recorded]
                }
            },
            Change::Take { tag: taken } => taken != tag,
        }
    }
}

/// The states that an index goes through under `changes`.
pub open spec fn history(states: Seq<IndexView>, changes: Seq<Change>) -> bool {
    &&& states.len() == changes.len() + 1
    &&& valid_entries(states[0].entries)
    &&& forall|i: int|
        0 <= i < changes.len() ==> (#[trigger] changes[i]).leads(states[i], states[i + 1])
}

/// Whether every change from state `from` on leaves `key` with `tag`.
pub open spec fn spared_from(
    states: Seq<IndexView>,
    changes: Seq<Change>,
    from: int,
    tag: Seq<u8>,
    key: CacheKey,
) -> bool {
    forall|i: int|
        from <= i < changes.len() ==> (#[trigger] changes[i]).spares(
            states[i],
            states[i + 1],
            tag,
            key,
        )
}

/// Whether change `at` recorded `key` against `tag` without then evicting it,
/// and every change since has left it there.
pub open spec fn recorded_since(
    states: Seq<IndexView>,
    changes: Seq<Change>,
    at: int,
    tag: Seq<u8>,
    key: CacheKey,
) -> bool {
    &&& 0 <= at < changes.len()
    &&& changes[at] matches Change::Record { tags, key: recorded, written }
    &&& recorded == key
    &&& tags.take(written).contains(tag)
    &&& has_tag(states[at + 1].entries, tag)
    &&& spared_from(states, changes, at + 1, tag, key)
}

/// Whether `tag` is one of `tags`, and the index can hold it and each that
/// precedes it.
pub open spec fn in_valid_prefix(tags: Seq<Seq<u8>>, tag: Seq<u8>) -> bool {
    exists|i: int|
        {
            &&& 0 <= i < tags.len()
            &&& #[trigger] tags[i] == tag
            &&& forall|j: int| 0 <= j <= i ==> valid_tag(#[trigger] tags[j])
        }
}

/// An insert is the recording of one tag.
pub proof fn law_insert_is_a_recording(
    pre: IndexView,
    tag: Seq<u8>,
    key: CacheKey,
    post: IndexView,
    ok: bool,
)
    requires
        inserted(pre, tag, key, post, ok),
    ensures
        (Change::Record {
            tags: seq![tag],
            key,
            written: if ok {
                1int
            } else {
                0int
            },
        }).leads(pre, post),
{
    let states = seq![pre, post];
    let written = if ok {
        1int
    } else {
        0int
    };
    assert(seq![tag][0] == tag);
    assert(runs_through(states, seq![tag], key, written));
}

proof fn lemma_change(pre: IndexView, change: Change, post: IndexView)
    requires
        valid_entries(pre.entries),
        change.leads(pre, post),
    ensures
        valid_entries(post.entries),
        pre.refusals <= post.refusals,
{
    match change {
        Change::Record { tags, key, written } => {
            law_recording_keeps_the_index_valid(pre, tags, key, post, written);
        },
        Change::Take { tag } => {
            assert(tag.push(0).len() != tag.len());
            law_take_removes_the_tag_alone(pre.entries, tag, tag.push(0));
        },
    }
}

/// An index is valid at every point of its history.
pub proof fn law_history_keeps_the_index_valid(
    states: Seq<IndexView>,
    changes: Seq<Change>,
    i: int,
)
    requires
        history(states, changes),
        0 <= i < states.len(),
    ensures
        valid_entries(states[i].entries),
    decreases i,
{
    if i > 0 {
        law_history_keeps_the_index_valid(states, changes, i - 1);
        assert(changes[i - 1].leads(states[i - 1], states[i]));
        lemma_change(states[i - 1], changes[i - 1], states[i]);
    }
}

/// Refusals only add up: where the memory has refused as little at one point of
/// a history as at an earlier one, it refused nothing in between.
pub proof fn law_refusals_add_up(
    states: Seq<IndexView>,
    changes: Seq<Change>,
    from: int,
    to: int,
)
    requires
        history(states, changes),
        0 <= from <= to < states.len(),
    ensures
        states[from].refusals <= states[to].refusals,
    decreases to - from,
{
    if from < to {
        law_refusals_add_up(states, changes, from, to - 1);
        law_history_keeps_the_index_valid(states, changes, to - 1);
        assert(changes[to - 1].leads(states[to - 1], states[to]));
        lemma_change(states[to - 1], changes[to - 1], states[to]);
    }
}

/// What is held stays held: while the tag is neither purged nor evicted and the
/// key is not pushed out as the oldest of a full list, every later recording,
/// under the same tag or another, and every purge of another tag keeps it.
pub proof fn law_held_key_is_kept(
    states: Seq<IndexView>,
    changes: Seq<Change>,
    from: int,
    tag: Seq<u8>,
    key: CacheKey,
)
    requires
        history(states, changes),
        0 <= from < states.len(),
        holds(states[from].entries, tag, key),
        spared_from(states, changes, from, tag, key),
    ensures
        holds(states.last().entries, tag, key),
    decreases states.len() - from,
{
    if from < states.len() - 1 {
        let pre = states[from];
        let post = states[from + 1];
        law_history_keeps_the_index_valid(states, changes, from);
        assert(changes[from].leads(pre, post));
        assert(changes[from].spares(pre, post, tag, key));
        match changes[from] {
            Change::Record { tags, key: recorded, written } => {
                if pre.refusals == post.refusals {
                    law_recording_keeps_recorded_keys(pre, tags, recorded, post, written, tag, key);
                } else {
                    law_recording_loses_whole_tags(pre, tags, recorded, post, written, tag, key);
                }
            },
            Change::Take { tag: taken } => {
                law_take_removes_the_tag_alone(pre.entries, taken, tag);
            },
        }
        law_held_key_is_kept(states, changes, from + 1, tag, key);
    }
}

/// What was recorded and spared since is held.
pub proof fn law_recorded_key_is_held(
    states: Seq<IndexView>,
    changes: Seq<Change>,
    at: int,
    tag: Seq<u8>,
    key: CacheKey,
)
    requires
        history(states, changes),
        recorded_since(states, changes, at, tag, key),
    ensures
        holds(states.last().entries, tag, key),
{
    law_history_keeps_the_index_valid(states, changes, at);
    assert(changes[at].leads(states[at], states[at + 1]));
    if let Change::Record { tags, key: recorded, written } = changes[at] {
        law_recorded_tag_that_stays_has_the_key(
            states[at],
            tags,
            key,
            states[at + 1],
            written,
            tag,
        );
    }
    law_held_key_is_kept(states, changes, at + 1, tag, key);
}

/// Recorded and then purged, over any history: a response that listed `tag`
/// has its entry removed by a later purge of the tag, where the index had room
/// for it and every change since has left it there. Other tags in its header,
/// valid or not, make no difference.
pub proof fn law_recorded_entry_is_removed(
    states: Seq<IndexView>,
    changes: Seq<Change>,
    at: int,
    value: Seq<u8>,
    tag: Seq<u8>,
    fallback: bool,
)
    requires
        history(states, changes),
        0 <= at < changes.len(),
        changes[at] is Record,
        changes[at]->tags == noted_tags(value),
        listed_tags(value).contains(tag),
        valid_tag(tag),
        states[at].refusals == states[at + 1].refusals,
        spared_from(states, changes, at + 1, tag, changes[at]->key),
    ensures
        ({
            let keys = keys_of(states.last().entries, tag);
            &&& looked_up(states.last().entries, tag, fallback) == EventView::Taken(keys)
            &&& asks_for(keys, changes[at]->key)
        }),
{
    let key = changes[at]->key;
    law_history_keeps_the_index_valid(states, changes, at);
    assert(changes[at].leads(states[at], states[at + 1]));
    law_recorded_tags_can_be_taken(
        states[at],
        value,
        key,
        states[at + 1],
        changes[at]->written,
        tag,
    );
    law_held_key_is_kept(states, changes, at + 1, tag, key);
    law_held_entry_is_removed(states.last().entries, tag, key, fallback);
}

/// The states that an index goes through while a scan for `purged` makes these
/// visits: each file that stays is written back, and no other changes it.
pub open spec fn scan_history(
    states: Seq<IndexView>,
    visits: Seq<Visit>,
    header: Seq<u8>,
    purged: Seq<u8>,
) -> bool {
    &&& states.len() == visits.len() + 1
    &&& valid_entries(states[0].entries)
    &&& forall|i: int|
        0 <= i < visits.len() ==> match (#[trigger] visits[i]).fate(header, purged) {
            Fate::Keep(tags) => {
                &&& named_key(visits[i].path) == Some(visits[i].key@)
                &&& recorded_all(states[i], tags, visits[i].key, states[i + 1], visits[i].written)
            },
            _ => states[i + 1] == states[i],
        }
}

/// What a visit of a scan does to the index.
pub open spec fn change_of(visit: Visit, header: Seq<u8>, purged: Seq<u8>) -> Change {
    match visit.fate(header, purged) {
        Fate::Keep(tags) => Change::Record { tags, key: visit.key, written: visit.written },
        _ => Change::Record { tags: seq![], key: visit.key, written: 0 },
    }
}

/// What the visits of a scan do to the index.
pub open spec fn changes_of(visits: Seq<Visit>, header: Seq<u8>, purged: Seq<u8>) -> Seq<Change> {
    visits.map_values(|visit: Visit| change_of(visit, header, purged))
}

/// A scan is a history of recordings.
pub proof fn law_scan_is_a_history(
    states: Seq<IndexView>,
    visits: Seq<Visit>,
    header: Seq<u8>,
    purged: Seq<u8>,
)
    requires
        scan_history(states, visits, header, purged),
    ensures
        history(states, changes_of(visits, header, purged)),
{
    let changes = changes_of(visits, header, purged);
    assert forall|i: int| 0 <= i < changes.len() implies (#[trigger] changes[i]).leads(
        states[i],
        states[i + 1],
    ) by {
        let visit = visits[i];
        if !(visit.fate(header, purged) is Keep) {
            let run = seq![states[i]];
            assert(runs_through(run, seq![], visit.key, 0));
            assert(run.first() == states[i] && run.last() == states[i + 1]);
        }
    }
}

/// One scan warms the index: where the memory has room for the tags of a file
/// that stays, every one of them, up to the first that the index cannot hold,
/// is held with the file's key when the scan is over, unless a file that
/// followed evicted the tag or pushed the key out as the oldest of its full
/// list. So a following purge of such a tag asks for the removal of the file,
/// and is answered from memory, naming the index.
pub proof fn law_scan_warms_the_index(
    states: Seq<IndexView>,
    visits: Seq<Visit>,
    header: Seq<u8>,
    purged: Seq<u8>,
    at: int,
    tag: Seq<u8>,
    fallback: bool,
)
    requires
        scan_history(states, visits, header, purged),
        0 <= at < visits.len(),
        visits[at].fate(header, purged) is Keep,
        in_valid_prefix(visits[at].fate(header, purged)->0, tag),
        states[at].refusals == states[at + 1].refusals,
        forall|i: int|
            at < i < visits.len() ==> change_of(#[trigger] visits[i], header, purged).spares(
                states[i],
                states[i + 1],
                tag,
                visits[at].key,
            ),
    ensures
        holds(states.last().entries, tag, visits[at].key),
        ({
            let keys = keys_of(states.last().entries, tag);
            &&& looked_up(states.last().entries, tag, fallback) == EventView::Taken(keys)
            &&& asks_for(keys, visits[at].key)
            &&& forall|outcomes: Seq<Outcome>|
                outcomes.len() == keys.len() ==> (#[trigger] after_removals(keys, outcomes)) == (
                    Phase::Sending,
                    ActionView::SendNoContent(index_report(invalidated(outcomes))),
                )
        }),
{
    let changes = changes_of(visits, header, purged);
    law_scan_is_a_history(states, visits, header, purged);
    assert forall|i: int| at + 1 <= i < changes.len() implies (#[trigger] changes[i]).spares(
        states[i],
        states[i + 1],
        tag,
        visits[at].key,
    ) by {
        assert(change_of(visits[i], header, purged).spares(
            states[i],
            states[i + 1],
            tag,
            visits[at].key,
        ));
    }
    law_history_keeps_the_index_valid(states, changes, at);
    let tags = visits[at].fate(header, purged)->0;
    let i = choose|i: int|
        {
            &&& 0 <= i < tags.len()
            &&& #[trigger] tags[i] == tag
            &&& forall|j: int| 0 <= j <= i ==> valid_tag(#[trigger] tags[j])
        };
    law_tags_before_the_first_invalid_are_recorded(
        states[at],
        tags,
        visits[at].key,
        states[at + 1],
        visits[at].written,
        i,
    );
    law_held_key_is_kept(states, changes, at + 1, tag, visits[at].key);
    law_held_entry_is_removed(states.last().entries, tag, visits[at].key, fallback);
}

/// Whether a purge of `tag` asks for the removal of `file`, with scans turned
/// on: by its key where the index holds the tag, and by its stored headers
/// where the directory is scanned.
pub open spec fn asks_for_file(
    index: IndexView,
    file: Visit,
    header: Seq<u8>,
    tag: Seq<u8>,
) -> bool {
    match looked_up(index.entries, tag, true) {
        EventView::Taken(keys) => asks_for(keys, file.key),
        event => purge_step(Phase::Looking, event) == (Phase::Scanning, ActionView::Scan)
            && file.fate(header, tag) is Purge,
    }
}

/// A purge leaves no file with the tag: where the index does not hold the tag,
/// or holds it with the key of every file that lists it, the purge asks for
/// the removal of every such file.
pub proof fn law_purge_leaves_no_file_with_the_tag(
    index: IndexView,
    files: Seq<Visit>,
    header: Seq<u8>,
    tag: Seq<u8>,
)
    requires
        !has_tag(index.entries, tag) || forall|i: int|
            0 <= i < files.len() && (#[trigger] files[i]).lists(header, tag) ==> holds(
                index.entries,
                tag,
                files[i].key,
            ),
    ensures
        forall|i: int|
            0 <= i < files.len() && (#[trigger] files[i]).lists(header, tag) ==> asks_for_file(
                index,
                files[i],
                header,
                tag,
            ),
{
    assert forall|i: int|
        0 <= i < files.len() && (#[trigger] files[i]).lists(header, tag) implies asks_for_file(
        index,
        files[i],
        header,
        tag,
    ) by {
        if has_tag(index.entries, tag) {
            law_held_entry_is_removed(index.entries, tag, files[i].key, true);
        } else {
            law_tag_not_held_is_scanned(index.entries, tag);
        }
    }
}

/// The limit of the above: a tag that is held answers with the keys it has, so
/// a file whose key is not among them is not asked for, whatever it lists.
pub proof fn law_file_whose_key_is_not_held_is_missed(
    index: IndexView,
    file: Visit,
    header: Seq<u8>,
    tag: Seq<u8>,
)
    requires
        has_tag(index.entries, tag),
        !holds(index.entries, tag, file.key),
    ensures
        !asks_for_file(index, file, header, tag),
{
    law_only_held_keys_are_asked_for(keys_of(index.entries, tag), file.key);
}

/// Losing index content costs a scan, over any history: whatever was recorded,
/// purged, evicted or refused before, a purge asks for the removal of every
/// file that lists the tag, where the index has lost the tag altogether, or
/// each of those files was recorded under it and every change since has left
/// it there.
pub proof fn law_purge_after_any_history(
    states: Seq<IndexView>,
    changes: Seq<Change>,
    files: Seq<Visit>,
    header: Seq<u8>,
    tag: Seq<u8>,
)
    requires
        history(states, changes),
        !has_tag(states.last().entries, tag) || forall|i: int|
            0 <= i < files.len() && (#[trigger] files[i]).lists(header, tag) ==> exists|at: int|
                recorded_since(states, changes, at, tag, files[i].key),
    ensures
        forall|i: int|
            0 <= i < files.len() && (#[trigger] files[i]).lists(header, tag) ==> asks_for_file(
                states.last(),
                files[i],
                header,
                tag,
            ),
{
    if has_tag(states.last().entries, tag) {
        assert forall|i: int|
            0 <= i < files.len() && (#[trigger] files[i]).lists(header, tag) implies holds(
            states.last().entries,
            tag,
            files[i].key,
        ) by {
            let at = choose|at: int| recorded_since(states, changes, at, tag, files[i].key);
            law_recorded_key_is_held(states, changes, at, tag, files[i].key);
        }
    }
    law_purge_leaves_no_file_with_the_tag(states.last(), files, header, tag);
}

} // verus!
