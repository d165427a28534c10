//! Purging: from a request to the answer it gets.
//!
//! The handler that serves a purge endpoint does the outside work: it reads
//! the request, touches the cache zone and the files, and sends the answer.
//! What is to be done next, and what is answered in the end, is decided here,
//! one step at a time.

use vstd::prelude::*;
use vstd::string::StringSliceAdditionalSpecFns;

use crate::bytes::same_bytes;
use crate::cache_key::CacheKey;
use crate::header::{
    header_named, header_views, law_first_header_counts, named_value, same_name, Header,
    HeaderView,
};
use crate::index::TagIndex;
use crate::index_laws::law_tag_is_found_by_its_bytes;
use crate::model::{has_tag, holds, keys_of, without, IndexView, TagEntry};
use crate::reply::{
    sent_code, ReplyHeader, Source, BAD_REQUEST, NGX_ERROR, NGX_OK, NOT_ALLOWED, NOT_FOUND,
    NO_CONTENT,
};
use crate::store::TagStore;
use crate::tags::MAX_TAG_LEN;

verus! {

/// Whether the method is `PURGE`, the only one that a purge endpoint answers.
pub fn is_purge(method: &[u8]) -> (purge: bool)
    ensures
        purge == (method@ == "PURGE".spec_bytes()),
{
    same_bytes(method, "PURGE".as_bytes())
}

/// The tag that a request with these headers names: the value of its first
/// `xkey-purge` header that is not empty.
pub open spec fn named_tag(headers: Seq<HeaderView>) -> Option<Seq<u8>> {
    named_value(headers, "xkey-purge".spec_bytes(), false)
}

/// The tag named by the request, if any.
pub fn purge_tag<'a>(headers: &Vec<Header<'a>>) -> (tag: Option<&'a [u8]>)
    ensures
        tag is Some <==> named_tag(header_views(headers@)) is Some,
        tag matches Some(t) ==> named_tag(header_views(headers@)) == Some(t@),
{
    header_named(headers, "xkey-purge".as_bytes(), false)
}

/// The tag that a request asks to purge. Over-long tags are refused rather
/// than truncated.
pub open spec fn wanted_tag(headers: Seq<HeaderView>) -> Option<Seq<u8>> {
    match named_tag(headers) {
        Some(tag) if tag.len() <= MAX_TAG_LEN => Some(tag),
        _ => None,
    }
}

/// What happened outside.
pub enum Event {
    /// Discarding the request's body returned this code.
    Discarded(isize),
    /// The index held the tag, under which these keys were recorded. It no
    /// longer does.
    Taken(Vec<CacheKey>),
    /// The index does not hold the tag; `fallback` is whether a scan may look
    /// for it.
    NotIndexed { fallback: bool },
    /// The entry was dealt with: whether its node was cleared, and whether
    /// its file was unlinked.
    Removed { cleared: bool, unlinked: bool },
    /// The directory was scanned, with these counts.
    Scanned { scanned: usize, purged: usize, indexed: usize },
    /// Sending the header of the answer returned this code.
    HeaderSent(isize),
    /// What was asked for could not be done: a configuration, the cache, the
    /// index or memory is missing, or the scan failed.
    Failed,
}

/// What is to be done next.
#[derive(Debug, PartialEq, Eq)]
pub enum Action {
    /// Discard the request's body.
    DiscardBody,
    /// Take the tag out of the index.
    TakeTag,
    /// Clear the node of this entry and unlink its file.
    Remove(CacheKey),
    /// Scan the cache directory for the tag.
    Scan,
    /// Send the header of an answer without content, with these headers.
    SendNoContent(Vec<ReplyHeader>),
    /// Add these headers and return this code: the purge is over.
    Return(isize, Vec<ReplyHeader>),
}

pub enum EventView {
    Discarded(isize),
    Taken(Seq<CacheKey>),
    NotIndexed { fallback: bool },
    Removed { cleared: bool, unlinked: bool },
    Scanned { scanned: usize, purged: usize, indexed: usize },
    HeaderSent(isize),
    Failed,
}

impl View for Event {
    type V = EventView;

    open spec fn view(&self) -> EventView {
        match self {
            Event::Discarded(rc) => EventView::Discarded(*rc),
            Event::Taken(keys) => EventView::Taken(keys@),
            Event::NotIndexed { fallback } => EventView::NotIndexed { fallback: *fallback },
            Event::Removed { cleared, unlinked } => EventView::Removed {
                cleared: *cleared,
                unlinked: *unlinked,
            },
            Event::Scanned { scanned, purged, indexed } => EventView::Scanned {
                scanned: *scanned,
                purged: *purged,
                indexed: *indexed,
            },
            Event::HeaderSent(rc) => EventView::HeaderSent(*rc),
            Event::Failed => EventView::Failed,
        }
    }
}

#[verifier::ext_equal]
pub enum ActionView {
    DiscardBody,
    TakeTag,
    Remove(CacheKey),
    Scan,
    SendNoContent(Seq<ReplyHeader>),
    Return(isize, Seq<ReplyHeader>),
}

impl ActionView {
    /// The code of the answer whose header is to be sent.
    pub open spec fn status_code(self) -> Option<isize> {
        match self {
            ActionView::SendNoContent(_) => Some(NO_CONTENT),
            _ => None,
        }
    }
}

impl Action {
    /// The code of the answer whose header is to be sent, if one is.
    pub fn status(&self) -> (code: Option<isize>)
        ensures
            code == self@.status_code(),
    {
        match self {
            Action::SendNoContent(_) => Some(NO_CONTENT),
            _ => None,
        }
    }
}

impl View for Action {
    type V = ActionView;

    open spec fn view(&self) -> ActionView {
        match self {
            Action::DiscardBody => ActionView::DiscardBody,
            Action::TakeTag => ActionView::TakeTag,
            Action::Remove(key) => ActionView::Remove(*key),
            Action::Scan => ActionView::Scan,
            Action::SendNoContent(headers) => ActionView::SendNoContent(headers@),
            Action::Return(code, headers) => ActionView::Return(*code, headers@),
        }
    }
}

/// What comes of looking `tag` up in an index with these contents, where
/// `fallback` is whether a scan may look for it instead.
pub open spec fn looked_up(entries: Seq<TagEntry>, tag: Seq<u8>, fallback: bool) -> EventView {
    if has_tag(entries, tag) {
        EventView::Taken(keys_of(entries, tag))
    } else {
        EventView::NotIndexed { fallback }
    }
}

/// Takes `tag` out of `index`: the whole set at once, before anything is done
/// about its entries.
pub fn look_up<S: TagStore>(index: &mut TagIndex<S>, tag: &[u8], fallback: bool) -> (event: Event)
    requires
        old(index).inv(),
    ensures
        final(index).inv(),
        event@ == looked_up(old(index)@.entries, tag@, fallback),
        final(index)@ == (IndexView {
            entries: without(old(index)@.entries, tag@),
            ..old(index)@
        }),
{
    match index.take(tag) {
        Some(keys) => Event::Taken(keys),
        None => Event::NotIndexed { fallback },
    }
}

/// How far a purge has come.
#[verifier::ext_equal]
pub enum Phase {
    /// The request's body is being discarded; the tag it asks for, if any.
    Discarding(Option<Seq<u8>>),
    /// The index is being asked.
    Looking,
    /// The entries under these keys are yet to be dealt with, the first of
    /// them now; `purged` have been invalidated.
    Removing { keys: Seq<CacheKey>, purged: int },
    /// The directory is being scanned.
    Scanning,
    /// The header of the answer is being sent.
    Sending,
    /// The purge is over.
    Done,
}

/// The headers of an answer from the index.
pub open spec fn index_report(purged: int) -> Seq<ReplyHeader> {
    seq![ReplyHeader::PurgeSource(Source::Index), ReplyHeader::PurgedCount(purged as usize)]
}

/// The headers of an answer from a scan.
pub open spec fn scan_report(scanned: usize, purged: usize, indexed: usize) -> Seq<ReplyHeader> {
    seq![
        ReplyHeader::PurgeSource(Source::Scan),
        ReplyHeader::PurgedCount(purged),
        ReplyHeader::ScannedFiles(scanned),
        ReplyHeader::IndexedFiles(indexed),
    ]
}

/// How a purge starts.
pub open spec fn purge_start(method: Seq<u8>, headers: Seq<HeaderView>) -> (Phase, ActionView) {
    if method == "PURGE".spec_bytes() {
        (Phase::Discarding(wanted_tag(headers)), ActionView::DiscardBody)
    } else {
        (Phase::Done, ActionView::Return(NOT_ALLOWED, seq![ReplyHeader::AllowPurge]))
    }
}

/// What follows once `purged` entries were invalidated and those under `keys`
/// are left.
pub open spec fn removing(keys: Seq<CacheKey>, purged: int) -> (Phase, ActionView) {
    if keys.len() == 0 {
        (Phase::Sending, ActionView::SendNoContent(index_report(purged)))
    } else {
        (Phase::Removing { keys, purged }, ActionView::Remove(keys[0]))
    }
}

/// How a purge goes on.
pub open spec fn purge_step(phase: Phase, event: EventView) -> (Phase, ActionView) {
    match (phase, event) {
        (Phase::Discarding(tag), EventView::Discarded(rc)) => if rc != NGX_OK {
            (Phase::Done, ActionView::Return(rc, seq![]))
        } else if tag is None {
            (Phase::Done, ActionView::Return(BAD_REQUEST, seq![]))
        } else {
            (Phase::Looking, ActionView::TakeTag)
        },
        (Phase::Looking, EventView::Taken(keys)) => removing(keys, 0),
        (Phase::Looking, EventView::NotIndexed { fallback }) => if fallback {
            (Phase::Scanning, ActionView::Scan)
        } else {
            (
                Phase::Done,
                ActionView::Return(NOT_FOUND, seq![ReplyHeader::PurgeSource(Source::Index)]),
            )
        },
        (Phase::Removing { keys, purged }, EventView::Removed { cleared, unlinked }) => removing(
            keys.drop_first(),
            if cleared || unlinked {
                purged + 1
            } else {
                purged
            },
        ),
        (Phase::Scanning, EventView::Scanned { scanned, purged, indexed }) => if purged == 0 {
            (Phase::Done, ActionView::Return(NOT_FOUND, scan_report(scanned, purged, indexed)))
        } else {
            (Phase::Sending, ActionView::SendNoContent(scan_report(scanned, purged, indexed)))
        },
        (Phase::Sending, EventView::HeaderSent(rc)) => (
            Phase::Done,
            ActionView::Return(sent_code(rc), seq![]),
        ),
        _ => (Phase::Done, ActionView::Return(NGX_ERROR, seq![])),
    }
}

enum Progress {
    Discarding,
    Looking,
    Removing { keys: Vec<CacheKey>, next: usize, purged: usize },
    Scanning,
    Sending,
    Done,
}

/// A purge under way.
pub struct Purge {
    tag: Option<Vec<u8>>,
    progress: Progress,
}

impl View for Purge {
    type V = Phase;

    closed spec fn view(&self) -> Phase {
        match &self.progress {
            Progress::Discarding => Phase::Discarding(self.tag_bytes()),
            Progress::Looking => Phase::Looking,
            Progress::Removing { keys, next, purged } => Phase::Removing {
                keys: keys@.skip(*next as int),
                purged: *purged as int,
            },
            Progress::Scanning => Phase::Scanning,
            Progress::Sending => Phase::Sending,
            Progress::Done => Phase::Done,
        }
    }
}

impl Purge {
    /// The tag that the purge is for.
    pub closed spec fn tag_bytes(&self) -> Option<Seq<u8>> {
        match &self.tag {
            Some(tag) => Some(tag@),
            None => None,
        }
    }

    pub closed spec fn inv(&self) -> bool {
        self.progress matches Progress::Removing { keys, next, purged } ==> purged <= next
            < keys.len()
    }

    /// Starts on a request with this method and these headers.
    pub fn start(method: &[u8], headers: &Vec<Header>) -> (begun: (Purge, Action))
        ensures
            begun.0.inv(),
            begun.0.tag_bytes() == wanted_tag(header_views(headers@)),
            (begun.0@, begun.1@) == purge_start(method@, header_views(headers@)),
    {
        let tag: Option<Vec<u8>> = match purge_tag(headers) {
            Some(tag) => if tag.len() <= MAX_TAG_LEN {
                Some(vstd::slice::slice_to_vec(tag))
            } else {
                None
            },
            None => None,
        };
        if is_purge(method) {
            (Purge { tag, progress: Progress::Discarding }, Action::DiscardBody)
        } else {
            let action = Action::Return(NOT_ALLOWED, vec![ReplyHeader::AllowPurge]);
            assert(action@ =~= ActionView::Return(NOT_ALLOWED, seq![ReplyHeader::AllowPurge]));
            (Purge { tag, progress: Progress::Done }, action)
        }
    }

    /// The tag that the purge is for, if the request named one.
    pub fn tag(&self) -> (tag: Option<&[u8]>)
        ensures
            tag is Some <==> self.tag_bytes() is Some,
            tag matches Some(t) ==> self.tag_bytes() == Some(t@),
    {
        match &self.tag {
            Some(tag) => Some(tag.as_slice()),
            None => None,
        }
    }

    /// Goes on after `event`. One that does not answer the last action ends
    /// the purge in an error.
    pub fn advance(&mut self, event: Event) -> (action: Action)
        requires
            old(self).inv(),
        ensures
            final(self).inv(),
            final(self).tag_bytes() == old(self).tag_bytes(),
            (final(self)@, action@) == purge_step(old(self)@, event@),
    {
        let mut progress: Progress = Progress::Done;
        std::mem::swap(&mut progress, &mut self.progress);
        match (progress, event) {
            (Progress::Discarding, Event::Discarded(rc)) => if rc != NGX_OK {
                finish(rc)
            } else if self.tag.is_none() {
                finish(BAD_REQUEST)
            } else {
                self.progress = Progress::Looking;
                Action::TakeTag
            },
            (Progress::Looking, Event::Taken(keys)) => {
                assert(keys@.skip(0) =~= keys@);
                self.remove_next(keys, 0, 0)
            },
            (Progress::Looking, Event::NotIndexed { fallback }) => if fallback {
                self.progress = Progress::Scanning;
                Action::Scan
            } else {
                let headers: Vec<ReplyHeader> = vec![ReplyHeader::PurgeSource(Source::Index)];
                assert(headers@ =~= seq![ReplyHeader::PurgeSource(Source::Index)]);
                Action::Return(NOT_FOUND, headers)
            },
            (
                Progress::Removing { keys, next, purged },
                Event::Removed { cleared, unlinked },
            ) => {
                assert(keys@.skip(next as int).drop_first() =~= keys@.skip(next + 1));
                let count: usize = if cleared || unlinked {
                    purged + 1
                } else {
                    purged
                };
                self.remove_next(keys, next + 1, count)
            },
            (Progress::Scanning, Event::Scanned { scanned, purged, indexed }) => {
                let headers: Vec<ReplyHeader> = vec![
                    ReplyHeader::PurgeSource(Source::Scan),
                    ReplyHeader::PurgedCount(purged),
                    ReplyHeader::ScannedFiles(scanned),
                    ReplyHeader::IndexedFiles(indexed),
                ];
                assert(headers@ =~= scan_report(scanned, purged, indexed));
                if purged == 0 {
                    Action::Return(NOT_FOUND, headers)
                } else {
                    self.progress = Progress::Sending;
                    Action::SendNoContent(headers)
                }
            },
            (Progress::Sending, Event::HeaderSent(rc)) => if rc == NGX_ERROR || rc > NGX_OK {
                finish(rc)
            } else {
                finish(NGX_OK)
            },
            _ => finish(NGX_ERROR),
        }
    }

    /// Turns to the key at `next`, or to the answer after the last.
    fn remove_next(&mut self, keys: Vec<CacheKey>, next: usize, purged: usize) -> (action: Action)
        requires
            purged <= next <= keys@.len(),
            old(self).inv(),
        ensures
            final(self).inv(),
            final(self).tag_bytes() == old(self).tag_bytes(),
            (final(self)@, action@) == removing(keys@.skip(next as int), purged as int),
    {
        if next < keys.len() {
            let key: CacheKey = keys[next];
            self.progress = Progress::Removing { keys, next, purged };
            Action::Remove(key)
        } else {
            self.progress = Progress::Sending;
            let headers: Vec<ReplyHeader> = vec![
                ReplyHeader::PurgeSource(Source::Index),
                ReplyHeader::PurgedCount(purged),
            ];
            assert(headers@ =~= index_report(purged as int));
            Action::SendNoContent(headers)
        }
    }
}

fn finish(code: isize) -> (action: Action)
    ensures
        action@ == ActionView::Return(code, seq![]),
{
    let headers: Vec<ReplyHeader> = Vec::new();
    assert(headers@ =~= seq![]);
    Action::Return(code, headers)
}

/// Answering only `PURGE`: any other method gets `405` with an `Allow` header,
/// and nothing is looked up, removed or scanned on its account.
pub proof fn law_other_methods_touch_nothing(method: Seq<u8>, headers: Seq<HeaderView>)
    requires
        method != "PURGE".spec_bytes(),
    ensures
        purge_start(method, headers) == (
            Phase::Done,
            ActionView::Return(NOT_ALLOWED, seq![ReplyHeader::AllowPurge]),
        ),
{
}

/// A request that names no tag, or one that is too long, gets `400`, and
/// nothing is looked up, removed or scanned on its account.
pub proof fn law_no_tag_is_a_bad_request(method: Seq<u8>, headers: Seq<HeaderView>)
    requires
        method == "PURGE".spec_bytes(),
        wanted_tag(headers) is None,
    ensures
        purge_start(method, headers).1 == ActionView::DiscardBody,
        purge_step(purge_start(method, headers).0, EventView::Discarded(NGX_OK)) == (
            Phase::Done,
            ActionView::Return(BAD_REQUEST, seq![]),
        ),
{
}

/// A purge answers `404` itself only where scans are turned off and the index
/// does not hold the tag, or where a scan invalidated nothing.
pub proof fn law_not_found_is_known(phase: Phase, event: EventView)
    requires
        purge_step(phase, event).1 matches ActionView::Return(code, _) && code == NOT_FOUND,
        !(event is Discarded),
        !(event is HeaderSent),
    ensures
        phase is Looking && event == (EventView::NotIndexed { fallback: false }) || phase is Scanning
            && event is Scanned && event->purged == 0,
{
}

/// Every answer to a purge says how it was reached: from the index where the
/// index was asked last, from a scan where the directory was. An answer from a
/// scan also says how many files were visited and how many were written back.
pub proof fn law_answers_name_their_source(phase: Phase, event: EventView)
    ensures
        purge_step(phase, event).1 matches ActionView::SendNoContent(headers) ==> (
        phase is Looking || phase is Removing || phase is Scanning) && names_source(
            headers,
            phase,
            event,
        ),
        purge_step(phase, event).1 matches ActionView::Return(code, headers) ==> (code == NOT_FOUND
            && !(event is Discarded) && !(event is HeaderSent) ==> names_source(
            headers,
            phase,
            event,
        )),
{
    if let EventView::Scanned { scanned, purged, indexed } = event {
        let report = scan_report(scanned, purged, indexed);
        assert(report[0] == ReplyHeader::PurgeSource(Source::Scan));
        assert(report[2] == ReplyHeader::ScannedFiles(scanned));
        assert(report[3] == ReplyHeader::IndexedFiles(indexed));
    }
    if let ActionView::SendNoContent(headers) = purge_step(phase, event).1 {
        assert(headers[0] is PurgeSource);
        assert(headers.contains(headers[0]));
    }
    if let ActionView::Return(code, headers) = purge_step(phase, event).1 {
        if headers.len() > 0 {
            assert(headers.contains(headers[0]));
        }
    }
}

/// Whether `headers` say how the answer was reached that `event` leads to in
/// `phase`.
pub open spec fn names_source(headers: Seq<ReplyHeader>, phase: Phase, event: EventView) -> bool {
    match (phase, event) {
        (Phase::Scanning, EventView::Scanned { scanned, indexed, .. }) => {
            &&& headers.contains(ReplyHeader::PurgeSource(Source::Scan))
            &&& headers.contains(ReplyHeader::ScannedFiles(scanned))
            &&& headers.contains(ReplyHeader::IndexedFiles(indexed))
        },
        _ => headers.contains(ReplyHeader::PurgeSource(Source::Index)),
    }
}

/// What became of one entry.
pub struct Outcome {
    pub cleared: bool,
    pub unlinked: bool,
}

/// How many entries were invalidated: those whose node was cleared or whose
/// file was unlinked.
pub open spec fn invalidated(outcomes: Seq<Outcome>) -> int
    decreases outcomes.len(),
{
    if outcomes.len() == 0 {
        0
    } else {
        invalidated(outcomes.drop_last()) + if outcomes.last().cleared || outcomes.last().unlinked {
            1int
        } else {
            0int
        }
    }
}

/// Where a purge stands, and what it asks for, once the index gave `keys` and
/// the first of them had these outcomes.
pub open spec fn after_removals(keys: Seq<CacheKey>, outcomes: Seq<Outcome>) -> (Phase, ActionView)
    decreases outcomes.len(),
{
    if outcomes.len() == 0 {
        purge_step(Phase::Looking, EventView::Taken(keys))
    } else {
        purge_step(
            after_removals(keys, outcomes.drop_last()).0,
            EventView::Removed {
                cleared: outcomes.last().cleared,
                unlinked: outcomes.last().unlinked,
            },
        )
    }
}

/// A tag that the index holds has each of its entries dealt with, once and in
/// turn, and is then answered without content. The answer counts exactly the
/// entries that were invalidated.
pub proof fn law_each_key_is_removed_and_counted(keys: Seq<CacheKey>, outcomes: Seq<Outcome>)
    requires
        outcomes.len() <= keys.len(),
    ensures
        outcomes.len() < keys.len() ==> after_removals(keys, outcomes) == (
            Phase::Removing {
                keys: keys.skip(outcomes.len() as int),
                purged: invalidated(outcomes),
            },
            ActionView::Remove(keys[outcomes.len() as int]),
        ),
        outcomes.len() == keys.len() ==> after_removals(keys, outcomes) == (
            Phase::Sending,
            ActionView::SendNoContent(index_report(invalidated(outcomes))),
        ),
        0 <= invalidated(outcomes) <= outcomes.len(),
    decreases outcomes.len(),
{
    if outcomes.len() == 0 {
        assert(keys.skip(0) =~= keys);
    } else {
        law_each_key_is_removed_and_counted(keys, outcomes.drop_last());
        let done = outcomes.len() - 1;
        assert(keys.skip(done).drop_first() =~= keys.skip(done + 1));
    }
}

/// Whether a purge of a tag with these keys turns to `key` as the one at `at`,
/// whatever became of those before it.
pub open spec fn removed_at(keys: Seq<CacheKey>, at: int, key: CacheKey) -> bool {
    &&& 0 <= at < keys.len()
    &&& forall|outcomes: Seq<Outcome>|
        outcomes.len() == at ==> (#[trigger] after_removals(keys, outcomes)).1
            == ActionView::Remove(key)
}

/// Whether a purge of a tag with these keys asks for the removal of `key`.
pub open spec fn asks_for(keys: Seq<CacheKey>, key: CacheKey) -> bool {
    exists|at: int| removed_at(keys, at, key)
}

/// Purging a tag reaches every entry that the index holds under it, and is
/// then answered without content, naming the index.
pub proof fn law_held_entry_is_removed(
    entries: Seq<TagEntry>,
    tag: Seq<u8>,
    key: CacheKey,
    fallback: bool,
)
    requires
        holds(entries, tag, key),
    ensures
        looked_up(entries, tag, fallback) == EventView::Taken(keys_of(entries, tag)),
        asks_for(keys_of(entries, tag), key),
        forall|outcomes: Seq<Outcome>|
            outcomes.len() == keys_of(entries, tag).len() ==> (#[trigger] after_removals(
                keys_of(entries, tag),
                outcomes,
            )) == (Phase::Sending, ActionView::SendNoContent(index_report(invalidated(outcomes)))),
{
    let keys = keys_of(entries, tag);
    law_only_held_keys_are_asked_for(keys, key);
    assert forall|outcomes: Seq<Outcome>| outcomes.len() == keys.len() implies (
    #[trigger] after_removals(keys, outcomes)) == (
        Phase::Sending,
        ActionView::SendNoContent(index_report(invalidated(outcomes))),
    ) by {
        law_each_key_is_removed_and_counted(keys, outcomes);
    }
}

/// Purging a tag touches no other entry than those that the index holds under
/// it.
pub proof fn law_only_held_keys_are_asked_for(keys: Seq<CacheKey>, key: CacheKey)
    ensures
        asks_for(keys, key) <==> keys.contains(key),
{
    if asks_for(keys, key) {
        let at = choose|at: int| removed_at(keys, at, key);
        let outcomes = Seq::new(at as nat, |i: int| Outcome { cleared: false, unlinked: false });
        law_each_key_is_removed_and_counted(keys, outcomes);
        assert(after_removals(keys, outcomes).1 == ActionView::Remove(key));
        assert(keys[at] == key);
    }
    if keys.contains(key) {
        let at = choose|i: int| 0 <= i < keys.len() && keys[i] == key;
        assert forall|outcomes: Seq<Outcome>| outcomes.len() == at implies (
        #[trigger] after_removals(keys, outcomes)).1 == ActionView::Remove(key) by {
            law_each_key_is_removed_and_counted(keys, outcomes);
        }
        assert(removed_at(keys, at, key));
    }
}

/// Losing a whole tag costs a scan: a tag that the index does not hold, never
/// recorded or evicted since, is looked for in the directory unless scans are
/// turned off.
pub proof fn law_tag_not_held_is_scanned(entries: Seq<TagEntry>, tag: Seq<u8>)
    requires
        !has_tag(entries, tag),
    ensures
        purge_step(Phase::Looking, looked_up(entries, tag, true)) == (
            Phase::Scanning,
            ActionView::Scan,
        ),
{
}

/// The tag is the value of the first `xkey-purge` header that has one. It is
/// what the purge is for where it has at most 256 bytes; where there is none,
/// or it is longer, the purge is for no tag.
pub proof fn law_first_tag_header_counts(headers: Seq<HeaderView>, i: int)
    requires
        0 <= i <= headers.len(),
        forall|j: int|
            0 <= j < i ==> !same_name((#[trigger] headers[j]).name, "xkey-purge".spec_bytes())
                || headers[j].value.len() == 0,
        i < headers.len() ==> same_name(headers[i].name, "xkey-purge".spec_bytes())
            && headers[i].value.len() > 0,
    ensures
        i < headers.len() ==> named_tag(headers) == Some(headers[i].value),
        i < headers.len() && headers[i].value.len() <= 256 ==> wanted_tag(headers) == Some(
            headers[i].value,
        ),
        i < headers.len() && headers[i].value.len() > 256 ==> wanted_tag(headers) is None,
        i == headers.len() ==> named_tag(headers) is None && wanted_tag(headers) is None,
{
    law_first_header_counts(headers, "xkey-purge".spec_bytes(), false, i);
}

/// A purge discards the request's body and then takes the tag, if it has one.
/// A body that cannot be discarded ends it with the code that came back, and a
/// missing tag with `400`.
pub proof fn law_purge_discards_then_takes(
    headers: Seq<HeaderView>,
    tag: Option<Seq<u8>>,
    rc: isize,
)
    ensures
        purge_start("PURGE".spec_bytes(), headers) == (
            Phase::Discarding(wanted_tag(headers)),
            ActionView::DiscardBody,
        ),
        rc != 0 ==> purge_step(Phase::Discarding(tag), EventView::Discarded(rc)) == (
            Phase::Done,
            ActionView::Return(rc, Seq::empty()),
        ),
        rc == 0 && tag is Some ==> purge_step(Phase::Discarding(tag), EventView::Discarded(rc)) == (
            Phase::Looking,
            ActionView::TakeTag,
        ),
        rc == 0 && tag is None ==> purge_step(Phase::Discarding(tag), EventView::Discarded(rc)) == (
            Phase::Done,
            ActionView::Return(400, Seq::empty()),
        ),
{
}

/// A method other than `PURGE` gets `405` and the `Allow` header, and the purge
/// is over.
pub proof fn law_other_methods_get_405(method: Seq<u8>, headers: Seq<HeaderView>)
    requires
        method != "PURGE".spec_bytes(),
    ensures
        purge_start(method, headers).0 == Phase::Done,
        purge_start(method, headers).1 matches ActionView::Return(code, added) && code == 405
            && added == seq![ReplyHeader::AllowPurge],
{
}

/// Looking a tag up finds the keys of the entry that is for it. The first of
/// them is removed next, and without any the answer is sent at once.
pub proof fn law_look_up_finds_the_entry(
    entries: Seq<TagEntry>,
    tag: Seq<u8>,
    fallback: bool,
    i: int,
)
    requires
        0 <= i < entries.len(),
        entries[i].tag == tag,
        forall|j: int| 0 <= j < entries.len() && j != i ==> (#[trigger] entries[j]).tag != tag,
    ensures
        looked_up(entries, tag, fallback) == EventView::Taken(entries[i].keys),
        entries[i].keys.len() > 0 ==> purge_step(
            Phase::Looking,
            looked_up(entries, tag, fallback),
        ).1 == ActionView::Remove(entries[i].keys[0]),
        entries[i].keys.len() == 0 ==> purge_step(
            Phase::Looking,
            looked_up(entries, tag, fallback),
        ).1 is SendNoContent,
{
    law_tag_is_found_by_its_bytes(entries, tag, i);
}

/// A tag that no entry is for is scanned for exactly where the fallback is on.
/// With the fallback off no directory is walked: the purge is over with `404`,
/// naming the index.
pub proof fn law_missing_tag_obeys_the_fallback(
    entries: Seq<TagEntry>,
    tag: Seq<u8>,
    fallback: bool,
)
    requires
        forall|j: int| 0 <= j < entries.len() ==> (#[trigger] entries[j]).tag != tag,
    ensures
        fallback ==> purge_step(Phase::Looking, looked_up(entries, tag, fallback)) == (
            Phase::Scanning,
            ActionView::Scan,
        ),
        !fallback ==> purge_step(Phase::Looking, looked_up(entries, tag, fallback)) == (
            Phase::Done,
            ActionView::Return(404, seq![ReplyHeader::PurgeSource(Source::Index)]),
        ),
{
    law_tag_is_found_by_its_bytes(entries, tag, -1);
}

/// An answer after a scan carries each number of the scan under its own name,
/// whatever the other two are, and no other number under it, and names the
/// scan as its source. It is `404` where nothing was purged, and one without
/// content where anything was.
pub proof fn law_scan_answer_carries_its_numbers(
    scanned: usize,
    purged: usize,
    indexed: usize,
    headers: Seq<ReplyHeader>,
)
    requires
        ({
            let next = purge_step(
                Phase::Scanning,
                (EventView::Scanned { scanned, purged, indexed }),
            ).1;
            next == ActionView::SendNoContent(headers) || next == ActionView::Return(404, headers)
        }),
    ensures
        forall|n: usize|
            #[trigger] headers.contains(ReplyHeader::PurgedCount(n)) <==> n == purged,
        forall|n: usize|
            #[trigger] headers.contains(ReplyHeader::ScannedFiles(n)) <==> n == scanned,
        forall|n: usize|
            #[trigger] headers.contains(ReplyHeader::IndexedFiles(n)) <==> n == indexed,
        forall|source: Source|
            #[trigger] headers.contains(ReplyHeader::PurgeSource(source)) <==> source
                == Source::Scan,
{
    assert(headers.len() == 4);
    assert(headers[0] == ReplyHeader::PurgeSource(Source::Scan));
    assert(headers[1] == ReplyHeader::PurgedCount(purged));
    assert(headers[2] == ReplyHeader::ScannedFiles(scanned));
    assert(headers[3] == ReplyHeader::IndexedFiles(indexed));
}

/// A scan is answered `404` where it purged nothing, and without content where
/// it purged anything, however much it visited or wrote back.
pub proof fn law_scan_is_answered_by_what_it_purged(scanned: usize, purged: usize, indexed: usize)
    ensures
        ({
            let (phase, next) = purge_step(
                Phase::Scanning,
                (EventView::Scanned { scanned, purged, indexed }),
            );
            &&& purged == 0 ==> phase == Phase::Done && (next matches ActionView::Return(code, _)
                && code == 404)
            &&& purged > 0 ==> phase == Phase::Sending && next is SendNoContent
                && next.status_code() == Some(204isize)
        }),
{
}

proof fn lemma_invalidated_is_a_count(outcomes: Seq<Outcome>)
    ensures
        invalidated(outcomes) == outcomes.filter(|o: Outcome| o.cleared || o.unlinked).len(),
    decreases outcomes.len(),
{
    reveal(Seq::filter);
    if outcomes.len() > 0 {
        lemma_invalidated_is_a_count(outcomes.drop_last());
    }
}

/// The answer from the index carries the number of entries whose node was
/// cleared or whose file was unlinked, and no other number, names the index as
/// its source, and has no content. It comes once every key has been dealt
/// with.
pub proof fn law_index_answer_carries_its_number(keys: Seq<CacheKey>, outcomes: Seq<Outcome>)
    requires
        outcomes.len() == keys.len(),
        keys.len() <= usize::MAX,
    ensures
        ({
            let (phase, next) = after_removals(keys, outcomes);
            let count = outcomes.filter(|o: Outcome| o.cleared || o.unlinked).len();
            &&& phase == Phase::Sending
            &&& next.status_code() == Some(204isize)
            &&& next matches ActionView::SendNoContent(headers)
            &&& forall|n: usize|
                #[trigger] headers.contains(ReplyHeader::PurgedCount(n)) <==> n == count
            &&& forall|source: Source|
                #[trigger] headers.contains(ReplyHeader::PurgeSource(source)) <==> source
                    == Source::Index
            &&& headers.len() == 2
        }),
{
    law_each_key_is_removed_and_counted(keys, outcomes);
    lemma_invalidated_is_a_count(outcomes);
    let headers = index_report(invalidated(outcomes));
    assert(headers[0] == ReplyHeader::PurgeSource(Source::Index));
    assert(headers[1] == ReplyHeader::PurgedCount(invalidated(outcomes) as usize));
}

/// Once the header was sent the purge is over: with the code that came back
/// where that is a failure, and with success otherwise. Only an answer without
/// content has its header sent.
pub proof fn law_purge_ends_when_the_header_is_sent(rc: isize, action: ActionView)
    ensures
        rc > 0 || rc == -1 ==> purge_step(Phase::Sending, EventView::HeaderSent(rc)) == (
            Phase::Done,
            ActionView::Return(rc, Seq::empty()),
        ),
        rc == 0 || rc < -1 ==> purge_step(Phase::Sending, EventView::HeaderSent(rc)) == (
            Phase::Done,
            ActionView::Return(0, Seq::empty()),
        ),
        action.status_code() == if action is SendNoContent {
            Some(204isize)
        } else {
            None
        },
{
}

/// Whatever does not answer what was asked for last ends the purge in an error:
/// nothing is then looked up, removed, scanned or sent.
pub proof fn law_anything_else_is_an_error(phase: Phase, event: EventView)
    requires
        !(phase is Discarding && event is Discarded),
        !(phase is Looking && (event is Taken || event is NotIndexed)),
        !(phase is Removing && event is Removed),
        !(phase is Scanning && event is Scanned),
        !(phase is Sending && event is HeaderSent),
    ensures
        purge_step(phase, event) == (Phase::Done, ActionView::Return((-1) as isize, Seq::empty())),
{
}

/// Every event is seen with the values it brings.
pub proof fn law_events_are_seen_as_they_are(
    rc: isize,
    keys: Vec<CacheKey>,
    fallback: bool,
    cleared: bool,
    unlinked: bool,
    scanned: usize,
    purged: usize,
    indexed: usize,
)
    ensures
        Event::Discarded(rc)@ == EventView::Discarded(rc),
        Event::Taken(keys)@ == EventView::Taken(keys@),
        (Event::NotIndexed { fallback })@ == (EventView::NotIndexed { fallback }),
        (Event::Removed { cleared, unlinked })@ == (EventView::Removed { cleared, unlinked }),
        (Event::Scanned { scanned, purged, indexed })@ == (EventView::Scanned {
            scanned,
            purged,
            indexed,
        }),
        Event::HeaderSent(rc)@ == EventView::HeaderSent(rc),
        Event::Failed@ == EventView::Failed,
{
}

/// Every action is seen with the values it has.
pub proof fn law_actions_are_seen_as_they_are(
    key: CacheKey,
    code: isize,
    headers: Vec<ReplyHeader>,
)
    ensures
        Action::DiscardBody@ == ActionView::DiscardBody,
        Action::TakeTag@ == ActionView::TakeTag,
        Action::Remove(key)@ == ActionView::Remove(key),
        Action::Scan@ == ActionView::Scan,
        Action::SendNoContent(headers)@ == ActionView::SendNoContent(headers@),
        Action::Return(code, headers)@ == ActionView::Return(code, headers@),
{
}

} // verus!
