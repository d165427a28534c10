//! Fallback scan of the cache directory.
//!
//! The tag index is an accelerator, not the record. The authoritative copy of
//! an entry's tags is the response header block NGINX stores inside the cache
//! file itself. When the index cannot answer, every file of the cache
//! directory is visited and that block is read, which is slow but always
//! correct.

use vstd::prelude::*;

use crate::cache_key::{key_from_path, named_key, CacheKey};
use crate::header::{
    find_header, is_blank, law_stored_header_is_found, law_trimming_keeps_the_tags, same_name,
    stored_value,
};
use crate::index::TagIndex;
use crate::record::{record_tags, recorded_all};
use crate::store::TagStore;
use crate::tags::{
    is_listed, law_listed_tags_are_the_stored_tags, law_outer_separators_are_harmless,
    listed_tags, split_tags, tags_of,
};
use crate::text::contents;

verus! {

/// Largest stored header block, bounded by the start of the body being a
/// 16-bit number.
pub const MAX_HEADER_BLOCK: usize = 65535;

/// State carried through a walk of one cache directory.
pub struct Scan<'a> {
    /// The tag being purged.
    pub tag: &'a [u8],
    /// Name of the header the tags are stored under.
    pub header: &'a [u8],
    /// Files visited.
    pub scanned: usize,
    /// Entries invalidated.
    pub purged: usize,
    /// Files whose tags were written back into the index.
    pub indexed: usize,
}

/// What a scan has counted.
#[verifier::ext_equal]
pub struct Tally {
    pub scanned: int,
    pub purged: int,
    pub indexed: int,
}

impl Tally {
    /// One more file visited.
    pub open spec fn entered(self) -> Tally {
        Tally { scanned: self.scanned + 1, ..self }
    }

    /// One more file that was to go: it counts if its node was cleared or it
    /// was unlinked.
    pub open spec fn removed(self, cleared: bool, unlinked: bool) -> Tally {
        if cleared || unlinked {
            Tally { purged: self.purged + 1, ..self }
        } else {
            self
        }
    }

    /// One more file that stays, `written` of whose tags were written back: it
    /// counts if any was.
    pub open spec fn kept(self, written: int) -> Tally {
        if written > 0 {
            Tally { indexed: self.indexed + 1, ..self }
        } else {
            self
        }
    }
}

/// What is to become of a file.
#[verifier::ext_equal]
pub enum Fate {
    /// It carries no tag header and stays as it is.
    Untagged,
    /// It carries the tag being purged and goes.
    Purge,
    /// It carries these tags only and stays.
    Keep(Seq<Seq<u8>>),
}

/// What is to become of a file with this stored header block.
pub open spec fn fate(block: Seq<u8>, header: Seq<u8>, tag: Seq<u8>) -> Fate {
    match stored_value(block, header) {
        None => Fate::Untagged,
        Some(value) => if tags_of(value).contains(tag) {
            Fate::Purge
        } else {
            Fate::Keep(tags_of(value))
        },
    }
}

/// What becomes of a file whose header block was read.
pub enum Verdict<'b> {
    /// It carries no tag header and stays as it is.
    Untagged,
    /// It carries the tag being purged and goes.
    Purge,
    /// It carries these tags only and stays.
    Keep(Vec<&'b [u8]>),
}

impl<'b> View for Verdict<'b> {
    type V = Fate;

    open spec fn view(&self) -> Fate {
        match self {
            Verdict::Untagged => Fate::Untagged,
            Verdict::Purge => Fate::Purge,
            Verdict::Keep(tags) => Fate::Keep(contents(tags@)),
        }
    }
}

impl<'a> Scan<'a> {
    pub open spec fn tally(&self) -> Tally {
        Tally {
            scanned: self.scanned as int,
            purged: self.purged as int,
            indexed: self.indexed as int,
        }
    }

    /// Whether the scan is for the same as `other`.
    pub open spec fn same_quest(&self, other: &Self) -> bool {
        self.tag == other.tag && self.header == other.header
    }

    /// A scan that has visited nothing yet.
    pub fn new(tag: &'a [u8], header: &'a [u8]) -> (scan: Self)
        ensures
            scan == (Scan { tag, header, scanned: 0, purged: 0, indexed: 0 }),
    {
        Scan { tag, header, scanned: 0, purged: 0, indexed: 0 }
    }

    /// Visits the file at `path`. Returns the key it is stored under, or
    /// `None` if it is not a finished cache file and is passed over.
    pub fn enter(&mut self, path: &[u8]) -> (key: Option<CacheKey>)
        requires
            old(self).scanned < usize::MAX,
        ensures
            final(self).same_quest(old(self)),
            final(self).tally() == old(self).tally().entered(),
            key is Some <==> named_key(path@) is Some,
            key matches Some(k) ==> named_key(path@) == Some(k@),
    {
        self.scanned += 1;
        key_from_path(path)
    }

    /// Decides what becomes of a file by its stored header block.
    pub fn judge<'b>(&self, block: &'b [u8]) -> (verdict: Verdict<'b>)
        ensures
            verdict@ == fate(block@, self.header@, self.tag@),
    {
        match find_header(block, self.header) {
            None => Verdict::Untagged,
            Some(value) => {
                let tags: Vec<&'b [u8]> = split_tags(value);
                if is_listed(&tags, self.tag) {
                    Verdict::Purge
                } else {
                    Verdict::Keep(tags)
                }
            },
        }
    }

    /// Counts a file that was to go.
    ///
    /// On the scan path the file is the record, so removing it is what counts
    /// as a purge. Clearing the node in the cache tree is best-effort: right
    /// after a restart the cache loader may not have added it yet. Either of
    /// the two counts.
    pub fn removed(&mut self, cleared: bool, unlinked: bool)
        requires
            old(self).purged < usize::MAX,
        ensures
            final(self).same_quest(old(self)),
            final(self).tally() == old(self).tally().removed(cleared, unlinked),
    {
        if cleared || unlinked {
            self.purged += 1;
        }
    }

    /// Writes the tags of a file that stays back into the index, and counts
    /// the file if any was written. Returns how many were.
    ///
    /// A scan reads every file's tags anyway; writing them back is what stops
    /// the next purge from having to scan again. A full index is not a scan
    /// failure: what this scan answers is right without it. Writing stops at
    /// the first tag that the index refuses.
    pub fn kept<S: TagStore>(
        &mut self,
        index: &mut TagIndex<S>,
        tags: &Vec<&[u8]>,
        key: &CacheKey,
    ) -> (written: usize)
        requires
            old(self).indexed < usize::MAX,
            old(index).inv(),
        ensures
            final(index).inv(),
            recorded_all(old(index)@, contents(tags@), *key, final(index)@, written as int),
            final(self).same_quest(old(self)),
            final(self).tally() == old(self).tally().kept(written as int),
    {
        let written: usize = record_tags(index, tags, key);
        if written > 0 {
            self.indexed += 1;
        }
        written
    }
}

/// What is read of a cache file's own header.
pub struct FileHeader {
    /// Version of the file format.
    pub version: usize,
    /// Where the stored header block starts.
    pub header_start: u16,
    /// Where the body starts, and the block ends.
    pub body_start: u16,
}

/// A part of a file.
#[derive(Clone, Copy, Debug, PartialEq, Eq)]
pub struct Extent {
    pub start: usize,
    pub len: usize,
}

/// Where the stored header block of a cache file is.
pub open spec fn block_extent(
    read: int,
    size: int,
    header: FileHeader,
    version: u32,
    room: int,
) -> Option<Extent> {
    if read == size && header.version as u32 == version && header.header_start
        < header.body_start <= header.header_start + room {
        Some(
            Extent {
                start: header.header_start as usize,
                len: (header.body_start - header.header_start) as usize,
            },
        )
    } else {
        None
    }
}

/// Decides where the stored header block of a cache file is.
///
/// `read` is what came of reading the `size` bytes of the file's own header,
/// `version` the file format in use, and `room` what a block may take. There
/// is none in a file that is cut short, of another version, or whose block is
/// empty or does not fit.
pub fn header_block(
    read: isize,
    size: usize,
    header: &FileHeader,
    version: u32,
    room: usize,
) -> (block: Option<Extent>)
    ensures
        block == block_extent(read as int, size as int, *header, version, room as int),
        block == if read == size && header.version as u32 == version && header.header_start
            < header.body_start <= header.header_start + room {
            Some(
                Extent {
                    start: header.header_start as usize,
                    len: (header.body_start - header.header_start) as usize,
                },
            )
        } else {
            None
        },
{
    if read < 0 || read as usize != size || header.version as u32 != version {
        return None;
    }
    let start: usize = header.header_start as usize;
    let end: usize = header.body_start as usize;
    if end <= start || end - start > room {
        return None;
    }
    Some(Extent { start, len: end - start })
}

/// The block is all that stands between the file's own header fields and its
/// body: where the file's header was read whole and is of the version in use,
/// it starts where the header says and ends where the body starts, and there
/// is one exactly where that is not empty and fits.
pub proof fn law_block_ends_where_the_body_starts(
    size: int,
    header: FileHeader,
    version: u32,
    room: int,
)
    requires
        header.version as u32 == version,
    ensures
        header.body_start <= header.header_start ==> block_extent(
            size,
            size,
            header,
            version,
            room,
        ) is None,
        header.body_start - header.header_start > room ==> block_extent(
            size,
            size,
            header,
            version,
            room,
        ) is None,
        header.header_start < header.body_start && header.body_start - header.header_start <= room
            ==> {
            &&& block_extent(size, size, header, version, room) matches Some(block)
            &&& block.start == header.header_start
            &&& block.start + block.len == header.body_start
        },
{
}

/// A file whose own header was not read whole, or is of another version, has
/// no block.
pub proof fn law_unreadable_file_has_no_block(
    read: int,
    size: int,
    header: FileHeader,
    version: u32,
    room: int,
)
    requires
        read != size || header.version as u32 != version,
    ensures
        block_extent(read, size, header, version, room) is None,
{
}

/// The room that is set aside holds any block: none is refused for its size.
pub proof fn law_room_holds_any_block(size: int, header: FileHeader)
    requires
        header.header_start < header.body_start,
    ensures
        block_extent(
            size,
            size,
            header,
            header.version as u32,
            MAX_HEADER_BLOCK as int,
        ) is Some,
{
}

/// What a block that was asked for occupies, given what came of reading it.
pub open spec fn block_read(read: int, len: usize) -> Option<usize> {
    if read == len {
        Some(len)
    } else {
        None
    }
}

/// A block counts where every byte of it was read, and then whole.
pub proof fn law_block_is_read_whole_or_not_at_all(read: int, len: usize)
    ensures
        block_read(read, len) is Some <==> read == len,
        block_read(read, len) matches Some(got) ==> got == read,
{
}

/// How many bytes of the buffer a block of `len` bytes occupies, given what
/// came of reading it: none unless it was read whole.
pub fn block_len(read: isize, len: usize) -> (got: Option<usize>)
    ensures
        got == block_read(read as int, len),
        got == if read == len {
            Some(len)
        } else {
            None
        },
{
    if read >= 0 && read as usize == len {
        Some(len)
    } else {
        None
    }
}

/// A scan reads the tags that the response was recorded under: where the
/// header line of a stored block has the value that the response was sent
/// with, give or take the blanks around it, its tags are those of the value. So
/// a scan for any of them has the file go, and a scan for any other tag keeps
/// it, with all of them to write back.
pub proof fn law_scan_reads_the_recorded_tags(
    head: Seq<u8>,
    spelling: Seq<u8>,
    before: Seq<u8>,
    value: Seq<u8>,
    after: Seq<u8>,
    rest: Seq<u8>,
    name: Seq<u8>,
)
    requires
        stored_value(head, name) is None,
        same_name(spelling, name),
        !spelling.contains('\n' as u8),
        !value.contains('\r' as u8),
        !value.contains('\n' as u8),
        forall|i: int| 0 <= i < before.len() ==> is_blank(#[trigger] before[i]),
        forall|i: int| 0 <= i < after.len() ==> is_blank(#[trigger] after[i]),
    ensures
        ({
            let line = spelling.push(':' as u8) + (before + value + after);
            let block = head.push('\n' as u8) + line.push('\n' as u8) + rest;
            &&& stored_value(block, name) matches Some(stored)
            &&& tags_of(stored) == listed_tags(value)
            &&& forall|tag: Seq<u8>|
                #[trigger] fate(block, name, tag) == if listed_tags(value).contains(tag) {
                    Fate::Purge
                } else {
                    Fate::Keep(listed_tags(value))
                }
        }),
{
    let padded = before + value + after;
    assert(!padded.contains('\n' as u8)) by {
        if padded.contains('\n' as u8) {
            let i = choose|i: int| 0 <= i < padded.len() && padded[i] == '\n' as u8;
            if i < before.len() {
                assert(is_blank(before[i]));
            } else if i < before.len() + value.len() {
                assert(value[i - before.len()] == '\n' as u8);
            } else {
                assert(is_blank(after[i - before.len() - value.len()]));
            }
        }
    }
    law_stored_header_is_found(head, spelling, padded, rest, name);
    law_trimming_keeps_the_tags(padded);
    law_outer_separators_are_harmless(before, value, after);
    law_listed_tags_are_the_stored_tags(value);
}

/// One file as a scan comes across it.
pub struct Visit {
    pub path: Seq<u8>,
    /// The key it is stored under, if it is a finished cache file.
    pub key: CacheKey,
    /// Its stored header block, if it could be read.
    pub block: Option<Seq<u8>>,
    /// If it was to go, whether its node was cleared.
    pub cleared: bool,
    /// If it was to go, whether it was unlinked.
    pub unlinked: bool,
    /// If it was to stay, how many of its tags were written back.
    pub written: int,
}

impl Visit {
    /// Whether the file is the cache file of its key, and its stored header
    /// lists `tag`.
    pub open spec fn lists(self, header: Seq<u8>, tag: Seq<u8>) -> bool {
        &&& named_key(self.path) == Some(self.key@)
        &&& self.block matches Some(block)
        &&& stored_value(block, header) matches Some(value)
        &&& tags_of(value).contains(tag)
    }

    /// What is to become of the file. One that is not a finished cache file,
    /// or that cannot be read, is passed over.
    pub open spec fn fate(self, header: Seq<u8>, tag: Seq<u8>) -> Fate {
        match (named_key(self.path), self.block) {
            (Some(_), Some(block)) => fate(block, header, tag),
            _ => Fate::Untagged,
        }
    }

    /// Whether the file carried the tag and was removed.
    pub open spec fn purged(self, header: Seq<u8>, tag: Seq<u8>) -> bool {
        self.fate(header, tag) is Purge && (self.cleared || self.unlinked)
    }

    /// Whether the file stayed and was written back into the index.
    pub open spec fn indexed(self, header: Seq<u8>, tag: Seq<u8>) -> bool {
        self.fate(header, tag) is Keep && self.written > 0
    }
}

/// What a scan has counted after these visits, each of which it enters, and
/// then removes or keeps as its fate is.
pub open spec fn tally_of(visits: Seq<Visit>, header: Seq<u8>, tag: Seq<u8>) -> Tally
    decreases visits.len(),
{
    if visits.len() == 0 {
        Tally { scanned: 0, purged: 0, indexed: 0 }
    } else {
        let entered = tally_of(visits.drop_last(), header, tag).entered();
        let visit = visits.last();
        match visit.fate(header, tag) {
            Fate::Untagged => entered,
            Fate::Purge => entered.removed(visit.cleared, visit.unlinked),
            Fate::Keep(_) => entered.kept(visit.written),
        }
    }
}

/// The three numbers that a scan reports are how many files it visited, how
/// many of them carried the tag and were removed, and how many stayed and were
/// written back.
pub proof fn law_scan_counts_what_it_did(visits: Seq<Visit>, header: Seq<u8>, tag: Seq<u8>)
    ensures
        ({
            let tally = tally_of(visits, header, tag);
            &&& tally.scanned == visits.len()
            &&& tally.purged == visits.filter(|v: Visit| v.purged(header, tag)).len()
            &&& tally.indexed == visits.filter(|v: Visit| v.indexed(header, tag)).len()
            &&& tally.purged + tally.indexed <= tally.scanned
        }),
    decreases visits.len(),
{
    reveal(Seq::filter);
    if visits.len() > 0 {
        law_scan_counts_what_it_did(visits.drop_last(), header, tag);
    }
}

/// A file is passed over exactly where it stores no value for the header, goes
/// exactly where the tag is among those of the value, and stays with all its
/// tags otherwise.
pub proof fn law_file_goes_by_its_stored_tags(
    block: Seq<u8>,
    header: Seq<u8>,
    tag: Seq<u8>,
    i: int,
)
    ensures
        stored_value(block, header) is None <==> fate(block, header, tag) is Untagged,
        stored_value(block, header) matches Some(value) ==> {
            &&& 0 <= i < tags_of(value).len() && tags_of(value)[i] == tag ==> fate(
                block,
                header,
                tag,
            ) is Purge
            &&& fate(block, header, tag) is Purge ==> tags_of(value).contains(tag)
            &&& fate(block, header, tag) matches Fate::Keep(tags) ==> tags == tags_of(value)
                && !tags.contains(tag)
        },
{
}

/// Each file counts once as visited. One that was to go counts as purged where
/// its node was cleared or it was unlinked, and one that stays counts as
/// written back where at least one of its tags was; each raises its own number
/// by one and no other.
pub proof fn law_each_file_counts_once(tally: Tally, cleared: bool, unlinked: bool, written: int)
    ensures
        tally.entered().scanned == tally.scanned + 1,
        tally.entered().purged == tally.purged && tally.entered().indexed == tally.indexed,
        cleared ==> tally.removed(cleared, unlinked).purged == tally.purged + 1,
        unlinked ==> tally.removed(cleared, unlinked).purged == tally.purged + 1,
        !cleared && !unlinked ==> tally.removed(cleared, unlinked).purged == tally.purged,
        tally.removed(cleared, unlinked).scanned == tally.scanned,
        tally.removed(cleared, unlinked).indexed == tally.indexed,
        written >= 1 ==> tally.kept(written).indexed == tally.indexed + 1,
        written == 0 ==> tally.kept(written).indexed == tally.indexed,
        tally.kept(written).scanned == tally.scanned,
        tally.kept(written).purged == tally.purged,
{
}

/// What a scan counts is what its own numbers say.
pub proof fn law_tally_is_the_three_numbers(scan: Scan)
    ensures
        scan.tally().scanned == scan.scanned,
        scan.tally().purged == scan.purged,
        scan.tally().indexed == scan.indexed,
{
}

/// Over a whole scan, the number of purged entries is that of the files that
/// are cache files, could be read, list the tag and were cleared or unlinked.
pub proof fn law_scan_purges_the_files_that_list_the_tag(
    visits: Seq<Visit>,
    header: Seq<u8>,
    tag: Seq<u8>,
)
    ensures
        tally_of(visits, header, tag).purged == visits.filter(
            |v: Visit|
                {
                    &&& named_key(v.path) is Some
                    &&& v.block is Some
                    &&& stored_value(v.block->0, header) is Some
                    &&& tags_of(stored_value(v.block->0, header)->0).contains(tag)
                    &&& v.cleared || v.unlinked
                },
        ).len(),
    decreases visits.len(),
{
    reveal(Seq::filter);
    if visits.len() > 0 {
        law_scan_purges_the_files_that_list_the_tag(visits.drop_last(), header, tag);
    }
}

/// A verdict is seen as it is, with the tags it has.
pub proof fn law_verdicts_are_seen_as_they_are(tags: Vec<&[u8]>, i: int)
    ensures
        Verdict::Untagged@ == Fate::Untagged,
        Verdict::Purge@ == Fate::Purge,
        Verdict::Keep(tags)@ is Keep,
        (Verdict::Keep(tags)@->Keep_0).len() == tags@.len(),
        0 <= i < tags@.len() ==> (Verdict::Keep(tags)@->Keep_0)[i] == tags@[i]@,
{
}

/// A scan is for the same where its tag and its header are the same.
pub proof fn law_same_quest_is_the_same_tag_and_header(a: Scan, b: Scan)
    ensures
        a.same_quest(&b) <==> a.tag == b.tag && a.header == b.header,
{
}

} // verus!
