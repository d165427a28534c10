//! The status endpoint: what the index holds and what it had to discard.
//!
//! Without this, a zone that is too small degrades quietly: purges keep
//! working, because the scan is authoritative, but they get slower and slower
//! and nothing says why.

use vstd::arithmetic::div_mod::{lemma_fundamental_div_mod, lemma_mod_bound};
use vstd::arithmetic::power::pow;
use vstd::prelude::*;
use vstd::string::StringSliceAdditionalSpecFns;

use crate::decimal::{decimal, lemma_decimal_len, push_decimal};
use crate::index::TagIndex;
use crate::model::{total_keys, MAX_KEYS_PER_TAG};
use crate::reply::{ReplyHeader, NGX_ERROR, NGX_OK, NOT_ALLOWED, OK};
use crate::store::TagStore;

verus! {

/// Room that is set aside for a document.
pub const MAX_DOCUMENT: usize = 512;

/// The methods that a status endpoint tells apart.
#[derive(Clone, Copy, Debug, PartialEq, Eq)]
pub enum Method {
    Get,
    Head,
    Other,
}

/// What happened outside while a status request is served.
#[derive(Clone, Copy, Debug, PartialEq, Eq)]
pub enum StatusEvent {
    /// The request came in.
    Asked(Method),
    /// Discarding its body returned this code.
    Discarded(isize),
    /// The document is ready.
    Rendered,
    /// It cannot be had: a configuration, the index or memory is missing.
    Unavailable,
    /// Sending the header returned this code; whether the answer ends there.
    HeaderSent { rc: isize, header_only: bool },
    /// Sending the body returned this code.
    BodySent(isize),
}

/// What is to be done next.
#[derive(Clone, Copy, Debug, PartialEq, Eq)]
pub enum StatusAction {
    /// Add this header and return this code: the request is over.
    Refuse(isize, ReplyHeader),
    /// Discard the request's body.
    DiscardBody,
    /// Render the document.
    Render,
    /// Send the header of an answer with this code, the length of the
    /// document and this header.
    SendHeader(isize, ReplyHeader),
    /// Send the document.
    SendBody,
    /// Return this code: the request is over.
    Return(isize),
}

/// What follows after `event`.
pub open spec fn status_step(event: StatusEvent) -> StatusAction {
    match event {
        StatusEvent::Asked(Method::Other) => StatusAction::Refuse(
            NOT_ALLOWED,
            ReplyHeader::AllowRead,
        ),
        StatusEvent::Asked(_) => StatusAction::DiscardBody,
        StatusEvent::Discarded(rc) => if rc == NGX_OK {
            StatusAction::Render
        } else {
            StatusAction::Return(rc)
        },
        StatusEvent::Rendered => StatusAction::SendHeader(OK, ReplyHeader::JsonContent),
        StatusEvent::Unavailable => StatusAction::Return(NGX_ERROR),
        StatusEvent::HeaderSent { rc, header_only } => if rc == NGX_ERROR || rc > NGX_OK
            || header_only {
            StatusAction::Return(rc)
        } else {
            StatusAction::SendBody
        },
        StatusEvent::BodySent(rc) => StatusAction::Return(rc),
    }
}

/// Decides what follows after `event`.
pub fn status_next(event: StatusEvent) -> (action: StatusAction)
    ensures
        action == status_step(event),
{
    match event {
        StatusEvent::Asked(method) => match method {
            Method::Get => StatusAction::DiscardBody,
            Method::Head => StatusAction::DiscardBody,
            Method::Other => StatusAction::Refuse(NOT_ALLOWED, ReplyHeader::AllowRead),
        },
        StatusEvent::Discarded(rc) => if rc != NGX_OK {
            StatusAction::Return(rc)
        } else {
            StatusAction::Render
        },
        StatusEvent::Rendered => StatusAction::SendHeader(OK, ReplyHeader::JsonContent),
        StatusEvent::Unavailable => StatusAction::Return(NGX_ERROR),
        StatusEvent::HeaderSent { rc, header_only } => if rc == NGX_ERROR || rc > NGX_OK
            || header_only {
            StatusAction::Return(rc)
        } else {
            StatusAction::SendBody
        },
        StatusEvent::BodySent(rc) => StatusAction::Return(rc),
    }
}

/// A status endpoint answers `GET` and `HEAD` only. Any other method gets
/// `405` with an `Allow` header, and nothing is read on its account.
pub proof fn law_only_reading_methods_are_answered(method: Method)
    ensures
        status_step(StatusEvent::Asked(method)) == if method is Get || method is Head {
            StatusAction::DiscardBody
        } else {
            StatusAction::Refuse(NOT_ALLOWED, ReplyHeader::AllowRead)
        },
{
}

/// The zone that an index lives in.
#[derive(Clone, Copy, Debug, PartialEq, Eq)]
pub struct ZoneState {
    /// Its size in bytes.
    pub size: usize,
    /// Where the region starts that its pages are carved from.
    pub start: usize,
    /// Where that region ends.
    pub end: usize,
    /// The size of a page.
    pub page_size: usize,
    /// Pages that are left.
    pub pages_free: usize,
}

impl ZoneState {
    pub open spec fn inv(&self) -> bool {
        self.start <= self.end && self.page_size > 0
    }

    pub open spec fn pages(&self) -> nat {
        ((self.end - self.start) / self.page_size as int) as nat
    }
}

/// What an index counts.
#[derive(Clone, Copy, Debug, PartialEq, Eq)]
pub struct Counters {
    pub tags: usize,
    pub keys: usize,
    pub evicted: u64,
    pub dropped: u64,
}

/// What `index` holds and what it has discarded.
pub fn counters<S: TagStore>(index: &TagIndex<S>) -> (counters: Counters)
    requires
        index.inv(),
    ensures
        counters.tags == index@.entries.len(),
        counters.keys == total_keys(index@.entries),
        counters.evicted == index@.evicted,
        counters.dropped == index@.dropped,
{
    Counters { tags: index.tags, keys: index.keys, evicted: index.evicted, dropped: index.dropped }
}

/// A number with the text before it.
pub open spec fn field(text: &str, n: nat) -> Seq<u8> {
    text.spec_bytes() + decimal(n)
}

/// The part of the document on the zone.
pub open spec fn zone_part(zone: ZoneState) -> Seq<u8> {
    field("{\"configured\":true,\"zone\":{\"size\":", zone.size as nat) + field(
        ",\"pages_total\":",
        zone.pages(),
    ) + field(",\"pages_free\":", zone.pages_free as nat)
}

/// The part of the document on the index.
pub open spec fn index_part(counters: Counters) -> Seq<u8> {
    field("},\"index\":{\"tags\":", counters.tags as nat) + field(
        ",\"keys\":",
        counters.keys as nat,
    ) + field(",\"evictions\":", counters.evicted as nat) + field(
        ",\"key_drops\":",
        counters.dropped as nat,
    ) + field(",\"max_keys_per_tag\":", MAX_KEYS_PER_TAG as nat)
}

/// The status document. Without a zone it says so, rather than reporting
/// zeroes that look like an idle index.
pub open spec fn document(state: Option<(ZoneState, Counters)>) -> Seq<u8> {
    match state {
        None => "{\"configured\":false}\n".spec_bytes(),
        Some((zone, counters)) => zone_part(zone) + index_part(counters) + "}}\n".spec_bytes(),
    }
}

fn push_text(out: &mut Vec<u8>, text: &str)
    ensures
        final(out)@ == old(out)@ + text.spec_bytes(),
{
    out.extend_from_slice(text.as_bytes());
}

fn push_field(out: &mut Vec<u8>, text: &str, n: u64)
    ensures
        final(out)@ == old(out)@ + field(text, n as nat),
{
    push_text(out, text);
    push_decimal(out, n);
    assert(out@ =~= old(out)@ + field(text, n as nat));
}

fn push_zone_part(out: &mut Vec<u8>, zone: &ZoneState)
    requires
        zone.inv(),
    ensures
        final(out)@ == old(out)@ + zone_part(*zone),
{
    let pages: usize = (zone.end - zone.start) / zone.page_size;
    push_field(out, "{\"configured\":true,\"zone\":{\"size\":", zone.size as u64);
    push_field(out, ",\"pages_total\":", pages as u64);
    push_field(out, ",\"pages_free\":", zone.pages_free as u64);
    assert(out@ =~= old(out)@ + zone_part(*zone));
}

fn push_index_part(out: &mut Vec<u8>, counters: &Counters)
    ensures
        final(out)@ == old(out)@ + index_part(*counters),
{
    push_field(out, "},\"index\":{\"tags\":", counters.tags as u64);
    push_field(out, ",\"keys\":", counters.keys as u64);
    push_field(out, ",\"evictions\":", counters.evicted);
    push_field(out, ",\"key_drops\":", counters.dropped);
    push_field(out, ",\"max_keys_per_tag\":", MAX_KEYS_PER_TAG as u64);
    assert(out@ =~= old(out)@ + index_part(*counters));
}

/// Renders the status document at the end of `out`. It takes no more room than
/// is set aside for it.
pub fn report(state: Option<(ZoneState, Counters)>, out: &mut Vec<u8>)
    requires
        state matches Some((zone, _)) ==> zone.inv(),
    ensures
        final(out)@ == old(out)@ + document(state),
        final(out)@.len() <= old(out)@.len() + MAX_DOCUMENT,
{
    proof {
        lemma_document_fits(state);
    }
    match state {
        None => {
            push_text(out, "{\"configured\":false}\n");
        },
        Some((zone, counters)) => {
            push_zone_part(out, &zone);
            push_index_part(out, &counters);
            push_text(out, "}}\n");
        },
    }
    assert(out@ =~= old(out)@ + document(state));
}

proof fn lemma_number_fits(n: u64)
    ensures
        decimal(n as nat).len() <= 20,
{
    assert(pow(10, 20) == 100_000_000_000_000_000_000) by {
        reveal_with_fuel(pow, 21);
    }
    lemma_decimal_len(n as nat, 20);
}

proof fn lemma_document_fits(state: Option<(ZoneState, Counters)>)
    requires
        state matches Some((zone, _)) ==> zone.inv(),
    ensures
        document(state).len() <= MAX_DOCUMENT,
{
    broadcast use vstd::string::is_ascii_spec_bytes;

    reveal_strlit("{\"configured\":false}\n");
    assert("{\"configured\":false}\n".is_ascii());
    reveal_strlit("{\"configured\":true,\"zone\":{\"size\":");
    assert("{\"configured\":true,\"zone\":{\"size\":".is_ascii());
    reveal_strlit(",\"pages_total\":");
    assert(",\"pages_total\":".is_ascii());
    reveal_strlit(",\"pages_free\":");
    assert(",\"pages_free\":".is_ascii());
    reveal_strlit("},\"index\":{\"tags\":");
    assert("},\"index\":{\"tags\":".is_ascii());
    reveal_strlit(",\"keys\":");
    assert(",\"keys\":".is_ascii());
    reveal_strlit(",\"evictions\":");
    assert(",\"evictions\":".is_ascii());
    reveal_strlit(",\"key_drops\":");
    assert(",\"key_drops\":".is_ascii());
    reveal_strlit(",\"max_keys_per_tag\":");
    assert(",\"max_keys_per_tag\":".is_ascii());
    reveal_strlit("}}\n");
    assert("}}\n".is_ascii());
    if let Some((zone, counters)) = state {
        lemma_number_fits(zone.size as u64);
        vstd::arithmetic::div_mod::lemma_div_is_ordered_by_denominator(
            zone.end - zone.start,
            1,
            zone.page_size as int,
        );
        lemma_number_fits(zone.pages() as u64);
        lemma_number_fits(zone.pages_free as u64);
        lemma_number_fits(counters.tags as u64);
        lemma_number_fits(counters.keys as u64);
        lemma_number_fits(counters.evicted);
        lemma_number_fits(counters.dropped);
        lemma_number_fits(MAX_KEYS_PER_TAG as u64);
    }
}

/// What follows is decided by what came back: a body that cannot be discarded
/// and a document that cannot be had end the request with the code and with an
/// error. The header is that of a `200` answer with JSON. A failure to send
/// it ends the request with its code, as does a request for the header alone;
/// otherwise the body is sent, and what comes back of that is returned.
pub proof fn law_status_goes_by_what_came_back(rc: isize, header_only: bool)
    ensures
        rc == 0 ==> status_step(StatusEvent::Discarded(rc)) == StatusAction::Render,
        rc != 0 ==> status_step(StatusEvent::Discarded(rc)) == StatusAction::Return(rc),
        status_step(StatusEvent::Rendered) == StatusAction::SendHeader(
            200,
            ReplyHeader::JsonContent,
        ),
        status_step(StatusEvent::Unavailable) == StatusAction::Return((-1) as isize),
        header_only || rc > 0 || rc == -1 ==> status_step(
            (StatusEvent::HeaderSent { rc, header_only }),
        ) == StatusAction::Return(rc),
        !header_only && (rc == 0 || rc < -1) ==> status_step(
            (StatusEvent::HeaderSent { rc, header_only }),
        ) == StatusAction::SendBody,
        status_step(StatusEvent::BodySent(rc)) == StatusAction::Return(rc),
        status_step(StatusEvent::Asked(Method::Get)) == StatusAction::DiscardBody,
        status_step(StatusEvent::Asked(Method::Head)) == StatusAction::DiscardBody,
        status_step(StatusEvent::Asked(Method::Other)) == StatusAction::Refuse(
            405,
            ReplyHeader::AllowRead,
        ),
{
}

/// The pages of a zone are the whole ones that fit between its start and its
/// end.
pub proof fn law_pages_are_those_that_fit(zone: ZoneState)
    requires
        zone.start <= zone.end,
        zone.page_size > 0,
    ensures
        zone.pages() * zone.page_size <= zone.end - zone.start,
        zone.end - zone.start < (zone.pages() + 1) * zone.page_size,
{
    let span = zone.end - zone.start;
    let size = zone.page_size as int;
    lemma_fundamental_div_mod(span, size);
    lemma_mod_bound(span, size);
    assert(span / size >= 0) by (nonlinear_arith)
        requires
            span >= 0,
            size > 0,
    ;
    let pages = span / size;
    assert(size * pages == pages * size) by (nonlinear_arith);
    assert((pages + 1) * size == pages * size + size) by (nonlinear_arith);
}

/// Whether `doc` has `label` somewhere, directly followed by the number `n`.
pub open spec fn shows(doc: Seq<u8>, label: Seq<u8>, n: nat) -> bool {
    exists|before: Seq<u8>, after: Seq<u8>|
        {
            &&& doc == #[trigger] (before + label + decimal(n) + after)
            &&& after.len() > 0
            &&& !(48 <= after[0] <= 57)
        }
}

proof fn lemma_shows(before: Seq<u8>, label: &str, n: nat, after: Seq<u8>, doc: Seq<u8>)
    requires
        doc == before + field(label, n) + after,
        after.len() > 0,
        !(48 <= after[0] <= 57),
    ensures
        shows(doc, label.spec_bytes(), n),
{
    assert(doc =~= before + label.spec_bytes() + decimal(n) + after);
}

/// Nine parts in a row, taken apart at one of them.
proof fn lemma_regroup(
    f1: Seq<u8>,
    f2: Seq<u8>,
    f3: Seq<u8>,
    f4: Seq<u8>,
    f5: Seq<u8>,
    f6: Seq<u8>,
    f7: Seq<u8>,
    f8: Seq<u8>,
    end: Seq<u8>,
    doc: Seq<u8>,
)
    requires
        doc == f1 + f2 + f3 + (f4 + f5 + f6 + f7 + f8) + end,
    ensures
        doc == Seq::<u8>::empty() + f1 + (f2 + f3 + f4 + f5 + f6 + f7 + f8 + end),
        doc == f1 + f2 + (f3 + f4 + f5 + f6 + f7 + f8 + end),
        doc == f1 + f2 + f3 + (f4 + f5 + f6 + f7 + f8 + end),
        doc == f1 + f2 + f3 + f4 + (f5 + f6 + f7 + f8 + end),
        doc == f1 + f2 + f3 + f4 + f5 + (f6 + f7 + f8 + end),
        doc == f1 + f2 + f3 + f4 + f5 + f6 + (f7 + f8 + end),
        doc == f1 + f2 + f3 + f4 + f5 + f6 + f7 + (f8 + end),
        doc == f1 + f2 + f3 + f4 + f5 + f6 + f7 + f8 + (end),
{
    let t8 = end;
    let t7 = f8 + t8;
    let t6 = f7 + t7;
    let t5 = f6 + t6;
    let t4 = f5 + t5;
    let t3 = f4 + t4;
    let t2 = f3 + t3;
    let t1 = f2 + t2;
    let t0 = f1 + t1;
    assert(t0 =~= f1 + f2 + f3 + f4 + f5 + f6 + f7 + f8 + end);
    assert(t1 =~= f2 + f3 + f4 + f5 + f6 + f7 + f8 + end);
    assert(t2 =~= f3 + f4 + f5 + f6 + f7 + f8 + end);
    assert(t3 =~= f4 + f5 + f6 + f7 + f8 + end);
    assert(t4 =~= f5 + f6 + f7 + f8 + end);
    assert(t5 =~= f6 + f7 + f8 + end);
    assert(t6 =~= f7 + f8 + end);
    assert(t7 =~= f8 + end);
    assert(doc =~= Seq::<u8>::empty() + f1 + t1);
    assert(doc =~= f1 + f2 + t2);
    assert(doc =~= f1 + f2 + f3 + t3);
    assert(doc =~= f1 + f2 + f3 + f4 + t4);
    assert(doc =~= f1 + f2 + f3 + f4 + f5 + t5);
    assert(doc =~= f1 + f2 + f3 + f4 + f5 + f6 + t6);
    assert(doc =~= f1 + f2 + f3 + f4 + f5 + f6 + f7 + t7);
    assert(doc =~= f1 + f2 + f3 + f4 + f5 + f6 + f7 + f8 + t8);
}

/// What the labels begin with.
proof fn lemma_labels_begin()
    ensures
        ",\"pages_total\":".spec_bytes().len() > 0,
        ",\"pages_total\":".spec_bytes()[0] == 44,
        ",\"pages_free\":".spec_bytes().len() > 0,
        ",\"pages_free\":".spec_bytes()[0] == 44,
        "},\"index\":{\"tags\":".spec_bytes().len() > 0,
        "},\"index\":{\"tags\":".spec_bytes()[0] == 125,
        ",\"keys\":".spec_bytes().len() > 0,
        ",\"keys\":".spec_bytes()[0] == 44,
        ",\"evictions\":".spec_bytes().len() > 0,
        ",\"evictions\":".spec_bytes()[0] == 44,
        ",\"key_drops\":".spec_bytes().len() > 0,
        ",\"key_drops\":".spec_bytes()[0] == 44,
        ",\"max_keys_per_tag\":".spec_bytes().len() > 0,
        ",\"max_keys_per_tag\":".spec_bytes()[0] == 44,
        "}}\n".spec_bytes().len() > 0,
        "}}\n".spec_bytes()[0] == 125,
{
    broadcast use vstd::string::is_ascii_spec_bytes;

    reveal_strlit(",\"pages_total\":");
    assert(",\"pages_total\":".is_ascii());
    reveal_strlit(",\"pages_free\":");
    assert(",\"pages_free\":".is_ascii());
    reveal_strlit("},\"index\":{\"tags\":");
    assert("},\"index\":{\"tags\":".is_ascii());
    reveal_strlit(",\"keys\":");
    assert(",\"keys\":".is_ascii());
    reveal_strlit(",\"evictions\":");
    assert(",\"evictions\":".is_ascii());
    reveal_strlit(",\"key_drops\":");
    assert(",\"key_drops\":".is_ascii());
    reveal_strlit(",\"max_keys_per_tag\":");
    assert(",\"max_keys_per_tag\":".is_ascii());
    reveal_strlit("}}\n");
    assert("}}\n".is_ascii());
}

/// Each number stands in the document behind its own label, and nothing that
/// could be read as more digits follows it.
pub proof fn law_document_shows_each_number(zone: ZoneState, counters: Counters)
    ensures
        shows(
            document(Some((zone, counters))),
            "{\"configured\":true,\"zone\":{\"size\":".spec_bytes(),
            zone.size as nat,
        ),
        shows(
            document(Some((zone, counters))),
            ",\"pages_total\":".spec_bytes(),
            zone.pages(),
        ),
        shows(
            document(Some((zone, counters))),
            ",\"pages_free\":".spec_bytes(),
            zone.pages_free as nat,
        ),
        shows(
            document(Some((zone, counters))),
            "},\"index\":{\"tags\":".spec_bytes(),
            counters.tags as nat,
        ),
        shows(
            document(Some((zone, counters))),
            ",\"keys\":".spec_bytes(),
            counters.keys as nat,
        ),
        shows(
            document(Some((zone, counters))),
            ",\"evictions\":".spec_bytes(),
            counters.evicted as nat,
        ),
        shows(
            document(Some((zone, counters))),
            ",\"key_drops\":".spec_bytes(),
            counters.dropped as nat,
        ),
        shows(
            document(Some((zone, counters))),
            ",\"max_keys_per_tag\":".spec_bytes(),
            65536,
        ),
{
    let doc = document(Some((zone, counters)));
    let end = "}}\n".spec_bytes();
    let f1 = field("{\"configured\":true,\"zone\":{\"size\":", zone.size as nat);
    let f2 = field(",\"pages_total\":", zone.pages());
    let f3 = field(",\"pages_free\":", zone.pages_free as nat);
    let f4 = field("},\"index\":{\"tags\":", counters.tags as nat);
    let f5 = field(",\"keys\":", counters.keys as nat);
    let f6 = field(",\"evictions\":", counters.evicted as nat);
    let f7 = field(",\"key_drops\":", counters.dropped as nat);
    let f8 = field(",\"max_keys_per_tag\":", MAX_KEYS_PER_TAG as nat);
    lemma_labels_begin();
    lemma_regroup(f1, f2, f3, f4, f5, f6, f7, f8, end, doc);
    assert((f2 + f3 + f4 + f5 + f6 + f7 + f8 + end)[0] == f2[0]);
    lemma_shows(
        Seq::<u8>::empty(),
        "{\"configured\":true,\"zone\":{\"size\":",
        zone.size as nat,
        f2 + f3 + f4 + f5 + f6 + f7 + f8 + end,
        doc,
    );
    assert((f3 + f4 + f5 + f6 + f7 + f8 + end)[0] == f3[0]);
    lemma_shows(f1, ",\"pages_total\":", zone.pages(), f3 + f4 + f5 + f6 + f7 + f8 + end, doc);
    assert((f4 + f5 + f6 + f7 + f8 + end)[0] == f4[0]);
    lemma_shows(
        f1 + f2,
        ",\"pages_free\":",
        zone.pages_free as nat,
        f4 + f5 + f6 + f7 + f8 + end,
        doc,
    );
    assert((f5 + f6 + f7 + f8 + end)[0] == f5[0]);
    lemma_shows(
        f1 + f2 + f3,
        "},\"index\":{\"tags\":",
        counters.tags as nat,
        f5 + f6 + f7 + f8 + end,
        doc,
    );
    assert((f6 + f7 + f8 + end)[0] == f6[0]);
    lemma_shows(f1 + f2 + f3 + f4, ",\"keys\":", counters.keys as nat, f6 + f7 + f8 + end, doc);
    assert((f7 + f8 + end)[0] == f7[0]);
    lemma_shows(
        f1 + f2 + f3 + f4 + f5,
        ",\"evictions\":",
        counters.evicted as nat,
        f7 + f8 + end,
        doc,
    );
    assert((f8 + end)[0] == f8[0]);
    lemma_shows(
        f1 + f2 + f3 + f4 + f5 + f6,
        ",\"key_drops\":",
        counters.dropped as nat,
        f8 + end,
        doc,
    );
    lemma_shows(
        f1 + f2 + f3 + f4 + f5 + f6 + f7,
        ",\"max_keys_per_tag\":",
        MAX_KEYS_PER_TAG as nat,
        end,
        doc,
    );
}

} // verus!
