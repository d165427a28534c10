use xkey::conf::{zone_size, ConfError, XkeyLocConf, XkeyMainConf, ZoneRequest, NGX_CONF_UNSET};
use xkey::header::{eq_ignore_ascii_case, find_header, header_named, Header};
use xkey::index::TagIndex;
use xkey::purge::{is_purge, look_up, purge_tag, Action, Event, Purge};
use xkey::record::record_tags;
use xkey::reply::{ReplyHeader, Source, NGX_ERROR, NGX_OK};
use xkey::scan::{block_len, header_block, Extent, FileHeader, Scan, Verdict};
use xkey::status::{
    counters, report, status_next, Counters, Method, StatusAction, StatusEvent, ZoneState,
};
use xkey::store::HeapStore;
use xkey::tags::{split_listed_tags, MAX_TAG_LEN};
use xkey::{split_tags, CacheKey, CACHE_KEY_LEN};

const BLOCK: &[u8] = b"HTTP/1.1 200 OK\r\nServer: x\r\nxkey-not: no\r\nXKey:  product-1234, category-shoes \r\nxkey: late\r\n\r\n";

fn asking<'a>(value: &'a [u8]) -> Vec<Header<'a>> {
    vec![Header { name: b"Host", value: b"localhost" }, Header { name: b"XKEY-purge", value }]
}

fn looking(value: &[u8]) -> Purge {
    let (mut purge, action) = Purge::start(b"PURGE", &asking(value));
    assert_eq!(action, Action::DiscardBody);
    assert_eq!(purge.advance(Event::Discarded(NGX_OK)), Action::TakeTag);
    assert_eq!(purge.tag(), Some(value));
    purge
}

fn index_report(purged: usize) -> Vec<ReplyHeader> {
    vec![ReplyHeader::PurgeSource(Source::Index), ReplyHeader::PurgedCount(purged)]
}

fn scan_report(scanned: usize, purged: usize, indexed: usize) -> Vec<ReplyHeader> {
    vec![
        ReplyHeader::PurgeSource(Source::Scan),
        ReplyHeader::PurgedCount(purged),
        ReplyHeader::ScannedFiles(scanned),
        ReplyHeader::IndexedFiles(indexed),
    ]
}

#[test]
fn only_purge_is_a_purge() {
    assert!(is_purge(b"PURGE"));
    assert!(!is_purge(b"purge"));
    assert!(!is_purge(b"PURGES"));
    assert!(!is_purge(b"GET"));
    assert!(!is_purge(b""));
}

#[test]
fn other_methods_get_405() {
    let (_, action) = Purge::start(b"GET", &asking(b"a"));
    assert_eq!(action, Action::Return(405, vec![ReplyHeader::AllowPurge]));
    assert_eq!(action.status(), None);
}

#[test]
fn purge_tag_is_the_first_that_is_not_empty() {
    let headers = vec![
        Header { name: b"xkey-purge", value: b"" },
        Header { name: b"xkey-purged", value: b"no" },
        Header { name: b"Xkey-Purge", value: b"yes" },
        Header { name: b"xkey-purge", value: b"late" },
    ];
    assert_eq!(purge_tag(&headers), Some(&b"yes"[..]));
    assert_eq!(purge_tag(&Vec::new()), None);
}

#[test]
fn request_without_a_tag_gets_400() {
    let (mut purge, action) = Purge::start(b"PURGE", &asking(b""));
    assert_eq!(action, Action::DiscardBody);
    assert_eq!(purge.advance(Event::Discarded(NGX_OK)), Action::Return(400, vec![]));
}

#[test]
fn request_with_an_over_long_tag_gets_400() {
    let long = [b'x'; MAX_TAG_LEN + 1];
    let (mut purge, _) = Purge::start(b"PURGE", &asking(&long));
    assert_eq!(purge.tag(), None);
    assert_eq!(purge.advance(Event::Discarded(NGX_OK)), Action::Return(400, vec![]));
    looking(&long[1..]);
}

#[test]
fn body_that_cannot_be_discarded_ends_the_purge() {
    let (mut purge, _) = Purge::start(b"PURGE", &asking(b"a"));
    assert_eq!(purge.advance(Event::Discarded(413)), Action::Return(413, vec![]));
}

#[test]
fn indexed_tag_has_every_entry_removed() {
    let keys: Vec<CacheKey> = (0..4).map(|n| [n; CACHE_KEY_LEN]).collect();
    let mut purge = looking(b"a");
    let outcomes = [(true, true), (false, false), (true, false), (false, true)];
    let mut action = purge.advance(Event::Taken(keys.clone()));
    for (key, (cleared, unlinked)) in keys.iter().zip(outcomes) {
        assert_eq!(action, Action::Remove(*key));
        action = purge.advance(Event::Removed { cleared, unlinked });
    }
    assert_eq!(action, Action::SendNoContent(index_report(3)));
    assert_eq!(action.status(), Some(204));
    assert_eq!(purge.advance(Event::HeaderSent(NGX_OK)), Action::Return(NGX_OK, vec![]));
}

#[test]
fn header_that_cannot_be_sent_is_returned() {
    for (rc, code) in [(NGX_ERROR, NGX_ERROR), (500, 500), (-2, NGX_OK), (NGX_OK, NGX_OK)] {
        let mut purge = looking(b"a");
        assert_eq!(purge.advance(Event::Taken(vec![])), Action::SendNoContent(index_report(0)));
        assert_eq!(purge.advance(Event::HeaderSent(rc)), Action::Return(code, vec![]));
    }
}

#[test]
fn index_miss_is_scanned() {
    let mut purge = looking(b"a");
    assert_eq!(purge.advance(Event::NotIndexed { fallback: true }), Action::Scan);
    assert_eq!(
        purge.advance(Event::Scanned { scanned: 9, purged: 2, indexed: 5 }),
        Action::SendNoContent(scan_report(9, 2, 5))
    );
}

#[test]
fn scan_that_finds_nothing_gets_404() {
    let mut purge = looking(b"a");
    assert_eq!(purge.advance(Event::NotIndexed { fallback: true }), Action::Scan);
    assert_eq!(
        purge.advance(Event::Scanned { scanned: 9, purged: 0, indexed: 7 }),
        Action::Return(404, scan_report(9, 0, 7))
    );
}

#[test]
fn index_miss_without_fallback_gets_404() {
    let mut purge = looking(b"a");
    assert_eq!(
        purge.advance(Event::NotIndexed { fallback: false }),
        Action::Return(404, vec![ReplyHeader::PurgeSource(Source::Index)])
    );
}

#[test]
fn failure_ends_the_purge_in_an_error() {
    let mut purge = looking(b"a");
    assert_eq!(purge.advance(Event::Failed), Action::Return(NGX_ERROR, vec![]));
    let mut purge = looking(b"a");
    assert_eq!(purge.advance(Event::NotIndexed { fallback: true }), Action::Scan);
    assert_eq!(purge.advance(Event::Failed), Action::Return(NGX_ERROR, vec![]));
}

#[test]
fn headers_read_as_documented() {
    let shown: Vec<(String, String)> = [
        ReplyHeader::AllowPurge,
        ReplyHeader::AllowRead,
        ReplyHeader::PurgeSource(Source::Index),
        ReplyHeader::PurgeSource(Source::Scan),
        ReplyHeader::PurgedCount(3),
        ReplyHeader::ScannedFiles(120),
        ReplyHeader::IndexedFiles(0),
        ReplyHeader::JsonContent,
    ]
    .iter()
    .map(|h| (h.name().to_string(), String::from_utf8(h.value()).unwrap()))
    .collect();
    let expected = [
        ("allow", "PURGE"),
        ("allow", "GET, HEAD"),
        ("x-purge-source", "index"),
        ("x-purge-source", "scan"),
        ("x-purged-count", "3"),
        ("x-scanned-files", "120"),
        ("x-indexed-files", "0"),
        ("content-type", "application/json"),
    ];
    assert_eq!(shown.len(), expected.len());
    for ((name, value), (n, v)) in shown.iter().zip(expected) {
        assert_eq!((name.as_str(), value.as_str()), (n, v));
    }
}

#[test]
fn names_compare_without_case() {
    assert!(eq_ignore_ascii_case(b"XKey-1", b"xkEY-1"));
    assert!(!eq_ignore_ascii_case(b"xkey", b"xkeys"));
    assert!(!eq_ignore_ascii_case(b"xkey[", b"xkey{"));
}

#[test]
fn header_without_a_value_counts_where_asked() {
    let headers = vec![
        Header { name: b"a", value: b"" },
        Header { name: b"A", value: b"v" },
    ];
    assert_eq!(header_named(&headers, b"a", true), Some(&b""[..]));
    assert_eq!(header_named(&headers, b"a", false), Some(&b"v"[..]));
    assert_eq!(header_named(&headers, b"b", true), None);
}

#[test]
fn stored_header_is_found() {
    assert_eq!(find_header(BLOCK, b"xkey"), Some(&b"product-1234, category-shoes"[..]));
    assert_eq!(find_header(BLOCK, b"server"), Some(&b"x"[..]));
    assert_eq!(find_header(BLOCK, b"xke"), None);
    assert_eq!(find_header(b"", b"xkey"), None);
    assert_eq!(find_header(b"xkey: unended", b"xkey"), Some(&b"unended"[..]));
}

#[test]
fn recorded_and_stored_tags_agree() {
    let value = b" product-1234,,category-shoes\tx";
    assert_eq!(split_listed_tags(value), split_tags(value));
    assert_eq!(split_tags(value).len(), 3);
    let mut block = b"HTTP/1.1 200 OK\r\nxkey:".to_vec();
    block.extend_from_slice(value);
    block.extend_from_slice(b"\r\n\r\n");
    let stored = find_header(&block, b"xkey").unwrap();
    assert_eq!(split_tags(stored), split_listed_tags(value));
}

#[test]
fn file_with_the_tag_goes() {
    let mut scan = Scan::new(b"category-shoes", b"xkey");
    let key = scan.enter(b"/c/00112233445566778899aabbccddeeff");
    assert!(key.is_some());
    assert!(matches!(scan.judge(BLOCK), Verdict::Purge));
    scan.removed(false, true);
    scan.removed(true, false);
    scan.removed(false, false);
    assert_eq!((scan.scanned, scan.purged, scan.indexed), (1, 2, 0));
}

#[test]
fn file_without_the_tag_is_written_back() {
    let mut index = TagIndex::new(HeapStore::new());
    let mut scan = Scan::new(b"late", b"xkey");
    let key = scan.enter(b"/c/00112233445566778899aabbccddeeff").unwrap();
    match scan.judge(BLOCK) {
        Verdict::Keep(tags) => {
            assert_eq!(tags, vec![&b"product-1234"[..], &b"category-shoes"[..]]);
            assert_eq!(scan.kept(&mut index, &tags, &key), 2);
            assert_eq!(scan.kept(&mut index, &Vec::new(), &key), 0);
        }
        _ => panic!("the file stays"),
    }
    assert_eq!((scan.scanned, scan.purged, scan.indexed), (1, 0, 1));
    // The next purge is answered from memory.
    assert_eq!(index.take(b"product-1234"), Some(vec![key]));
}

#[test]
fn other_files_are_passed_over() {
    let mut scan = Scan::new(b"a", b"surrogate-key");
    assert_eq!(scan.enter(b"/c/00112233445566778899aabbccddeeff.0000000001"), None);
    assert!(scan.enter(b"/c/00112233445566778899aabbccddeeff").is_some());
    assert!(matches!(scan.judge(BLOCK), Verdict::Untagged));
    assert_eq!((scan.scanned, scan.purged, scan.indexed), (2, 0, 0));
}

#[test]
fn header_block_lies_before_the_body() {
    let header = FileHeader { version: 5, header_start: 300, body_start: 700 };
    let at = Some(Extent { start: 300, len: 400 });
    assert_eq!(header_block(336, 336, &header, 5, 65535), at);
    assert_eq!(header_block(336, 336, &header, 5, 400), at);
    assert_eq!(header_block(336, 336, &header, 5, 399), None);
    assert_eq!(header_block(335, 336, &header, 5, 65535), None);
    assert_eq!(header_block(-1, 336, &header, 5, 65535), None);
    assert_eq!(header_block(336, 336, &header, 3, 65535), None);
    let empty = FileHeader { version: 5, header_start: 300, body_start: 300 };
    assert_eq!(header_block(336, 336, &empty, 5, 65535), None);
    let crossed = FileHeader { version: 5, header_start: 301, body_start: 300 };
    assert_eq!(header_block(336, 336, &crossed, 5, 65535), None);
}

#[test]
fn header_block_has_to_be_read_whole() {
    assert_eq!(block_len(400, 400), Some(400));
    assert_eq!(block_len(399, 400), None);
    assert_eq!(block_len(-1, 400), None);
}

#[test]
fn status_answers_get_and_head() {
    assert_eq!(status_next(StatusEvent::Asked(Method::Get)), StatusAction::DiscardBody);
    assert_eq!(status_next(StatusEvent::Asked(Method::Head)), StatusAction::DiscardBody);
    assert_eq!(
        status_next(StatusEvent::Asked(Method::Other)),
        StatusAction::Refuse(405, ReplyHeader::AllowRead)
    );
}

#[test]
fn status_sends_its_document() {
    assert_eq!(status_next(StatusEvent::Discarded(NGX_OK)), StatusAction::Render);
    assert_eq!(status_next(StatusEvent::Discarded(413)), StatusAction::Return(413));
    assert_eq!(
        status_next(StatusEvent::Rendered),
        StatusAction::SendHeader(200, ReplyHeader::JsonContent)
    );
    assert_eq!(status_next(StatusEvent::Unavailable), StatusAction::Return(NGX_ERROR));
    let sent = |rc, header_only| status_next(StatusEvent::HeaderSent { rc, header_only });
    assert_eq!(sent(NGX_OK, false), StatusAction::SendBody);
    assert_eq!(sent(-2, false), StatusAction::SendBody);
    assert_eq!(sent(NGX_OK, true), StatusAction::Return(NGX_OK));
    assert_eq!(sent(NGX_ERROR, false), StatusAction::Return(NGX_ERROR));
    assert_eq!(sent(500, false), StatusAction::Return(500));
    assert_eq!(status_next(StatusEvent::BodySent(-2)), StatusAction::Return(-2));
}

#[test]
fn status_without_a_zone_says_so() {
    let mut body = Vec::new();
    report(None, &mut body);
    assert_eq!(body, b"{\"configured\":false}\n");
}

#[test]
fn status_document_reads_as_json() {
    let zone = ZoneState { size: 33554432, start: 8192, end: 8192 + 10 * 4096 + 5, page_size: 4096, pages_free: 7 };
    let counts = Counters { tags: 2, keys: 30, evicted: u64::MAX, dropped: 0 };
    let mut body = Vec::new();
    report(Some((zone, counts)), &mut body);
    let body = String::from_utf8(body).unwrap();
    assert_eq!(
        body,
        "{\"configured\":true,\"zone\":{\"size\":33554432,\"pages_total\":10,\"pages_free\":7},\
         \"index\":{\"tags\":2,\"keys\":30,\"evictions\":18446744073709551615,\"key_drops\":0,\
         \"max_keys_per_tag\":65536}}\n"
    );
}

#[test]
fn status_counts_what_the_index_holds() {
    let mut index = TagIndex::new(HeapStore::new());
    index.insert(b"a", &[1; CACHE_KEY_LEN]).unwrap();
    index.insert(b"a", &[2; CACHE_KEY_LEN]).unwrap();
    index.insert(b"b", &[1; CACHE_KEY_LEN]).unwrap();
    assert_eq!(counters(&index), Counters { tags: 2, keys: 3, evicted: 0, dropped: 0 });
}

#[test]
fn zone_takes_both_spellings() {
    let conf: XkeyMainConf<u8> = XkeyMainConf::default();
    assert_eq!(conf.header, b"xkey");
    let wanted = ZoneRequest { name: b"xkey", size: b"32m" };
    assert_eq!(conf.zone_request(&vec![&b"xkey_zone"[..], &b"xkey:32m"[..]]), Ok(wanted));
    assert_eq!(conf.zone_request(&vec![&b"xkey_zone"[..], &b"xkey"[..], &b"32m"[..]]), Ok(wanted));
    assert_eq!(
        conf.zone_request(&vec![&b"xkey_zone"[..], &b"a:b:c"[..]]),
        Ok(ZoneRequest { name: b"a", size: b"b:c" })
    );
}

#[test]
fn zone_errors_are_told_apart() {
    let mut conf: XkeyMainConf<u8> = XkeyMainConf::default();
    let bare = vec![&b"xkey_zone"[..], &b"xkey"[..]];
    assert_eq!(conf.zone_request(&bare), Err(ConfError::MissingSize));
    assert_eq!(zone_size(-1), Err(ConfError::InvalidSize));
    assert_eq!(zone_size(1024), Ok(1024));
    assert_eq!(conf.set_zone(None), Err(ConfError::NoZone));
    assert_eq!(conf.set_zone(Some(1)), Ok(()));
    assert_eq!(conf.zone_request(&bare), Err(ConfError::Duplicate));
    assert_eq!(ConfError::MissingSize.message(), Some("\"xkey_zone\" requires a zone size"));
    assert_eq!(ConfError::InvalidSize.message(), Some("invalid \"xkey_zone\" size"));
    assert_eq!(ConfError::Duplicate.message(), None);
    assert_eq!(ConfError::NoZone.message(), None);
}

#[test]
fn header_name_can_be_set() {
    let mut conf: XkeyMainConf<u8> = XkeyMainConf::default();
    conf.set_header(&vec![&b"xkey_header"[..], &b"surrogate-key"[..]]);
    assert_eq!(conf.header, b"surrogate-key");
}

#[test]
fn purge_endpoint_is_declared_once() {
    let mut conf: XkeyLocConf<u8> = XkeyLocConf::default();
    let args = vec![&b"xkey_purge"[..], &b"CACHE"[..]];
    assert_eq!(conf.purge_zone(&args), Ok(&b"CACHE"[..]));
    assert_eq!(conf.set_cache_zone(None), Err(ConfError::NoZone));
    assert_eq!(conf.set_cache_zone(Some(3)), Ok(()));
    assert_eq!(conf.purge_zone(&args), Err(ConfError::Duplicate));
}

#[test]
fn innermost_fallback_wins() {
    let at = |fallback| XkeyLocConf::<u8> { cache_zone: None, fallback };
    let merged = |own, outer| {
        let mut conf = at(own);
        conf.merge(&at(outer));
        conf
    };
    assert_eq!(merged(NGX_CONF_UNSET, NGX_CONF_UNSET).fallback, 1);
    assert_eq!(merged(NGX_CONF_UNSET, 0).fallback, 0);
    assert_eq!(merged(1, 0).fallback, 1);
    assert_eq!(merged(0, 1).fallback, 0);
    assert!(merged(NGX_CONF_UNSET, NGX_CONF_UNSET).scans());
    assert!(!merged(NGX_CONF_UNSET, 0).scans());
    let mut inner = at(NGX_CONF_UNSET);
    inner.merge(&XkeyLocConf { cache_zone: Some(3), fallback: 0 });
    assert_eq!(inner.cache_zone, None);
}

#[test]
fn recorded_entries_are_removed_by_a_purge() {
    let mut index = TagIndex::new(HeapStore::new());
    let tags: Vec<&[u8]> = vec![b"a", b"b"];
    for n in 1..4 {
        record_tags(&mut index, &tags, &[n; CACHE_KEY_LEN]);
    }
    let mut purge = looking(b"b");
    let mut action = purge.advance(look_up(&mut index, b"b", true));
    for n in 1..4 {
        assert_eq!(action, Action::Remove([n; CACHE_KEY_LEN]));
        action = purge.advance(Event::Removed { cleared: true, unlinked: true });
    }
    assert_eq!(action, Action::SendNoContent(index_report(3)));
    // What was taken is gone, so the same purge now has to scan.
    let mut again = looking(b"b");
    assert_eq!(again.advance(look_up(&mut index, b"b", true)), Action::Scan);
    assert_eq!(index.take(b"a").map(|keys| keys.len()), Some(3));
}

#[test]
fn scan_warms_the_index_for_every_file() {
    let blocks: [&[u8]; 4] = [
        b"HTTP/1.1 200 OK\r\nxkey: a b\r\n\r\n",
        b"HTTP/1.1 200 OK\r\nxkey: gone a\r\n\r\n",
        b"HTTP/1.1 200 OK\r\n\r\n",
        b"HTTP/1.1 200 OK\r\nxkey: b c\r\n\r\n",
    ];
    let names: [&[u8]; 4] = [
        b"/c/00000000000000000000000000000000",
        b"/c/11111111111111111111111111111111",
        b"/c/22222222222222222222222222222222",
        b"/c/33333333333333333333333333333333",
    ];
    let mut index = TagIndex::new(HeapStore::new());
    let mut scan = Scan::new(b"gone", b"xkey");
    for (name, block) in names.iter().zip(blocks) {
        let key = scan.enter(name).unwrap();
        match scan.judge(block) {
            Verdict::Untagged => {}
            Verdict::Purge => scan.removed(true, true),
            Verdict::Keep(tags) => {
                scan.kept(&mut index, &tags, &key);
            }
        }
    }
    assert_eq!((scan.scanned, scan.purged, scan.indexed), (4, 1, 2));
    let mut purge = looking(b"b");
    let mut action = purge.advance(look_up(&mut index, b"b", true));
    for byte in [0x00, 0x33] {
        assert_eq!(action, Action::Remove([byte; CACHE_KEY_LEN]));
        action = purge.advance(Event::Removed { cleared: true, unlinked: true });
    }
    assert_eq!(action, Action::SendNoContent(index_report(2)));
    assert_eq!(index.take(b"a"), Some(vec![[0; CACHE_KEY_LEN]]));
    assert_eq!(index.take(b"c"), Some(vec![[0x33; CACHE_KEY_LEN]]));
}

#[test]
fn held_tag_answers_with_the_keys_it_has() {
    // The index holds the tag, but not for the second of two files that list
    // it: the purge asks for the first alone.
    let mut index = TagIndex::new(HeapStore::new());
    index.insert(b"a", &[1; CACHE_KEY_LEN]).unwrap();
    let mut purge = looking(b"a");
    assert_eq!(
        purge.advance(look_up(&mut index, b"a", true)),
        Action::Remove([1; CACHE_KEY_LEN])
    );
    assert_eq!(
        purge.advance(Event::Removed { cleared: true, unlinked: true }),
        Action::SendNoContent(index_report(1))
    );
    // Now that the tag is gone, the next purge scans and finds the second.
    assert_eq!(looking(b"a").advance(look_up(&mut index, b"a", true)), Action::Scan);
}
