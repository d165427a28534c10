use xkey::index::TagIndex;
use xkey::model::{EVICT_ATTEMPTS, MAX_KEYS_PER_TAG};
use xkey::record::{cache_key, note_of, record_tags, CacheSlot, Response};
use xkey::header::Header;
use xkey::store::{AllocError, HeapStore, TagStore};
use xkey::tags::MAX_TAG_LEN;
use xkey::{CacheKey, CACHE_KEY_LEN};

fn key(n: usize) -> CacheKey {
    let mut key: CacheKey = [0; CACHE_KEY_LEN];
    key[..8].copy_from_slice(&(n as u64).to_le_bytes());
    key
}

fn fresh() -> TagIndex<HeapStore> {
    TagIndex::new(HeapStore::new())
}

/// A store with room for so many keys.
struct Bounded {
    inner: HeapStore,
    room: usize,
}

impl TagStore for Bounded {
    fn holds(&self, tag: &[u8]) -> bool {
        self.inner.holds(tag)
    }
    fn touch(&mut self, tag: &[u8]) {
        self.inner.touch(tag)
    }
    fn carries(&self, tag: &[u8], key: &CacheKey) -> bool {
        self.inner.carries(tag, key)
    }
    fn key_count(&self, tag: &[u8]) -> usize {
        self.inner.key_count(tag)
    }
    fn replace_oldest(&mut self, tag: &[u8], key: &CacheKey) {
        self.inner.replace_oldest(tag, key)
    }
    fn push_key(&mut self, tag: &[u8], key: &CacheKey) -> Result<(), AllocError> {
        if self.inner.held >= self.room {
            return Err(AllocError);
        }
        self.inner.push_key(tag, key)
    }
    fn create(&mut self, tag: &[u8], key: &CacheKey) -> Result<(), AllocError> {
        if self.inner.held >= self.room {
            return Err(AllocError);
        }
        self.inner.create(tag, key)
    }
    fn coldest(&self) -> Option<Vec<u8>> {
        self.inner.coldest()
    }
    fn remove(&mut self, tag: &[u8]) -> Option<Vec<CacheKey>> {
        self.inner.remove(tag)
    }
}

fn bounded(room: usize) -> TagIndex<Bounded> {
    TagIndex::new(Bounded { inner: HeapStore::new(), room })
}

#[test]
fn recorded_key_is_taken() {
    let mut index = fresh();
    assert_eq!(index.insert(b"a", &key(1)), Ok(()));
    assert_eq!(index.insert(b"a", &key(2)), Ok(()));
    assert_eq!(index.insert(b"b", &key(1)), Ok(()));
    assert_eq!((index.tags, index.keys), (2, 3));
    assert_eq!(index.take(b"a"), Some(vec![key(1), key(2)]));
    assert_eq!((index.tags, index.keys), (1, 1));
    assert_eq!(index.take(b"a"), None);
    assert_eq!(index.take(b"b"), Some(vec![key(1)]));
    assert_eq!((index.tags, index.keys), (0, 0));
    assert_eq!((index.evicted, index.dropped), (0, 0));
}

#[test]
fn key_already_present_is_ignored() {
    let mut index = fresh();
    assert_eq!(index.insert(b"a", &key(1)), Ok(()));
    assert_eq!(index.insert(b"a", &key(1)), Ok(()));
    assert_eq!((index.tags, index.keys), (1, 1));
    assert_eq!(index.take(b"a"), Some(vec![key(1)]));
}

#[test]
fn tags_that_do_not_fit_are_refused() {
    let mut index = fresh();
    assert_eq!(index.insert(b"", &key(1)), Err(AllocError));
    assert_eq!(index.insert(&[b'x'; MAX_TAG_LEN + 1], &key(1)), Err(AllocError));
    assert_eq!((index.tags, index.keys), (0, 0));
    assert_eq!(index.insert(&[b'x'; MAX_TAG_LEN], &key(1)), Ok(()));
    assert_eq!(index.take(&[b'x'; MAX_TAG_LEN]), Some(vec![key(1)]));
}

#[test]
fn coldest_tag_is_evicted() {
    let mut index = bounded(3);
    index.insert(b"a", &key(1)).unwrap();
    index.insert(b"b", &key(2)).unwrap();
    index.insert(b"c", &key(3)).unwrap();
    // Using a tag keeps it.
    index.insert(b"a", &key(1)).unwrap();
    index.insert(b"d", &key(4)).unwrap();
    assert_eq!((index.tags, index.keys, index.evicted), (3, 3, 1));
    assert_eq!(index.take(b"b"), None);
    assert_eq!(index.take(b"a"), Some(vec![key(1)]));
    assert_eq!(index.take(b"c"), Some(vec![key(3)]));
    assert_eq!(index.take(b"d"), Some(vec![key(4)]));
}

#[test]
fn growing_a_tag_evicts_others_before_it() {
    let mut index = bounded(3);
    index.insert(b"a", &key(1)).unwrap();
    index.insert(b"b", &key(2)).unwrap();
    index.insert(b"c", &key(3)).unwrap();
    index.insert(b"a", &key(4)).unwrap();
    index.insert(b"a", &key(5)).unwrap();
    assert_eq!((index.tags, index.keys, index.evicted), (1, 3, 2));
    // With nothing else left to evict the insert fails, and the tag keeps its
    // keys.
    assert_eq!(index.insert(b"a", &key(6)), Err(AllocError));
    assert_eq!((index.tags, index.keys, index.evicted), (1, 3, 2));
    assert_eq!(index.take(b"a"), Some(vec![key(1), key(4), key(5)]));
}

#[test]
fn insert_without_any_room_fails() {
    let mut index = bounded(0);
    assert_eq!(index.insert(b"a", &key(1)), Err(AllocError));
    assert_eq!((index.tags, index.keys, index.evicted), (0, 0, 0));
}

#[test]
fn insert_gives_up_after_so_many_evictions() {
    let mut index = bounded(100);
    for n in 0..100 {
        index.insert(format!("tag-{n}").as_bytes(), &key(n)).unwrap();
    }
    index.store.room = 0;
    assert_eq!(index.insert(b"new", &key(1000)), Err(AllocError));
    assert_eq!(index.evicted, EVICT_ATTEMPTS as u64);
    assert_eq!((index.tags, index.keys), (36, 36));
    assert_eq!(index.take(b"tag-63"), None);
    assert_eq!(index.take(b"tag-64"), Some(vec![key(64)]));
    assert_eq!(index.take(b"new"), None);
}

#[test]
fn full_tag_drops_its_oldest_key() {
    let mut store = HeapStore::new();
    store.create(b"a", &key(0)).unwrap();
    for n in 1..MAX_KEYS_PER_TAG {
        store.push_key(b"a", &key(n)).unwrap();
    }
    let mut index = TagIndex {
        store,
        tags: 1,
        keys: MAX_KEYS_PER_TAG,
        evicted: 0,
        dropped: 0,
    };
    index.insert(b"a", &key(MAX_KEYS_PER_TAG)).unwrap();
    assert_eq!((index.tags, index.keys, index.dropped), (1, MAX_KEYS_PER_TAG, 1));
    index.insert(b"a", &key(1)).unwrap();
    assert_eq!(index.dropped, 1);
    let keys = index.take(b"a").unwrap();
    assert_eq!(keys.len(), MAX_KEYS_PER_TAG);
    assert_eq!(keys[0], key(1));
    assert_eq!(keys[MAX_KEYS_PER_TAG - 1], key(MAX_KEYS_PER_TAG));
}

#[test]
fn response_on_its_way_into_the_cache_has_a_key() {
    let slot = |has_node, has_file| Some(CacheSlot { has_node, has_file, key: key(5) });
    assert_eq!(cache_key(Some(true), &slot(true, false)), Some(key(5)));
    assert_eq!(cache_key(Some(true), &slot(false, true)), Some(key(5)));
    assert_eq!(cache_key(Some(true), &slot(false, false)), None);
    assert_eq!(cache_key(Some(false), &slot(true, true)), None);
    assert_eq!(cache_key(None, &slot(true, true)), None);
    assert_eq!(cache_key(Some(true), &None), None);
}

fn response<'a>(headers: Vec<Header<'a>>) -> Response<'a> {
    Response {
        is_main: true,
        cacheable: Some(true),
        cache: Some(CacheSlot { has_node: true, has_file: false, key: key(5) }),
        headers,
    }
}

#[test]
fn response_is_noted_under_its_tags() {
    let r = response(vec![
        Header { name: b"Server", value: b"x" },
        Header { name: b"XKey", value: b"product-1234, category-shoes" },
        Header { name: b"xkey", value: b"second" },
    ]);
    let note = note_of(&r, b"xkey").unwrap();
    assert_eq!(note.key, key(5));
    assert_eq!(note.tags, vec![&b"product-1234"[..], &b"category-shoes"[..]]);
}

#[test]
fn other_responses_are_not_noted() {
    let tagged = || vec![Header { name: b"xkey", value: b"a" }];
    assert!(note_of(&response(tagged()), b"xkey").is_some());
    assert!(note_of(&response(tagged()), b"surrogate-key").is_none());
    let mut sub = response(tagged());
    sub.is_main = false;
    assert!(note_of(&sub, b"xkey").is_none());
    let mut uncached = response(tagged());
    uncached.cache = None;
    assert!(note_of(&uncached, b"xkey").is_none());
}

#[test]
fn recording_answers_for_every_tag() {
    let mut index = fresh();
    let tags: Vec<&[u8]> = vec![b"a", b"b", b"a"];
    assert_eq!(record_tags(&mut index, &tags, &key(1)), 3);
    assert_eq!((index.tags, index.keys), (2, 2));
    assert_eq!(index.take(b"a"), Some(vec![key(1)]));
    assert_eq!(index.take(b"b"), Some(vec![key(1)]));
}

#[test]
fn recording_stops_where_there_is_no_room() {
    let mut index = bounded(1);
    index.insert(b"a", &key(1)).unwrap();
    let tags: Vec<&[u8]> = vec![b"a", b"b"];
    // There is no room for a second key, and the tag that grows is kept.
    assert_eq!(record_tags(&mut index, &tags, &key(2)), 0);
    assert_eq!(index.take(b"a"), Some(vec![key(1)]));
    assert_eq!(index.take(b"b"), None);
}

#[test]
fn over_long_tag_is_left_out_alone() {
    let mut value = vec![b'x'; MAX_TAG_LEN + 1];
    value.extend_from_slice(b" a ");
    value.extend_from_slice(&[b'y'; MAX_TAG_LEN]);
    let r = response(vec![Header { name: b"xkey", value: &value }]);
    let note = note_of(&r, b"xkey").unwrap();
    assert_eq!(note.tags, vec![&b"a"[..], &[b'y'; MAX_TAG_LEN][..]]);
    let mut index = fresh();
    assert_eq!(record_tags(&mut index, &note.tags, &note.key), 2);
    assert_eq!(index.take(b"a"), Some(vec![key(5)]));
    assert_eq!(index.take(&[b'y'; MAX_TAG_LEN]), Some(vec![key(5)]));
    assert_eq!(index.tags, 0);
}

#[test]
fn recorded_key_outlives_other_recordings_and_purges() {
    let mut index = fresh();
    let tags: Vec<&[u8]> = vec![b"a", b"b"];
    record_tags(&mut index, &tags, &key(1));
    for n in 2..50 {
        let other = format!("other-{n}");
        let more: Vec<&[u8]> = vec![other.as_bytes(), b"a"];
        record_tags(&mut index, &more, &key(n));
    }
    assert!(index.take(b"b").is_some());
    assert!(index.take(b"other-7").is_some());
    let keys = index.take(b"a").unwrap();
    assert_eq!(keys.len(), 49);
    assert_eq!(keys[0], key(1));
}

#[test]
fn evicted_tag_is_lost_whole() {
    let mut index = bounded(4);
    let tags: Vec<&[u8]> = vec![b"a"];
    record_tags(&mut index, &tags, &key(1));
    record_tags(&mut index, &tags, &key(2));
    let tags: Vec<&[u8]> = vec![b"b", b"c", b"d"];
    assert_eq!(record_tags(&mut index, &tags, &key(3)), 3);
    assert_eq!(index.take(b"a"), None);
    assert_eq!(index.take(b"b"), Some(vec![key(3)]));
}

#[test]
fn tag_recorded_anew_after_its_eviction_starts_over() {
    let mut index = bounded(2);
    index.insert(b"a", &key(1)).unwrap();
    index.insert(b"a", &key(2)).unwrap();
    let tags: Vec<&[u8]> = vec![b"b", b"a"];
    // Room for `b` is made by evicting `a`, which is then recorded anew.
    assert_eq!(record_tags(&mut index, &tags, &key(3)), 2);
    assert_eq!((index.tags, index.keys, index.evicted), (2, 2, 1));
    assert_eq!(index.take(b"a"), Some(vec![key(3)]));
    assert_eq!(index.take(b"b"), Some(vec![key(3)]));
}

#[test]
fn store_places_what_it_has_room_for() {
    let mut store = HeapStore::new();
    assert_eq!(store.create(b"a", &key(1)), Ok(()));
    assert_eq!(store.push_key(b"a", &key(2)), Ok(()));
    assert_eq!((store.held, store.key_count(b"a")), (2, 2));
    assert_eq!(store.remove(b"a"), Some(vec![key(1), key(2)]));
    assert_eq!((store.held, store.coldest()), (0, None));
}
