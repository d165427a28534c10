use xkey::cache_key::{cache_file_path, hex_decode, key_from_path};
use xkey::lookup::{clear_entry, lookup_step, EntryState, LookupStep, NodeFields};
use xkey::{hex_encode, node_key, node_key_rest, CacheKey, CACHE_KEY_LEN};

fn key(seed: u8) -> CacheKey {
    let mut key: CacheKey = [0; CACHE_KEY_LEN];
    for (i, byte) in key.iter_mut().enumerate() {
        *byte = seed.wrapping_mul(31).wrapping_add(7 * i as u8);
    }
    key
}

#[test]
fn node_key_reads_the_machine_word() {
    let mut k: CacheKey = [0; CACHE_KEY_LEN];
    let word: usize = 0x0102_0304;
    let image = word.to_ne_bytes();
    k[..image.len()].copy_from_slice(&image);
    k[CACHE_KEY_LEN - 1] = 0xee;
    assert_eq!(node_key(&k), 0x0102_0304);
    assert_eq!(node_key_rest(&k).len(), CACHE_KEY_LEN - image.len());
    assert_eq!(node_key_rest(&k).last(), Some(&0xee));
}

#[test]
fn keys_with_another_prefix_have_another_node_key() {
    let a = key(1);
    let mut b = a;
    b[0] ^= 1;
    let mut c = a;
    c[CACHE_KEY_LEN - 1] ^= 1;
    assert_ne!(node_key(&a), node_key(&b));
    assert_eq!(node_key(&a), node_key(&c));
    assert_ne!(node_key_rest(&a), node_key_rest(&c));
}

#[test]
fn hex_reads_back() {
    let k = key(9);
    let mut text = [0u8; 2 * CACHE_KEY_LEN];
    assert_eq!(hex_encode(&k, &mut text), Some(32));
    let mut back: CacheKey = [0; CACHE_KEY_LEN];
    assert!(hex_decode(&text, &mut back));
    assert_eq!(back, k);
}

#[test]
fn hex_decode_takes_both_cases() {
    let mut k: CacheKey = [0; CACHE_KEY_LEN];
    assert!(hex_decode(b"00112233445566778899aAbBcCdDeEfF", &mut k));
    assert_eq!(
        k,
        [0, 0x11, 0x22, 0x33, 0x44, 0x55, 0x66, 0x77, 0x88, 0x99, 0xaa, 0xbb, 0xcc, 0xdd, 0xee, 0xff]
    );
}

#[test]
fn hex_decode_refuses_what_is_no_key() {
    let mut k: CacheKey = [7; CACHE_KEY_LEN];
    assert!(!hex_decode(b"00112233445566778899aabbccddeef", &mut k));
    assert!(!hex_decode(b"00112233445566778899aabbccddeefff", &mut k));
    assert!(!hex_decode(b"00112233445566778899aabbccddeefg", &mut k));
    assert!(!hex_decode(b"", &mut k));
    assert_eq!(k, [7; CACHE_KEY_LEN]);
}

#[test]
fn cache_file_gives_its_key() {
    let path = b"/var/cache/nginx/f/ee/00112233445566778899aabbccddeeff";
    let k = key_from_path(path);
    assert_eq!(
        k,
        Some([0, 0x11, 0x22, 0x33, 0x44, 0x55, 0x66, 0x77, 0x88, 0x99, 0xaa, 0xbb, 0xcc, 0xdd, 0xee, 0xff])
    );
}

#[test]
fn bare_file_name_gives_its_key() {
    assert!(key_from_path(b"00112233445566778899aabbccddeeff").is_some());
}

#[test]
fn other_files_give_no_key() {
    // A temporary file, a name that is too short, and one that is not hex.
    assert_eq!(
        key_from_path(b"/c/f/ee/00112233445566778899aabbccddeeff.0000000001"),
        None
    );
    assert_eq!(key_from_path(b"/c/f/ee/eeff"), None);
    assert_eq!(key_from_path(b"/var/cache/nginx/f/ee/this-is-not-a-cache-file-name"), None);
}

#[test]
fn path_is_laid_out_with_room_for_levels() {
    let k: CacheKey = [0xab; CACHE_KEY_LEN];
    let mut path = [0xee; 6 + 1 + 5 + 32 + 1];
    cache_file_path(b"/cache", 5, &k, &mut path);
    assert_eq!(&path[..6], b"/cache");
    assert_eq!(&path[6..12], &[0; 6]);
    assert_eq!(&path[12..44], b"abababababababababababababababab");
    assert_eq!(path[44], 0);
}

#[test]
fn laid_out_path_gives_its_key() {
    let k = key(3);
    let mut path = [0; 16 + 1 + 5 + 32 + 1];
    cache_file_path(b"/var/cache/nginx", 5, &k, &mut path);
    path[16..22].copy_from_slice(b"/f/ee/");
    assert_eq!(key_from_path(&path[..54]), Some(k));
}

#[test]
fn walk_goes_by_the_node_key_first() {
    let at = |word| Some(NodeFields { word, rest: b"m", exists: true });
    assert_eq!(lookup_step(5, b"z", at(6)), LookupStep::Left);
    assert_eq!(lookup_step(5, b"a", at(4)), LookupStep::Right);
}

#[test]
fn walk_breaks_ties_bytewise() {
    let at = |rest, exists| Some(NodeFields { word: 5, rest, exists });
    assert_eq!(lookup_step(5, b"ab", at(b"ac", true)), LookupStep::Left);
    assert_eq!(lookup_step(5, b"ad", at(b"ac", true)), LookupStep::Right);
    assert_eq!(lookup_step(5, b"\x7f", at(b"\x80", true)), LookupStep::Left);
    assert_eq!(lookup_step(5, b"ac", at(b"ac", true)), LookupStep::Clear);
    assert_eq!(lookup_step(5, b"ac", at(b"ac", false)), LookupStep::Stop);
}

#[test]
fn walk_stops_below_the_last_node() {
    assert_eq!(lookup_step(5, b"ac", None), LookupStep::Stop);
}

struct Node {
    key: CacheKey,
    state: EntryState,
    left: Option<Box<Node>>,
    right: Option<Box<Node>>,
}

fn grow(tree: Option<Box<Node>>, key: CacheKey, fs_size: i64) -> Option<Box<Node>> {
    match tree {
        None => Some(Box::new(Node {
            key,
            state: EntryState { exists: true, fs_size },
            left: None,
            right: None,
        })),
        Some(mut node) => {
            let wanted = (node_key(&key), node_key_rest(&key));
            if wanted < (node_key(&node.key), node_key_rest(&node.key)) {
                node.left = grow(node.left, key, fs_size);
            } else {
                node.right = grow(node.right, key, fs_size);
            }
            Some(node)
        }
    }
}

fn invalidate(tree: &mut Option<Box<Node>>, key: &CacheKey, zone: &mut i64) -> bool {
    let mut place = tree;
    loop {
        let step = {
            let fields = place.as_ref().map(|node| NodeFields {
                word: node_key(&node.key),
                rest: node_key_rest(&node.key),
                exists: node.state.exists,
            });
            lookup_step(node_key(key), node_key_rest(key), fields)
        };
        match (step, place) {
            (LookupStep::Left, Some(node)) => place = &mut node.left,
            (LookupStep::Right, Some(node)) => place = &mut node.right,
            (LookupStep::Clear, Some(node)) => return clear_entry(&mut node.state, zone),
            _ => return false,
        }
    }
}

#[test]
fn invalidating_finds_each_entry_once() {
    let keys: Vec<CacheKey> = (0..40).map(key).collect();
    let mut tree = None;
    let mut zone: i64 = 0;
    for (i, k) in keys.iter().enumerate() {
        tree = grow(tree, *k, i as i64 + 1);
        zone += i as i64 + 1;
    }
    assert_eq!(zone, 820);
    assert!(invalidate(&mut tree, &keys[9], &mut zone));
    assert_eq!(zone, 810);
    // The node is still there, but no longer stands for an entry.
    assert!(!invalidate(&mut tree, &keys[9], &mut zone));
    assert_eq!(zone, 810);
    assert!(!invalidate(&mut tree, &[0xff; CACHE_KEY_LEN], &mut zone));
    for (i, k) in keys.iter().enumerate() {
        assert_eq!(invalidate(&mut tree, k, &mut zone), i != 9);
    }
    assert_eq!(zone, 0);
}

#[test]
fn clearing_returns_the_size_once() {
    let mut entry = EntryState { exists: true, fs_size: 12 };
    let mut zone: i64 = 100;
    assert!(clear_entry(&mut entry, &mut zone));
    assert_eq!((entry.exists, entry.fs_size, zone), (false, 0, 88));
    assert!(!clear_entry(&mut entry, &mut zone));
    assert_eq!(zone, 88);
}
