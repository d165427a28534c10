use xkey::{
    format_usize, hex_encode, node_key, node_key_rest, split_tags, CacheKey, CACHE_KEY_LEN,
};

fn tags(value: &[u8]) -> Vec<&[u8]> {
    split_tags(value)
}

#[test]
fn splits_on_spaces() {
    assert_eq!(
        tags(b"product-1234 category-shoes"),
        vec![&b"product-1234"[..], &b"category-shoes"[..]]
    );
}

#[test]
fn splits_on_commas_and_tabs() {
    assert_eq!(tags(b"a,b\tc"), vec![&b"a"[..], &b"b"[..], &b"c"[..]]);
}

#[test]
fn drops_empty_runs() {
    assert_eq!(tags(b"  a ,,  b  "), vec![&b"a"[..], &b"b"[..]]);
}

#[test]
fn drops_trailing_newline() {
    assert_eq!(tags(b"a b\r\n"), vec![&b"a"[..], &b"b"[..]]);
}

#[test]
fn empty_header_yields_no_tags() {
    assert!(tags(b"").is_empty());
    assert!(tags(b"   ").is_empty());
}

#[test]
fn single_tag_survives_intact() {
    assert_eq!(tags(b"product-1234"), vec![&b"product-1234"[..]]);
}

/// The node key is a verbatim copy of the leading bytes, not a byte-order
/// conversion: a 4-byte big-endian reading would match nothing on a 64-bit
/// little-endian host.
#[test]
fn node_key_copies_bytes_verbatim() {
    let mut key: CacheKey = [0; CACHE_KEY_LEN];
    for (i, b) in key.iter_mut().enumerate() {
        *b = i as u8;
    }

    let prefix = core::mem::size_of::<usize>();
    let expected = {
        let mut bytes = [0u8; core::mem::size_of::<usize>()];
        bytes.copy_from_slice(&key[..prefix]);
        usize::from_ne_bytes(bytes)
    };

    assert_eq!(node_key(&key), expected);
    assert_ne!(node_key(&key), u32::from_be_bytes([0, 1, 2, 3]) as usize);
}

#[test]
fn node_key_and_rest_cover_the_whole_key() {
    let key: CacheKey = [0xab; CACHE_KEY_LEN];
    assert_eq!(
        node_key_rest(&key).len(),
        CACHE_KEY_LEN - core::mem::size_of::<usize>()
    );
}

#[test]
fn distinct_keys_give_distinct_nodes() {
    let mut a: CacheKey = [0; CACHE_KEY_LEN];
    let mut b: CacheKey = [0; CACHE_KEY_LEN];
    a[0] = 1;
    b[0] = 2;
    assert_ne!(node_key(&a), node_key(&b));
}

/// Keys differing only past the prefix share a node key and must be told
/// apart by the remainder, which is what the tree's tie-break compares.
#[test]
fn keys_differing_late_share_a_node_key() {
    let mut a: CacheKey = [0; CACHE_KEY_LEN];
    let mut b: CacheKey = [0; CACHE_KEY_LEN];
    a[CACHE_KEY_LEN - 1] = 1;
    b[CACHE_KEY_LEN - 1] = 2;

    assert_eq!(node_key(&a), node_key(&b));
    assert_ne!(node_key_rest(&a), node_key_rest(&b));
}

#[test]
fn hex_encodes_lowercase() {
    let mut out = [0u8; 32];
    let key: CacheKey = [
        0xa7, 0x70, 0xde, 0xe4, 0x80, 0x52, 0x5b, 0xf3, 0x4f, 0x9a, 0x7b, 0xa0, 0x8e, 0x55, 0x2c,
        0x3d,
    ];

    assert_eq!(hex_encode(&key, &mut out), Some(32));
    assert_eq!(&out[..], b"a770dee480525bf34f9a7ba08e552c3d");
}

#[test]
fn hex_refuses_a_short_buffer() {
    let mut out = [0u8; 31];
    assert_eq!(hex_encode(&[0u8; 16], &mut out), None);
}

#[test]
fn formats_counts() {
    let mut buf = [0u8; 20];
    assert_eq!(format_usize(&mut buf, 0), b"0");
    assert_eq!(format_usize(&mut buf, 7), b"7");
    assert_eq!(format_usize(&mut buf, 10), b"10");
    assert_eq!(format_usize(&mut buf, 1234), b"1234");
    assert_eq!(format_usize(&mut buf, usize::MAX).len(), 20);
}
