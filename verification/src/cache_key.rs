//! Cache keys and the forms they take: the node key of the cache tree, and
//! the hexadecimal file name on disk.

use vstd::arithmetic::div_mod::lemma_div_denominator;
use vstd::arithmetic::power::{lemma_pow_positive, pow};
use vstd::endian::*;
use vstd::layout::*;
use vstd::prelude::*;

verus! {

/// Length of an NGINX cache key: the MD5 of the cache key string.
pub const CACHE_KEY_LEN: usize = 16;

/// A cache entry is addressed by the MD5 of its cache key.
pub type CacheKey = [u8; CACHE_KEY_LEN];

/// The number a string of bytes stands for when its first byte is the least
/// significant one.
pub open spec fn little_endian(bytes: Seq<u8>) -> nat
    decreases bytes.len(),
{
    if bytes.len() == 0 {
        0
    } else {
        bytes.first() as nat + 256 * little_endian(bytes.drop_first())
    }
}

/// The number whose memory image is `bytes` on a machine of byte order `order`.
pub open spec fn word_value(order: Endian, bytes: Seq<u8>) -> nat {
    match order {
        Endian::Little => little_endian(bytes),
        Endian::Big => little_endian(bytes.reverse()),
    }
}

/// The bytes of a key that NGINX copies into the integer field of a tree node.
pub open spec fn node_prefix(key: Seq<u8>) -> Seq<u8> {
    key.take(size_of::<usize>() as int)
}

/// `usize::from_ne_bytes`: the integer whose memory representation, in the
/// machine's own byte order, is `bytes`.
#[verifier::external_body]
fn native_word(bytes: &[u8]) -> (word: usize)
    requires
        bytes@.len() == size_of::<usize>(),
    ensures
        word == word_value(endianness(), bytes@),
{
    usize::from_ne_bytes(bytes.try_into().unwrap())
}

/// The key NGINX stores in the cache rbtree node.
///
/// NGINX copies the leading `size_of::<usize>()` bytes of the cache key into
/// an integer field verbatim, so the value is native-endian and its width
/// follows the pointer width.
pub fn node_key(key: &CacheKey) -> (word: usize)
    ensures
        word == word_value(endianness(), node_prefix(key@)),
{
    let prefix: usize = core::mem::size_of::<usize>();
    let bytes: &[u8] = key;
    native_word(&bytes[0..prefix])
}

/// The remainder of the cache key, held in the node's own `key` field and
/// compared bytewise when the integer keys are equal.
pub fn node_key_rest(key: &CacheKey) -> (rest: &[u8])
    ensures
        rest@ == key@.skip(size_of::<usize>() as int),
        node_prefix(key@) + rest@ == key@,
{
    broadcast use group_layout_axioms;

    assert(node_prefix(key@) + key@.skip(size_of::<usize>() as int) =~= key@);
    let bytes: &[u8] = key;
    &bytes[core::mem::size_of::<usize>()..CACHE_KEY_LEN]
}

/// The lowercase hexadecimal digit for a value below sixteen.
pub open spec fn hex_digit(value: int) -> u8 {
    if value < 10 {
        ('0' as u8 + value) as u8
    } else {
        ('a' as u8 + value - 10) as u8
    }
}

/// The bytes of `src` as lowercase hexadecimal, two digits each.
pub open spec fn hex(src: Seq<u8>) -> Seq<u8> {
    Seq::new(
        2 * src.len(),
        |i: int|
            if i % 2 == 0 {
                hex_digit(src[i / 2] as int / 16)
            } else {
                hex_digit(src[i / 2] as int % 16)
            },
    )
}

fn digit(value: u8) -> (c: u8)
    requires
        value < 16,
    ensures
        c == hex_digit(value as int),
{
    if value < 10 {
        '0' as u8 + value
    } else {
        'a' as u8 + (value - 10)
    }
}

/// Writes `src` to `dst` as lowercase hex, as NGINX names its cache files.
///
/// Returns the number of bytes written, or `None` if `dst` is too small.
pub fn hex_encode(src: &[u8], dst: &mut [u8]) -> (written: Option<usize>)
    ensures
        written is None <==> old(dst)@.len() < 2 * src@.len(),
        written is None ==> final(dst)@ == old(dst)@,
        written matches Some(n) ==> {
            &&& n == 2 * src@.len()
            &&& final(dst)@ == hex(src@) + old(dst)@.skip(n as int)
        },
{
    if dst.len() / 2 < src.len() {
        return None;
    }
    let needed: usize = src.len() * 2;
    let mut i: usize = 0;
    while i < src.len()
        invariant
            i <= src@.len(),
            needed == 2 * src@.len(),
            needed <= old(dst)@.len(),
            dst@ =~= hex(src@).take(2 * i) + old(dst)@.skip(2 * i),
        decreases src@.len() - i,
    {
        dst[i * 2] = digit(src[i] / 16);
        dst[i * 2 + 1] = digit(src[i] % 16);
        i += 1;
    }
    Some(needed)
}

/// Whether `c` is a hexadecimal digit of either case.
pub open spec fn is_hex_digit(c: u8) -> bool {
    ||| '0' as u8 <= c <= '9' as u8
    ||| 'a' as u8 <= c <= 'f' as u8
    ||| 'A' as u8 <= c <= 'F' as u8
}

/// The value of a hexadecimal digit.
pub open spec fn hex_value(c: u8) -> int {
    if '0' as u8 <= c <= '9' as u8 {
        c - '0' as u8
    } else if 'a' as u8 <= c <= 'f' as u8 {
        c - 'a' as u8 + 10
    } else {
        c - 'A' as u8 + 10
    }
}

/// Whether `text` is a cache key in hexadecimal.
pub open spec fn is_hex_key(text: Seq<u8>) -> bool {
    &&& text.len() == 2 * CACHE_KEY_LEN
    &&& forall|i: int| 0 <= i < text.len() ==> is_hex_digit(#[trigger] text[i])
}

/// The bytes that hexadecimal `text` stands for.
pub open spec fn unhex(text: Seq<u8>) -> Seq<u8> {
    Seq::new(
        text.len() / 2,
        |i: int| (16 * hex_value(text[2 * i]) + hex_value(text[2 * i + 1])) as u8,
    )
}

fn digit_value(c: u8) -> (value: Option<u8>)
    ensures
        value is Some <==> is_hex_digit(c),
        value matches Some(v) ==> v == hex_value(c) && v < 16,
{
    if '0' as u8 <= c && c <= '9' as u8 {
        Some(c - '0' as u8)
    } else if 'a' as u8 <= c && c <= 'f' as u8 {
        Some(c - 'a' as u8 + 10)
    } else if 'A' as u8 <= c && c <= 'F' as u8 {
        Some(c - 'A' as u8 + 10)
    } else {
        None
    }
}

/// Reads a cache key from its hexadecimal form.
///
/// Returns whether `src` was one. If it was not, `dst` keeps its value.
pub fn hex_decode(src: &[u8], dst: &mut CacheKey) -> (decoded: bool)
    ensures
        decoded == is_hex_key(src@),
        final(dst)@ == if decoded {
            unhex(src@)
        } else {
            old(dst)@
        },
{
    if src.len() != 2 * CACHE_KEY_LEN {
        return false;
    }
    let mut key: CacheKey = [0;CACHE_KEY_LEN];
    let mut i: usize = 0;
    while i < CACHE_KEY_LEN
        invariant
            i <= CACHE_KEY_LEN,
            src@.len() == 2 * CACHE_KEY_LEN,
            *dst == *old(dst),
            forall|j: int| 0 <= j < 2 * i ==> is_hex_digit(#[trigger] src@[j]),
            forall|j: int| 0 <= j < i ==> #[trigger] key@[j] == unhex(src@)[j],
        decreases CACHE_KEY_LEN - i,
    {
        match (digit_value(src[2 * i]), digit_value(src[2 * i + 1])) {
            (Some(high), Some(low)) => {
                key[i] = high * 16 + low;
            },
            _ => {
                return false;
            },
        }
        i += 1;
    }
    *dst = key;
    assert(dst@ =~= unhex(src@));
    true
}

/// The cache key that the file at `path` is stored under.
pub open spec fn named_key(path: Seq<u8>) -> Option<Seq<u8>> {
    let len = path.len() as int;
    let temporary = len >= 2 * CACHE_KEY_LEN + 11 && path[len - 11] == '.' as u8;
    if !temporary && len >= 2 * CACHE_KEY_LEN && is_hex_key(path.skip(len - 2 * CACHE_KEY_LEN)) {
        Some(unhex(path.skip(len - 2 * CACHE_KEY_LEN)))
    } else {
        None
    }
}

/// Recovers the cache key from a cache file's path.
///
/// NGINX names each file after the hex of its key, so the trailing 32
/// characters are the key. Temporary files carry a numeric suffix and are
/// skipped, matching the check NGINX's own cache loader makes.
pub fn key_from_path(path: &[u8]) -> (key: Option<CacheKey>)
    ensures
        key is Some <==> named_key(path@) is Some,
        key matches Some(k) ==> named_key(path@) == Some(k@),
{
    let hex_len: usize = 2 * CACHE_KEY_LEN;
    let len: usize = path.len();
    if len < hex_len {
        return None;
    }
    // ".1234567890" appended to an otherwise complete name.
    if len >= hex_len + 11 && path[len - 11] == '.' as u8 {
        return None;
    }
    let mut key: CacheKey = [0;CACHE_KEY_LEN];
    assert(path@.subrange(len - hex_len, len as int) =~= path@.skip(len - hex_len));
    if hex_decode(&path[len - hex_len..len], &mut key) {
        Some(key)
    } else {
        None
    }
}

/// The path of a cache file before its directory levels are filled in: the
/// directory, room for a slash and the levels, the name, and a final zero.
pub open spec fn unhashed_path(dir: Seq<u8>, levels: nat, key: Seq<u8>) -> Seq<u8> {
    (dir + Seq::new(1 + levels, |i: int| 0u8) + hex(key)).push(0)
}

/// Lays out in `name` the path of the file that backs `key` in the cache under
/// `dir`, whose directory levels take `levels` bytes.
pub fn cache_file_path(dir: &[u8], levels: usize, key: &CacheKey, name: &mut [u8])
    requires
        old(name)@.len() == dir@.len() + 1 + levels + 2 * CACHE_KEY_LEN + 1,
    ensures
        final(name)@ == unhashed_path(dir@, levels as nat, key@),
{
    let mut digits: [u8; 32] = [0;32];
    hex_encode(key, &mut digits);
    assert(digits@ =~= hex(key@));
    let len: usize = name.len();
    let gap: usize = dir.len();
    let hex_start: usize = gap + 1 + levels;
    let mut i: usize = 0;
    while i < len
        invariant
            i <= len,
            len == name@.len(),
            gap == dir@.len(),
            hex_start == gap + 1 + levels,
            len == hex_start + 2 * CACHE_KEY_LEN + 1,
            digits@ == hex(key@),
            digits@.len() == 2 * CACHE_KEY_LEN,
            forall|j: int|
                0 <= j < i ==> #[trigger] name@[j] == unhashed_path(dir@, levels as nat, key@)[j],
        decreases len - i,
    {
        name[i] = if i < gap {
            dir[i]
        } else if i < hex_start || i == len - 1 {
            0
        } else {
            digits[i - hex_start]
        };
        i += 1;
    }
    assert(name@ =~= unhashed_path(dir@, levels as nat, key@));
}

proof fn lemma_hex_digit_value(value: int)
    requires
        0 <= value < 16,
    ensures
        is_hex_digit(hex_digit(value)),
        hex_value(hex_digit(value)) == value,
        hex_digit(value) != '.' as u8,
{
}

/// Hexadecimal loses nothing: reading back what was written gives the bytes.
pub proof fn law_hex_round_trip(src: Seq<u8>)
    ensures
        unhex(hex(src)) == src,
        forall|i: int| 0 <= i < hex(src).len() ==> is_hex_digit(#[trigger] hex(src)[i]),
{
    assert forall|i: int| 0 <= i < hex(src).len() implies is_hex_digit(#[trigger] hex(src)[i]) by {
        lemma_hex_digit_value(src[i / 2] as int / 16);
        lemma_hex_digit_value(src[i / 2] as int % 16);
    }
    assert forall|i: int| 0 <= i < src.len() implies #[trigger] unhex(hex(src))[i] == src[i] by {
        lemma_hex_digit_value(src[i] as int / 16);
        lemma_hex_digit_value(src[i] as int % 16);
        assert((2 * i) / 2 == i && (2 * i + 1) / 2 == i);
    }
    assert(unhex(hex(src)) =~= src);
}

/// A file named after the hex of its key gives that key back, whatever
/// directory it is in.
pub proof fn law_file_name_gives_its_key(dir: Seq<u8>, key: CacheKey)
    ensures
        named_key(dir + hex(key@)) == Some(key@),
{
    let path = dir + hex(key@);
    law_hex_round_trip(key@);
    assert(path.skip(path.len() - 2 * CACHE_KEY_LEN) =~= hex(key@));
    if path.len() >= 2 * CACHE_KEY_LEN + 11 {
        assert(path[path.len() - 11] == hex(key@)[2 * CACHE_KEY_LEN - 11]);
    }
}

/// A temporary file, whose name is that of a cache file with a dot and ten
/// characters behind it, gives no key.
pub proof fn law_temporary_files_give_no_key(dir: Seq<u8>, key: CacheKey, suffix: Seq<u8>)
    requires
        suffix.len() == 10,
    ensures
        named_key((dir + hex(key@)).push('.' as u8) + suffix) is None,
{
}

/// The path laid out for a key is one whose file gives that key back, however
/// its levels are filled in.
pub proof fn law_laid_out_path_gives_its_key(
    dir: Seq<u8>,
    levels: nat,
    key: CacheKey,
    filled: Seq<u8>,
)
    requires
        filled.len() == 1 + levels,
    ensures
        ({
            let path = unhashed_path(dir, levels, key@).drop_last();
            &&& path.len() == (dir + filled + hex(key@)).len()
            &&& path.take(dir.len() as int) == dir
            &&& named_key(path) == Some(key@)
            &&& named_key(dir + filled + hex(key@)) == Some(key@)
        }),
{
    let gap = Seq::new(1 + levels, |i: int| 0u8);
    let path = unhashed_path(dir, levels, key@).drop_last();
    assert(path =~= dir + gap + hex(key@));
    assert(path.take(dir.len() as int) =~= dir);
    law_file_name_gives_its_key(dir + gap, key);
    law_file_name_gives_its_key(dir + filled, key);
}

proof fn lemma_little_endian_injective(a: Seq<u8>, b: Seq<u8>)
    requires
        a.len() == b.len(),
        little_endian(a) == little_endian(b),
    ensures
        a == b,
    decreases a.len(),
{
    if a.len() > 0 {
        assert(little_endian(a) % 256 == a[0] as nat);
        assert(little_endian(b) % 256 == b[0] as nat);
        lemma_little_endian_injective(a.drop_first(), b.drop_first());
        assert(a =~= seq![a[0]] + a.drop_first());
        assert(b =~= seq![b[0]] + b.drop_first());
    } else {
        assert(a =~= b);
    }
}

/// Two keys share a node key exactly when their leading bytes are the same,
/// whatever the byte order of the machine.
pub proof fn law_node_key_is_the_prefix(order: Endian, a: CacheKey, b: CacheKey)
    ensures
        word_value(order, node_prefix(a@)) == word_value(order, node_prefix(b@)) <==> node_prefix(
            a@,
        ) == node_prefix(b@),
{
    broadcast use group_layout_axioms;

    let x = node_prefix(a@);
    let y = node_prefix(b@);
    if word_value(order, x) == word_value(order, y) {
        match order {
            Endian::Little => {
                lemma_little_endian_injective(x, y);
            },
            Endian::Big => {
                lemma_little_endian_injective(x.reverse(), y.reverse());
                assert(x =~= x.reverse().reverse());
                assert(y =~= y.reverse().reverse());
            },
        }
    }
}

/// The node key and the remainder cover the whole key: together they tell any
/// two keys apart.
pub proof fn law_node_key_and_rest_cover_the_key(order: Endian, a: CacheKey, b: CacheKey)
    requires
        word_value(order, node_prefix(a@)) == word_value(order, node_prefix(b@)),
        a@.skip(size_of::<usize>() as int) == b@.skip(size_of::<usize>() as int),
    ensures
        a == b,
{
    broadcast use group_layout_axioms;

    law_node_key_is_the_prefix(order, a, b);
    let n = size_of::<usize>() as int;
    assert(a@ =~= node_prefix(a@) + a@.skip(n));
    assert(b@ =~= node_prefix(b@) + b@.skip(n));
    assert(a =~= b);
}

proof fn lemma_little_endian_digit(bytes: Seq<u8>, i: int)
    requires
        0 <= i < bytes.len(),
    ensures
        (little_endian(bytes) as int / pow(256, i as nat)) % 256 == bytes[i],
    decreases bytes.len(),
{
    let first = bytes.first() as int;
    let rest = little_endian(bytes.drop_first()) as int;
    let whole = little_endian(bytes) as int;
    assert(whole == first + 256 * rest);
    if i == 0 {
        assert(pow(256, 0) == 1) by {
            reveal(pow);
        }
        assert((first + 256 * rest) % 256 == first);
    } else {
        let below = pow(256, (i - 1) as nat);
        lemma_pow_positive(256, (i - 1) as nat);
        assert(pow(256, i as nat) == 256 * below) by {
            reveal(pow);
        }
        lemma_div_denominator(whole, 256, below);
        assert(whole / 256 == rest);
        lemma_little_endian_digit(bytes.drop_first(), i - 1);
        assert(bytes.drop_first()[i - 1] == bytes[i]);
    }
}

/// The node key is the leading bytes of the key as they stand in memory: the
/// digits of the word to the base 256 are those bytes, the first being the
/// least significant on a little-endian machine and the most significant on a
/// big-endian one.
pub proof fn law_node_key_has_the_leading_bytes(key: CacheKey, i: int)
    requires
        0 <= i < size_of::<usize>(),
    ensures
        (word_value(Endian::Little, node_prefix(key@)) as int / pow(256, i as nat)) % 256 == key@[i],
        (word_value(Endian::Big, node_prefix(key@)) as int / pow(
            256,
            (size_of::<usize>() - 1 - i) as nat,
        )) % 256 == key@[i],
{
    broadcast use group_layout_axioms;

    let prefix = node_prefix(key@);
    lemma_little_endian_digit(prefix, i);
    lemma_little_endian_digit(prefix.reverse(), size_of::<usize>() - 1 - i);
}

/// Each byte is written as two digits of `0123456789abcdef`, the high half
/// first.
pub proof fn law_hex_writes_two_digits_a_byte(src: Seq<u8>, i: int)
    requires
        0 <= i < src.len(),
    ensures
        hex(src).len() == 2 * src.len(),
        hex(src)[2 * i] == "0123456789abcdef"@[src[i] as int / 16] as u8,
        hex(src)[2 * i + 1] == "0123456789abcdef"@[src[i] as int % 16] as u8,
{
    reveal_strlit("0123456789abcdef");
    assert((2 * i) / 2 == i && (2 * i + 1) / 2 == i && (2 * i) % 2 == 0 && (2 * i + 1) % 2 == 1);
    assert(hex(src)[2 * i] == hex_digit(src[i] as int / 16));
    assert(hex(src)[2 * i + 1] == hex_digit(src[i] as int % 16));
}

/// A key is read from 32 characters, each a digit or a letter from A to F in
/// either case, and from nothing else. Written out again it gives the same
/// characters, in lower case.
pub proof fn law_hex_keys_are_read_in_either_case(text: Seq<u8>)
    ensures
        is_hex_key(text) <==> text.len() == 32 && forall|i: int|
            0 <= i < text.len() ==> 48 <= #[trigger] text[i] <= 57 || 65 <= text[i] <= 70 || 97
                <= text[i] <= 102,
        is_hex_key(text) ==> hex(unhex(text)) == text.map_values(
            |c: u8|
                if 65 <= c <= 70 {
                    (c + 32) as u8
                } else {
                    c
                },
        ),
{
    if is_hex_key(text) {
        let bytes = unhex(text);
        let written = hex(bytes);
        let low = text.map_values(
            |c: u8|
                if 65 <= c <= 70 {
                    (c + 32) as u8
                } else {
                    c
                },
        );
        assert forall|i: int| 0 <= i < text.len() implies written[i] == low[i] by {
            let k = i / 2;
            assert(is_hex_digit(text[2 * k]) && is_hex_digit(text[2 * k + 1]));
            let high = hex_value(text[2 * k]);
            let small = hex_value(text[2 * k + 1]);
            assert(bytes[k] as int == 16 * high + small);
            assert((16 * high + small) / 16 == high && (16 * high + small) % 16 == small);
        }
        assert(written =~= low);
    }
}

/// A file gives a key exactly where its path ends in the 32 characters of one,
/// which is never so of a temporary file: a dot stands among its last 32. The
/// key is the one those characters spell.
pub proof fn law_key_is_spelt_by_the_end_of_the_path(dir: Seq<u8>, name: Seq<u8>)
    requires
        name.len() == 32,
    ensures
        named_key(dir + name) == if forall|i: int|
            0 <= i < name.len() ==> 48 <= #[trigger] name[i] <= 57 || 65 <= name[i] <= 70 || 97
                <= name[i] <= 102 {
            Some(unhex(name))
        } else {
            None
        },
{
    let path = dir + name;
    assert(path.skip(path.len() - 32) =~= name);
    assert(path[path.len() - 11] == name[21]);
    law_hex_keys_are_read_in_either_case(name);
}

/// A path of fewer than 32 characters gives no key.
pub proof fn law_short_paths_give_no_key(path: Seq<u8>)
    requires
        path.len() < 32,
    ensures
        named_key(path) is None,
{
}

/// The path laid out for a key is the directory, a gap for the levels and the
/// slash before them, the 32 characters of the key, and a final zero.
pub proof fn law_path_is_laid_out_in_order(dir: Seq<u8>, levels: nat, key: CacheKey)
    ensures
        ({
            let path = unhashed_path(dir, levels, key@);
            &&& path.len() == dir.len() + 1 + levels + 32 + 1
            &&& path.take(dir.len() as int) == dir
            &&& path.subrange(dir.len() + 1int + levels, dir.len() + 1int + levels + 32) == hex(key@)
            &&& path.last() == 0
        }),
{
    let path = unhashed_path(dir, levels, key@);
    assert(path.take(dir.len() as int) =~= dir);
    assert(path.subrange(dir.len() + 1int + levels, dir.len() + 1int + levels + 32) =~= hex(key@));
}

} // verus!
