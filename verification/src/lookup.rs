//! Finding one entry in NGINX's cache tree and clearing it.
//!
//! The tree is ordered on the full cache key: first on the node key, the
//! leading bytes of the key as an integer, then bytewise on the remainder.
//! The nodes live in shared memory, so whoever walks the tree reads one node
//! at a time and asks here where to go next.

use vstd::prelude::*;

verus! {

/// What the walk reads of one tree node.
pub struct NodeFields<'a> {
    /// The node key.
    pub word: usize,
    /// The remainder of the cache key.
    pub rest: &'a [u8],
    /// Whether the node stands for an entry that is in the cache.
    pub exists: bool,
}

/// What the walk does at one place of the tree.
#[derive(Clone, Copy, Debug, PartialEq, Eq)]
pub enum LookupStep {
    /// Go on in the left subtree.
    Left,
    /// Go on in the right subtree.
    Right,
    /// This is the entry, and it is in the cache: clear it and stop.
    Clear,
    /// There is no such entry in the cache: stop.
    Stop,
}

/// The order of byte strings: that of their first difference, where a string
/// precedes those that it begins.
pub open spec fn precedes(a: Seq<u8>, b: Seq<u8>) -> bool
    decreases a.len(),
{
    if b.len() == 0 {
        false
    } else if a.len() == 0 {
        true
    } else if a[0] != b[0] {
        a[0] < b[0]
    } else {
        precedes(a.drop_first(), b.drop_first())
    }
}

/// A place in the order of the tree.
#[verifier::ext_equal]
pub struct NodeKey {
    pub word: usize,
    pub rest: Seq<u8>,
}

impl NodeKey {
    /// The order of the tree.
    pub open spec fn before(self, other: NodeKey) -> bool {
        self.word < other.word || (self.word == other.word && precedes(self.rest, other.rest))
    }
}

/// Where a walk for `wanted` goes at a node with key `at`.
pub open spec fn step_at(wanted: NodeKey, at: NodeKey, exists: bool) -> LookupStep {
    if wanted.before(at) {
        LookupStep::Left
    } else if wanted != at {
        LookupStep::Right
    } else if exists {
        LookupStep::Clear
    } else {
        LookupStep::Stop
    }
}

enum Side {
    Before,
    Same,
    After,
}

fn side_of(a: &[u8], b: &[u8]) -> (side: Side)
    ensures
        side is Before <==> precedes(a@, b@),
        side is Same <==> a@ == b@,
{
    let mut i: usize = 0;
    assert(a@.skip(0) =~= a@ && b@.skip(0) =~= b@);
    while i < a.len() && i < b.len()
        invariant
            i <= a@.len(),
            i <= b@.len(),
            a@.take(i as int) == b@.take(i as int),
            precedes(a@, b@) == precedes(a@.skip(i as int), b@.skip(i as int)),
        decreases a@.len() - i,
    {
        if a[i] < b[i] {
            return Side::Before;
        }
        if a[i] > b[i] {
            return Side::After;
        }
        proof {
            assert(a@.take(i + 1) =~= a@.take(i as int).push(a@[i as int]));
            assert(b@.take(i + 1) =~= b@.take(i as int).push(b@[i as int]));
            assert(a@.skip(i as int).drop_first() =~= a@.skip(i + 1));
            assert(b@.skip(i as int).drop_first() =~= b@.skip(i + 1));
        }
        i += 1;
    }
    proof {
        if a@.len() == b@.len() {
            assert(a@.take(i as int) =~= a@);
            assert(b@.take(i as int) =~= b@);
        }
    }
    if i < b.len() {
        Side::Before
    } else if i < a.len() {
        Side::After
    } else {
        Side::Same
    }
}

/// Decides what a walk for the key with node key `word` and remainder `rest`
/// does at `node`, or below the last node if there is none.
pub fn lookup_step(word: usize, rest: &[u8], node: Option<NodeFields>) -> (step: LookupStep)
    ensures
        step == match node {
            None => LookupStep::Stop,
            Some(n) => step_at(
                NodeKey { word, rest: rest@ },
                NodeKey { word: n.word, rest: n.rest@ },
                n.exists,
            ),
        },
{
    match node {
        None => LookupStep::Stop,
        Some(n) => {
            if word < n.word {
                return LookupStep::Left;
            }
            if word > n.word {
                return LookupStep::Right;
            }
            match side_of(rest, n.rest) {
                Side::Before => LookupStep::Left,
                Side::After => LookupStep::Right,
                Side::Same => if n.exists {
                    LookupStep::Clear
                } else {
                    LookupStep::Stop
                },
            }
        },
    }
}

/// The accounting of one cache entry.
pub struct EntryState {
    /// Whether the entry is in the cache.
    pub exists: bool,
    /// What it takes up on disk.
    pub fs_size: i64,
}

/// An entry and its zone's size once the entry has been cleared, and whether
/// it was in the cache.
pub open spec fn cleared(entry: EntryState, zone_size: int) -> (EntryState, int, bool) {
    if entry.exists {
        (EntryState { exists: false, fs_size: 0 }, zone_size - entry.fs_size, true)
    } else {
        (entry, zone_size, false)
    }
}

/// Clearing an entry takes it out of the cache and nothing else: it is found
/// exactly where it was in the cache, it is not afterwards, and what the zone
/// accounts for beside it is the same. One that was not in the cache keeps its
/// size, and so does the zone.
pub proof fn law_clearing_keeps_the_accounts(entry: EntryState, zone_size: int)
    ensures
        ({
            let (after, size, found) = cleared(entry, zone_size);
            let before_beside = zone_size - if entry.exists {
                entry.fs_size as int
            } else {
                0
            };
            &&& found <==> entry.exists
            &&& !after.exists
            &&& size == before_beside
            &&& found ==> after.fs_size == 0
            &&& !found ==> after.fs_size == entry.fs_size
        }),
{
}

/// Clears an entry's accounting, returning its size to the zone's.
///
/// The node itself stays in the tree: removing it outright would race with
/// requests still holding a reference to it. Returns whether the entry was in
/// the cache.
pub fn clear_entry(entry: &mut EntryState, zone_size: &mut i64) -> (found: bool)
    requires
        old(entry).exists ==> i64::MIN <= *old(zone_size) - old(entry).fs_size <= i64::MAX,
    ensures
        cleared(*old(entry), *old(zone_size) as int) == (
            *final(entry),
            *final(zone_size) as int,
            found,
        ),
        found == old(entry).exists,
        !final(entry).exists,
        final(entry).fs_size == if found {
            0
        } else {
            old(entry).fs_size
        },
        *final(zone_size) == if found {
            *old(zone_size) - old(entry).fs_size
        } else {
            *old(zone_size) as int
        },
{
    if entry.exists {
        *zone_size = *zone_size - entry.fs_size;
        entry.fs_size = 0;
        entry.exists = false;
        true
    } else {
        false
    }
}

/// The cache tree as a whole.
pub enum CacheTree {
    Sentinel,
    Node {
        key: NodeKey,
        exists: bool,
        fs_size: int,
        left: Box<CacheTree>,
        right: Box<CacheTree>,
    },
}

impl CacheTree {
    /// Whether the tree has a node for `key`.
    pub open spec fn has(self, key: NodeKey) -> bool
        decreases self,
    {
        match self {
            CacheTree::Sentinel => false,
            CacheTree::Node { key: at, left, right, .. } => at == key || left.has(key)
                || right.has(key),
        }
    }

    /// Whether the tree has a node for `key` that stands for an entry in the
    /// cache.
    pub open spec fn live(self, key: NodeKey) -> bool
        decreases self,
    {
        match self {
            CacheTree::Sentinel => false,
            CacheTree::Node { key: at, exists, left, right, .. } => (at == key && exists)
                || left.live(key) || right.live(key),
        }
    }

    /// Whether the tree has a node for `key` with this accounting.
    pub open spec fn records(self, key: NodeKey, state: (bool, int)) -> bool
        decreases self,
    {
        match self {
            CacheTree::Sentinel => false,
            CacheTree::Node { key: at, exists, fs_size, left, right } => (at == key && (
            exists,
            fs_size,
            ) == state) || left.records(key, state) || right.records(key, state),
        }
    }

    /// Whether every node stands between those of its left and its right
    /// subtree.
    pub open spec fn ordered(self) -> bool
        decreases self,
    {
        match self {
            CacheTree::Sentinel => true,
            CacheTree::Node { key: at, left, right, .. } => {
                &&& left.ordered()
                &&& right.ordered()
                &&& forall|k: NodeKey| #[trigger] left.has(k) ==> k.before(at)
                &&& forall|k: NodeKey| #[trigger] right.has(k) ==> at.before(k)
            },
        }
    }

    /// What the entries in the cache take up together.
    pub open spec fn live_size(self) -> int
        decreases self,
    {
        match self {
            CacheTree::Sentinel => 0,
            CacheTree::Node { exists, fs_size, left, right, .. } => left.live_size()
                + right.live_size() + if exists {
                fs_size
            } else {
                0
            },
        }
    }

    /// The walk for `key`, from the root on, taking the step decided at each
    /// node: the tree it leaves, the size it returns to the zone, and whether
    /// it found an entry in the cache.
    pub open spec fn invalidated(self, key: NodeKey) -> (CacheTree, int, bool)
        decreases self,
    {
        match self {
            CacheTree::Sentinel => (self, 0, false),
            CacheTree::Node { key: at, exists, fs_size, left, right } => match step_at(
                key,
                at,
                exists,
            ) {
                LookupStep::Left => {
                    let (below, returned, found) = left.invalidated(key);
                    let left = Box::new(below);
                    (CacheTree::Node { key: at, exists, fs_size, left, right }, returned, found)
                },
                LookupStep::Right => {
                    let (below, returned, found) = right.invalidated(key);
                    let right = Box::new(below);
                    (CacheTree::Node { key: at, exists, fs_size, left, right }, returned, found)
                },
                LookupStep::Clear => (
                    CacheTree::Node { key: at, exists: false, fs_size: 0, left, right },
                    fs_size,
                    true,
                ),
                LookupStep::Stop => (self, 0, false),
            },
        }
    }
}

proof fn lemma_precedes_irreflexive(a: Seq<u8>)
    ensures
        !precedes(a, a),
    decreases a.len(),
{
    if a.len() > 0 {
        lemma_precedes_irreflexive(a.drop_first());
    }
}

proof fn lemma_precedes_asymmetric(a: Seq<u8>, b: Seq<u8>)
    requires
        precedes(a, b),
    ensures
        !precedes(b, a),
    decreases a.len(),
{
    if a.len() > 0 && b.len() > 0 && a[0] == b[0] {
        lemma_precedes_asymmetric(a.drop_first(), b.drop_first());
    }
}

proof fn lemma_live_has(tree: CacheTree, key: NodeKey)
    requires
        tree.live(key),
    ensures
        tree.has(key),
    decreases tree,
{
    match tree {
        CacheTree::Sentinel => {},
        CacheTree::Node { key: at, exists, fs_size, left, right } => {
            if left.live(key) {
                lemma_live_has(*left, key);
            } else if right.live(key) {
                lemma_live_has(*right, key);
            }
        },
    }
}

proof fn lemma_records_has(tree: CacheTree, key: NodeKey, state: (bool, int))
    requires
        tree.records(key, state),
    ensures
        tree.has(key),
    decreases tree,
{
    match tree {
        CacheTree::Sentinel => {},
        CacheTree::Node { key: at, exists, fs_size, left, right } => {
            if left.records(key, state) {
                lemma_records_has(*left, key, state);
            } else if right.records(key, state) {
                lemma_records_has(*right, key, state);
            }
        },
    }
}

/// Invalidating a key finds it exactly when it is in the cache.
///
/// Afterwards it is not in the cache, every other node's accounting is as it
/// was, the tree holds the same nodes in the same order, and what was returned
/// to the zone is what the entries in the cache take up less. A node that was
/// found has no size any more; one that was not is as it was.
pub proof fn law_invalidate(tree: CacheTree, key: NodeKey)
    requires
        tree.ordered(),
    ensures
        ({
            let (after, returned, found) = tree.invalidated(key);
            &&& found == tree.live(key)
            &&& !after.live(key)
            &&& forall|k: NodeKey| k != key ==> #[trigger] after.live(k) == tree.live(k)
            &&& forall|k: NodeKey| #[trigger] after.has(k) == tree.has(k)
            &&& forall|k: NodeKey, state: (bool, int)|
                k != key ==> #[trigger] after.records(k, state) == tree.records(k, state)
            &&& forall|state: (bool, int)| #[trigger]
                after.records(key, state) == if found {
                    state == (false, 0int)
                } else {
                    tree.records(key, state)
                }
            &&& after.ordered()
            &&& after.live_size() == tree.live_size() - returned
        }),
    decreases tree,
{
    match tree {
        CacheTree::Sentinel => {},
        CacheTree::Node { key: at, exists, fs_size, left, right } => {
            law_invalidate(*left, key);
            law_invalidate(*right, key);
            lemma_precedes_irreflexive(at.rest);
            assert forall|k: NodeKey| left.live(k) implies left.has(k) by {
                lemma_live_has(*left, k);
            }
            assert forall|k: NodeKey| right.live(k) implies right.has(k) by {
                lemma_live_has(*right, k);
            }
            assert forall|k: NodeKey, state: (bool, int)| left.records(k, state) implies left.has(
                k,
            ) by {
                lemma_records_has(*left, k, state);
            }
            assert forall|k: NodeKey, state: (bool, int)| right.records(
                k,
                state,
            ) implies right.has(k) by {
                lemma_records_has(*right, k, state);
            }
            if key.word == at.word && precedes(key.rest, at.rest) {
                lemma_precedes_asymmetric(key.rest, at.rest);
            }
            if key.word == at.word && precedes(at.rest, key.rest) {
                lemma_precedes_asymmetric(at.rest, key.rest);
            }
            assert(key.before(at) ==> !right.has(key));
            assert(!key.before(at) ==> !left.has(key));
            let after = tree.invalidated(key).0;
            let below_left = left.invalidated(key).0;
            let below_right = right.invalidated(key).0;
            assert forall|k: NodeKey| #[trigger] after.has(k) == tree.has(k) by {
                assert(below_left.has(k) == left.has(k));
                assert(below_right.has(k) == right.has(k));
            }
            assert forall|k: NodeKey| k != key implies #[trigger] after.live(k) == tree.live(k) by {
                assert(below_left.live(k) == left.live(k));
                assert(below_right.live(k) == right.live(k));
            }
            assert forall|k: NodeKey, state: (bool, int)| k != key implies #[trigger] after.records(
                k,
                state,
            ) == tree.records(k, state) by {
                assert(below_left.records(k, state) == left.records(k, state));
                assert(below_right.records(k, state) == right.records(k, state));
            }
            assert forall|state: (bool, int)| #[trigger] after.records(key, state) == if tree.live(
                key,
            ) {
                state == (false, 0int)
            } else {
                tree.records(key, state)
            } by {
                if key.before(at) {
                    assert(!right.records(key, state) && !right.live(key));
                    assert(below_left.records(key, state) == if left.live(key) {
                        state == (false, 0int)
                    } else {
                        left.records(key, state)
                    });
                } else if key != at {
                    assert(!left.records(key, state) && !left.live(key));
                    assert(below_right.records(key, state) == if right.live(key) {
                        state == (false, 0int)
                    } else {
                        right.records(key, state)
                    });
                } else {
                    assert(!right.has(key));
                    assert(!left.records(key, state) && !right.records(key, state));
                }
            }
        },
    }
}

/// One byte string precedes another by the first byte in which they differ,
/// or by ending first.
pub proof fn law_first_difference_orders(a: Seq<u8>, b: Seq<u8>, i: int)
    requires
        0 <= i <= a.len(),
        i <= b.len(),
        a.take(i) == b.take(i),
        i < a.len() && i < b.len() ==> a[i] != b[i],
    ensures
        precedes(a, b) <==> i < b.len() && (i == a.len() || a[i] < b[i]),
    decreases i,
{
    if i > 0 {
        assert(a.take(i)[0] == a[0] && b.take(i)[0] == b[0]);
        if i < a.len() && i < b.len() {
            assert(a.drop_first()[i - 1] == a[i] && b.drop_first()[i - 1] == b[i]);
        }
        assert(a.drop_first().take(i - 1) =~= a.take(i).drop_first());
        assert(b.drop_first().take(i - 1) =~= b.take(i).drop_first());
        law_first_difference_orders(a.drop_first(), b.drop_first(), i - 1);
    }
}

/// A walk goes left where the wanted key is smaller than the node's and right
/// where it is larger, by the node key first and by the first byte in which
/// the remainders differ on a tie. Where they are the same it ends, and clears
/// the entry exactly if it is in the cache.
pub proof fn law_walk_goes_by_the_whole_key(wanted: NodeKey, at: NodeKey, live: bool, i: int)
    requires
        0 <= i <= wanted.rest.len(),
        i <= at.rest.len(),
        wanted.rest.take(i) == at.rest.take(i),
        i < wanted.rest.len() && i < at.rest.len() ==> wanted.rest[i] != at.rest[i],
    ensures
        step_at(wanted, at, live) == LookupStep::Left <==> wanted.word < at.word || (wanted.word
            == at.word && i < at.rest.len() && (i == wanted.rest.len() || wanted.rest[i]
            < at.rest[i])),
        step_at(wanted, at, live) == LookupStep::Right <==> wanted.word > at.word || (wanted.word
            == at.word && i < wanted.rest.len() && (i == at.rest.len() || wanted.rest[i]
            > at.rest[i])),
        wanted.word == at.word && i == at.rest.len() && i == wanted.rest.len() ==> step_at(
            wanted,
            at,
            live,
        ) == if live {
            LookupStep::Clear
        } else {
            LookupStep::Stop
        },
{
    law_first_difference_orders(wanted.rest, at.rest, i);
    if i == at.rest.len() && i == wanted.rest.len() {
        assert(wanted.rest.take(i) =~= wanted.rest);
        assert(at.rest.take(i) =~= at.rest);
    }
}

} // verus!
