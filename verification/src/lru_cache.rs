//! The recency-ordered store of resident views.
//!
//! The store itself is `lru::LruCache`. What it holds is described by two
//! names, `lru_entries` and `lru_cap`; the functions at the end of this file
//! call the store and say over those names what each call does. They are
//! taken on trust from the store's source. Everything else here is reasoning
//! about sequences of entries.

use crate::payload::NodeId;
use crate::view::NodeView;
use lru::LruCache;
use vstd::prelude::*;

verus! {

/// `lru::LruCache`, a map that keeps its entries in the order of their last
/// use and holds no more of them than it was made for.
#[verifier::external_type_specification]
#[verifier::external_body]
#[verifier::reject_recursive_types(K)]
#[verifier::reject_recursive_types(V)]
#[verifier::reject_recursive_types(S)]
pub struct ExLruCache<K, V, S>(LruCache<K, V, S>);

/// `lru::DefaultHasher`, the hasher that a store uses where none is named.
#[verifier::external_type_specification]
#[verifier::external_body]
pub struct ExDefaultHasher(lru::DefaultHasher);

/// The entries of a store, the most recently used first.
pub uninterp spec fn lru_entries(cache: LruCache<NodeId, NodeView>) -> Seq<(NodeId, NodeView)>;

/// The number of entries that a store was made to hold.
pub uninterp spec fn lru_cap(cache: LruCache<NodeId, NodeView>) -> nat;

/// The largest number of entries that a store can be made for.
pub const MAX_ENTRIES: usize = 1_048_576;

/// Some entry has the key `key`.
pub open spec fn has_key(entries: Seq<(NodeId, NodeView)>, key: NodeId) -> bool {
    exists|i: int| 0 <= i < entries.len() && (#[trigger] entries[i]).0 == key
}

/// The place of an entry with the key `key`, if there is one.
pub open spec fn index_of_key(entries: Seq<(NodeId, NodeView)>, key: NodeId) -> int {
    choose|i: int| 0 <= i < entries.len() && (#[trigger] entries[i]).0 == key
}

/// No two entries share a key.
pub open spec fn distinct_keys(entries: Seq<(NodeId, NodeView)>) -> bool {
    forall|i: int, j: int|
        0 <= i < j < entries.len() ==> (#[trigger] entries[i]).0 != (#[trigger] entries[j]).0
}

/// The entries after `key` was used: its entry has moved to the front.
pub open spec fn touched(entries: Seq<(NodeId, NodeView)>, key: NodeId) -> Seq<(NodeId, NodeView)> {
    if has_key(entries, key) {
        let i = index_of_key(entries, key);
        seq![entries[i]] + entries.remove(i)
    } else {
        entries
    }
}

/// The entries after `view` was put under `key` into a store made for `cap`
/// entries. A known key gets the new view and moves to the front. A new key
/// goes to the front, and where the store is full the entry at the back, the
/// least recently used, leaves. A store made for no entry stays empty.
pub open spec fn inserted(
    entries: Seq<(NodeId, NodeView)>,
    cap: nat,
    key: NodeId,
    view: NodeView,
) -> Seq<(NodeId, NodeView)> {
    if has_key(entries, key) {
        seq![(key, view)] + entries.remove(index_of_key(entries, key))
    } else if cap == 0 {
        entries
    } else if entries.len() == cap {
        seq![(key, view)] + entries.drop_last()
    } else {
        seq![(key, view)] + entries
    }
}

/// The bytes that each entry's view occupies, in the order of the entries.
pub open spec fn sizes_of(entries: Seq<(NodeId, NodeView)>) -> Seq<usize> {
    entries.map_values(|entry: (NodeId, NodeView)| entry.1.used_memory_bytes)
}

/// The sum of a sequence of sizes.
pub open spec fn sum_of(sizes: Seq<usize>) -> nat
    decreases sizes.len(),
{
    if sizes.len() == 0 {
        0
    } else {
        sum_of(sizes.drop_last()) + sizes.last() as nat
    }
}

/// Using a key changes neither which keys are there nor how many, and puts
/// the key's entry first.
pub proof fn lemma_touched(entries: Seq<(NodeId, NodeView)>, key: NodeId)
    requires
        distinct_keys(entries),
    ensures
        distinct_keys(touched(entries, key)),
        touched(entries, key).len() == entries.len(),
        forall|other: NodeId| has_key(touched(entries, key), other) == has_key(entries, other),
        has_key(entries, key) ==> touched(entries, key)[0] == entries[index_of_key(entries, key)],
        has_key(entries, key) ==> touched(entries, key)[0].0 == key,
{
    let after = touched(entries, key);
    if has_key(entries, key) {
        let i = index_of_key(entries, key);
        assert forall|a: int, b: int| 0 <= a < b < after.len() implies (#[trigger] after[a]).0 != (
        #[trigger] after[b]).0 by {
            let from_a = if a == 0 { i } else if a - 1 < i { a - 1 } else { a };
            let from_b = if b - 1 < i { b - 1 } else { b };
            assert(after[a] == entries[from_a]);
            assert(after[b] == entries[from_b]);
        }
        assert forall|other: NodeId| has_key(after, other) == has_key(entries, other) by {
            if has_key(entries, other) {
                let j = index_of_key(entries, other);
                let to = if j == i { 0 } else if j < i { j + 1 } else { j };
                assert(after[to] == entries[j]);
            }
            if has_key(after, other) {
                let a = index_of_key(after, other);
                let from = if a == 0 { i } else if a - 1 < i { a - 1 } else { a };
                assert(after[a] == entries[from]);
            }
        }
    }
}

/// Putting a view keeps the keys distinct and the store within its bound;
/// the only key that can be new is the one that was put, and it comes first.
pub proof fn lemma_inserted(entries: Seq<(NodeId, NodeView)>, cap: nat, key: NodeId, view: NodeView)
    requires
        distinct_keys(entries),
        entries.len() <= cap,
    ensures
        distinct_keys(inserted(entries, cap, key, view)),
        inserted(entries, cap, key, view).len() <= cap,
        entries.len() <= inserted(entries, cap, key, view).len() <= entries.len() + 1,
        forall|other: NodeId| #[trigger]
            has_key(inserted(entries, cap, key, view), other) ==> other == key || has_key(
                entries,
                other,
            ),
        cap > 0 ==> inserted(entries, cap, key, view).len() > 0 && inserted(
            entries,
            cap,
            key,
            view,
        )[0] == (key, view),
        cap > 0 ==> has_key(inserted(entries, cap, key, view), key),
{
    let after = inserted(entries, cap, key, view);
    if has_key(entries, key) {
        let i = index_of_key(entries, key);
        assert forall|a: int, b: int| 0 <= a < b < after.len() implies (#[trigger] after[a]).0 != (
        #[trigger] after[b]).0 by {
            let from_a = if a == 0 { i } else if a - 1 < i { a - 1 } else { a };
            let from_b = if b - 1 < i { b - 1 } else { b };
            assert(after[a].0 == entries[from_a].0);
            assert(after[b] == entries[from_b]);
        }
        assert forall|other: NodeId| #[trigger] has_key(after, other) implies other == key || has_key(
            entries,
            other,
        ) by {
            let a = index_of_key(after, other);
            if a > 0 {
                let from = if a - 1 < i { a - 1 } else { a };
                assert(after[a] == entries[from]);
            }
        }
        assert(after[0] == (key, view));
    } else if cap == 0 {
    } else {
        let kept = if entries.len() == cap { entries.drop_last() } else { entries };
        assert(after == seq![(key, view)] + kept);
        assert forall|a: int, b: int| 0 <= a < b < after.len() implies (#[trigger] after[a]).0 != (
        #[trigger] after[b]).0 by {
            assert(after[b] == entries[b - 1]);
            if a > 0 {
                assert(after[a] == entries[a - 1]);
            }
        }
        assert forall|other: NodeId| #[trigger] has_key(after, other) implies other == key || has_key(
            entries,
            other,
        ) by {
            let a = index_of_key(after, other);
            if a > 0 {
                assert(after[a] == entries[a - 1]);
            }
        }
        assert(after[0] == (key, view));
    }
}

/// Makes an empty store for `cap` entries with `LruCache::new`, which
/// reserves a table for that many at once. The bound keeps the size of that
/// table far from overflowing `usize`, where the call would panic.
#[verifier::external_body]
pub(crate) fn lru_new(cap: usize) -> (cache: LruCache<NodeId, NodeView>)
    requires
        cap <= MAX_ENTRIES,
    ensures
        lru_entries(cache) == Seq::<(NodeId, NodeView)>::empty(),
        lru_cap(cache) == cap,
{
    LruCache::new(cap)
}

/// Asks `LruCache::contains` whether the key has an entry. The call leaves
/// the order of the entries alone.
#[verifier::external_body]
pub(crate) fn lru_contains(cache: &LruCache<NodeId, NodeView>, key: &NodeId) -> (found: bool)
    ensures
        found == has_key(lru_entries(*cache), *key),
{
    cache.contains(key)
}

/// Looks the key up with `LruCache::get`. Where the key has an entry the
/// call moves it to the front and hands out its view; else it changes
/// nothing. It never changes the bound.
#[verifier::external_body]
pub(crate) fn lru_get<'a>(cache: &'a mut LruCache<NodeId, NodeView>, key: &NodeId) -> (view: Option<
    &'a NodeView,
>)
    ensures
        lru_cap(*final(cache)) == lru_cap(*old(cache)),
        lru_entries(*final(cache)) == touched(lru_entries(*old(cache)), *key),
        match view {
            Some(found) => has_key(lru_entries(*old(cache)), *key) && *found == lru_entries(
                *old(cache),
            )[index_of_key(lru_entries(*old(cache)), *key)].1,
            None => !has_key(lru_entries(*old(cache)), *key),
        },
{
    cache.get(key)
}

/// Stores the view with `LruCache::put` and drops what the call returns, the
/// view that the key had before. The entries change as `inserted` says; the
/// bound stays.
#[verifier::external_body]
pub(crate) fn lru_put(cache: &mut LruCache<NodeId, NodeView>, key: NodeId, view: NodeView)
    ensures
        lru_cap(*final(cache)) == lru_cap(*old(cache)),
        lru_entries(*final(cache)) == inserted(
            lru_entries(*old(cache)),
            lru_cap(*old(cache)),
            key,
            view,
        ),
{
    cache.put(key, view);
}

/// Walks the store with `LruCache::iter`, which visits the entries from the
/// most recently used on, and collects the bytes that each view occupies.
#[verifier::external_body]
pub(crate) fn lru_sizes(cache: &LruCache<NodeId, NodeView>) -> (sizes: Vec<usize>)
    ensures
        sizes@ == sizes_of(lru_entries(*cache)),
{
    cache.iter().map(|(_, view)| view.used_memory_bytes).collect()
}

} // verus!
