//! A bounded cache of preimages that evicts the least recently used entry.

use crate::key::PreimageKey;
use vstd::prelude::*;
use vstd::slice::slice_to_vec;

verus! {

/// What a cache holds: keys with their bytes, the least recently used entry
/// first and the most recently used last.
pub type Entries = Seq<(PreimageKey, Seq<u8>)>;

/// The entry at position `i` has the given key.
pub open spec fn lru_holds_at(entries: Entries, i: int, key: PreimageKey) -> bool {
    0 <= i < entries.len() && entries[i].0 == key
}

/// Some entry has the given key.
pub open spec fn lru_contains(entries: Entries, key: PreimageKey) -> bool {
    exists|i: int| lru_holds_at(entries, i, key)
}

/// The position of the entry with the given key.
pub open spec fn lru_position(entries: Entries, key: PreimageKey) -> int {
    choose|i: int| lru_holds_at(entries, i, key)
}

/// The bytes cached under a key, if any.
pub open spec fn lru_lookup(entries: Entries, key: PreimageKey) -> Option<Seq<u8>> {
    if lru_contains(entries, key) {
        Some(entries[lru_position(entries, key)].1)
    } else {
        None
    }
}

/// The cache after a key was used: its entry, if there is one, becomes the
/// most recently used.
pub open spec fn lru_touch(entries: Entries, key: PreimageKey) -> Entries {
    if lru_contains(entries, key) {
        let i = lru_position(entries, key);
        entries.remove(i).push(entries[i])
    } else {
        entries
    }
}

/// The cache after bytes were stored under a key. The entry becomes the most
/// recently used. Where the key is new and the cache is full, the least
/// recently used entry makes room.
pub open spec fn lru_put(
    entries: Entries,
    capacity: nat,
    key: PreimageKey,
    value: Seq<u8>,
) -> Entries {
    if lru_contains(entries, key) {
        entries.remove(lru_position(entries, key)).push((key, value))
    } else if entries.len() >= capacity {
        entries.drop_first().push((key, value))
    } else {
        entries.push((key, value))
    }
}

/// No key occurs twice among the items.
pub open spec fn distinct_keys(items: Entries) -> bool {
    forall|i: int, j: int| 0 <= i < j < items.len() ==> items[i].0 != items[j].0
}

/// No key occurs twice, and the entries fit the capacity, which is not zero.
pub open spec fn lru_wf(entries: Entries, capacity: nat) -> bool {
    &&& capacity > 0
    &&& entries.len() <= capacity
    &&& distinct_keys(entries)
}

/// The key is among the `m` most recently used entries.
pub open spec fn lru_recent(entries: Entries, key: PreimageKey, m: nat) -> bool {
    exists|i: int| lru_holds_at(entries, i, key) && entries.len() - m <= i
}

/// What a read of `key` that gives `bytes` makes of a cache: bytes that
/// were cached stay and the key is used; bytes that were not are stored.
pub open spec fn lru_read(
    before: Entries,
    capacity: nat,
    key: PreimageKey,
    bytes: Seq<u8>,
) -> Entries {
    if lru_lookup(before, key) == Some(bytes) {
        lru_touch(before, key)
    } else {
        lru_put(before, capacity, key, bytes)
    }
}

/// The cache after storing one item after the other.
pub open spec fn lru_put_all(entries: Entries, capacity: nat, items: Entries) -> Entries
    decreases items.len(),
{
    if items.len() == 0 {
        entries
    } else {
        lru_put(
            lru_put_all(entries, capacity, items.drop_last()),
            capacity,
            items.last().0,
            items.last().1,
        )
    }
}

/// In a well-formed cache a key stands at one position only.
pub proof fn lemma_position_unique(entries: Entries, capacity: nat, i: int, key: PreimageKey)
    requires
        lru_wf(entries, capacity),
        lru_holds_at(entries, i, key),
    ensures
        lru_contains(entries, key),
        lru_position(entries, key) == i,
        lru_lookup(entries, key) == Some(entries[i].1),
{
    let p = lru_position(entries, key);
    assert(lru_holds_at(entries, p, key));
    if p < i {
        assert(entries[p].0 != entries[i].0);
    } else if i < p {
        assert(entries[i].0 != entries[p].0);
    }
}

/// Using a key and storing under a key keep a cache well formed.
pub proof fn lemma_wf_preserved(entries: Entries, capacity: nat, key: PreimageKey, value: Seq<u8>)
    requires
        lru_wf(entries, capacity),
    ensures
        lru_wf(lru_touch(entries, key), capacity),
        lru_wf(lru_put(entries, capacity, key, value), capacity),
{
    if lru_contains(entries, key) {
        let i = lru_position(entries, key);
        assert(lru_holds_at(entries, i, key));
        let rest = entries.remove(i);
        assert forall|a: int| 0 <= a < rest.len() implies rest[a].0 != key by {
            if a < i {
                assert(entries[a].0 != entries[i].0);
            } else {
                assert(rest[a] == entries[a + 1]);
                assert(entries[i].0 != entries[a + 1].0);
            }
        }
        assert forall|a: int, b: int| 0 <= a < b < rest.len() implies rest[a].0 != rest[b].0 by {
            let a0 = if a < i { a } else { a + 1 };
            let b0 = if b < i { b } else { b + 1 };
            assert(rest[a] == entries[a0]);
            assert(rest[b] == entries[b0]);
            assert(entries[a0].0 != entries[b0].0);
        }
        let touched = rest.push(entries[i]);
        assert forall|a: int, b: int| 0 <= a < b < touched.len() implies touched[a].0
            != touched[b].0 by {
            if b < rest.len() {
                assert(rest[a].0 != rest[b].0);
            } else {
                assert(rest[a].0 != key);
            }
        }
        let stored = rest.push((key, value));
        assert forall|a: int, b: int| 0 <= a < b < stored.len() implies stored[a].0
            != stored[b].0 by {
            if b < rest.len() {
                assert(rest[a].0 != rest[b].0);
            } else {
                assert(rest[a].0 != key);
            }
        }
    } else {
        let base = if entries.len() >= capacity {
            entries.drop_first()
        } else {
            entries
        };
        let off: int = if entries.len() >= capacity {
            1
        } else {
            0
        };
        let stored = base.push((key, value));
        assert(stored =~= lru_put(entries, capacity, key, value));
        assert forall|a: int, b: int| 0 <= a < b < stored.len() implies stored[a].0
            != stored[b].0 by {
            assert(stored[a] == entries[a + off]);
            if b < base.len() {
                assert(stored[b] == entries[b + off]);
                assert(entries[a + off].0 != entries[b + off].0);
            } else {
                assert(!lru_holds_at(entries, a + off, key));
            }
        }
    }
}

/// What was stored under a key is found under it.
pub proof fn lemma_put_then_lookup(
    entries: Entries,
    capacity: nat,
    key: PreimageKey,
    value: Seq<u8>,
)
    requires
        lru_wf(entries, capacity),
    ensures
        lru_lookup(lru_put(entries, capacity, key, value), key) == Some(value),
{
    let stored = lru_put(entries, capacity, key, value);
    lemma_wf_preserved(entries, capacity, key, value);
    assert(lru_holds_at(stored, stored.len() - 1, key));
    lemma_position_unique(stored, capacity, stored.len() - 1, key);
}

/// Using a key changes no lookup.
pub proof fn lemma_touch_keeps_lookups(
    entries: Entries,
    capacity: nat,
    key: PreimageKey,
    other: PreimageKey,
)
    requires
        lru_wf(entries, capacity),
    ensures
        lru_lookup(lru_touch(entries, key), other) == lru_lookup(entries, other),
{
    if lru_contains(entries, key) {
        let i = lru_position(entries, key);
        assert(lru_holds_at(entries, i, key));
        let touched = lru_touch(entries, key);
        lemma_wf_preserved(entries, capacity, key, Seq::empty());
        if lru_contains(entries, other) {
            let j = lru_position(entries, other);
            assert(lru_holds_at(entries, j, other));
            let j2 = if j < i {
                j
            } else if j == i {
                touched.len() - 1
            } else {
                j - 1
            };
            assert(touched[j2] == entries[j]);
            assert(lru_holds_at(touched, j2, other));
            lemma_position_unique(touched, capacity, j2, other);
        } else if lru_contains(touched, other) {
            let j2 = lru_position(touched, other);
            assert(lru_holds_at(touched, j2, other));
            let j = if j2 == touched.len() - 1 {
                i
            } else if j2 < i {
                j2
            } else {
                j2 + 1
            };
            assert(touched[j2] == entries[j]);
            assert(lru_holds_at(entries, j, other));
        }
    }
}

/// Storing under one key leaves every other key as it was, but for the
/// least recently used one where a new key finds the cache full.
pub proof fn lemma_put_keeps_others(
    entries: Entries,
    capacity: nat,
    key: PreimageKey,
    value: Seq<u8>,
    other: PreimageKey,
)
    requires
        lru_wf(entries, capacity),
        other != key,
    ensures
        ({
            let evicts = !lru_contains(entries, key) && entries.len() >= capacity;
            lru_lookup(lru_put(entries, capacity, key, value), other) == if evicts && entries[0].0
                == other {
                None
            } else {
                lru_lookup(entries, other)
            }
        }),
{
    let stored = lru_put(entries, capacity, key, value);
    lemma_wf_preserved(entries, capacity, key, value);
    let evicts = !lru_contains(entries, key) && entries.len() >= capacity;
    // How positions of the old cache map into the new one, and back.
    let i = if lru_contains(entries, key) {
        lru_position(entries, key)
    } else if evicts {
        0
    } else {
        entries.len() as int
    };
    if lru_contains(entries, key) {
        assert(lru_holds_at(entries, i, key));
    }
    assert forall|a: int| 0 <= a < stored.len() - 1 implies stored[a] == entries[if a < i {
        a
    } else {
        a + 1
    }] by {}
    if lru_contains(stored, other) {
        let j2 = lru_position(stored, other);
        assert(lru_holds_at(stored, j2, other));
        assert(j2 < stored.len() - 1);
        let j = if j2 < i {
            j2
        } else {
            j2 + 1
        };
        assert(lru_holds_at(entries, j, other));
        lemma_position_unique(entries, capacity, j, other);
        lemma_position_unique(stored, capacity, j2, other);
        if evicts && entries[0].0 == other {
            assert(entries[0].0 != entries[j].0);
        }
    } else if lru_contains(entries, other) {
        let j = lru_position(entries, other);
        assert(lru_holds_at(entries, j, other));
        if j != i {
            let j2 = if j < i {
                j
            } else {
                j - 1
            };
            assert(lru_holds_at(stored, j2, other));
        } else {
            assert(evicts);
        }
    }
}

/// After a read the key is the most recently used, and its bytes are
/// cached. Every other key that was among the `m` most recently used, with
/// `m` below the capacity, is now among the `m + 1` most recently used, and
/// its bytes are cached as before.
pub proof fn lemma_read_ages(
    before: Entries,
    capacity: nat,
    key: PreimageKey,
    bytes: Seq<u8>,
    other: PreimageKey,
    m: nat,
)
    requires
        lru_wf(before, capacity),
    ensures
        lru_wf(lru_read(before, capacity, key, bytes), capacity),
        lru_lookup(lru_read(before, capacity, key, bytes), key) == Some(bytes),
        lru_recent(lru_read(before, capacity, key, bytes), key, 1),
        other != key && lru_recent(before, other, m) && m < capacity ==> {
            &&& lru_recent(lru_read(before, capacity, key, bytes), other, m + 1)
            &&& lru_lookup(lru_read(before, capacity, key, bytes), other) == lru_lookup(
                before,
                other,
            )
        },
{
    let after = lru_read(before, capacity, key, bytes);
    lemma_wf_preserved(before, capacity, key, bytes);
    let hit = lru_lookup(before, key) == Some(bytes);
    if hit {
        lemma_touch_keeps_lookups(before, capacity, key, key);
        let i = lru_position(before, key);
        assert(lru_holds_at(before, i, key));
        assert(lru_holds_at(after, after.len() - 1, key));
    } else {
        lemma_put_then_lookup(before, capacity, key, bytes);
        assert(lru_holds_at(after, after.len() - 1, key));
    }
    if other != key && lru_recent(before, other, m) && m < capacity {
        let j = choose|j: int| lru_holds_at(before, j, other) && before.len() - m <= j;
        lemma_position_unique(before, capacity, j, other);
        if hit {
            lemma_touch_keeps_lookups(before, capacity, key, other);
        } else {
            lemma_put_keeps_others(before, capacity, key, bytes, other);
            if !lru_contains(before, key) && before.len() >= capacity {
                assert(j > 0);
                if before[0].0 == other {
                    assert(before[0].0 != before[j].0);
                }
            }
        }
        // Where the other key stands now.
        let removed: int = if lru_contains(before, key) {
            lru_position(before, key)
        } else if before.len() >= capacity {
            0
        } else {
            before.len() as int
        };
        if lru_contains(before, key) {
            assert(lru_holds_at(before, removed, key));
        }
        let j2 = if j < removed {
            j
        } else {
            j - 1
        };
        assert(after[j2] == before[j]);
        assert(lru_holds_at(after, j2, other));
    }
}

/// The cache after one read after the other.
pub open spec fn lru_read_all(entries: Entries, capacity: nat, reads: Entries) -> Entries
    decreases reads.len(),
{
    if reads.len() == 0 {
        entries
    } else {
        lru_read(
            lru_read_all(entries, capacity, reads.drop_last()),
            capacity,
            reads.last().0,
            reads.last().1,
        )
    }
}

/// None of the reads is of the given key.
pub open spec fn reads_avoid(reads: Entries, key: PreimageKey) -> bool {
    forall|i: int| 0 <= i < reads.len() ==> (#[trigger] reads[i]).0 != key
}

/// The keys of the reads.
pub open spec fn read_keys(reads: Entries) -> Set<PreimageKey> {
    reads.map_values(|e: (PreimageKey, Seq<u8>)| e.0).to_set()
}

/// The place of the entry that a read of `key` takes out of the cache: the
/// key's own where it is cached, the least recently used one where the key
/// is new and the cache is full, none (a negative number) otherwise.
pub open spec fn lru_displaced(entries: Entries, capacity: nat, key: PreimageKey) -> int {
    if lru_contains(entries, key) {
        lru_position(entries, key)
    } else if entries.len() >= capacity {
        0
    } else {
        -1
    }
}

/// The entries without the one at `r`, and all of them where `r` is
/// negative.
pub open spec fn lru_without(entries: Entries, r: int) -> Entries {
    if r < 0 {
        entries
    } else {
        entries.remove(r)
    }
}

/// A read takes at most one entry out and puts the key, with the bytes
/// read, at the most recently used end.
pub proof fn lemma_read_shape(entries: Entries, capacity: nat, key: PreimageKey, bytes: Seq<u8>)
    requires
        lru_wf(entries, capacity),
    ensures
        lru_read(entries, capacity, key, bytes) == lru_without(
            entries,
            lru_displaced(entries, capacity, key),
        ).push((key, bytes)),
        -1 <= lru_displaced(entries, capacity, key) < entries.len() || entries.len() == 0,
        lru_displaced(entries, capacity, key) >= 0 ==> lru_displaced(entries, capacity, key)
            < entries.len(),
{
    if lru_contains(entries, key) {
        let i = lru_position(entries, key);
        assert(lru_holds_at(entries, i, key));
        if lru_lookup(entries, key) == Some(bytes) {
            assert(entries[i] == (key, bytes));
        }
    }
}

/// The key stands at `p` with its bytes, and the keys that were used after
/// it are exactly those of `later`.
pub open spec fn lru_followed_by(
    entries: Entries,
    p: int,
    key: PreimageKey,
    bytes: Seq<u8>,
    later: Set<PreimageKey>,
) -> bool {
    &&& lru_holds_at(entries, p, key)
    &&& entries[p].1 == bytes
    &&& forall|q: int| p < q < entries.len() ==> later.contains(#[trigger] entries[q].0)
    &&& forall|k: PreimageKey| #[trigger]
        later.contains(k) ==> exists|q: int| p < q < entries.len() && lru_holds_at(entries, q, k)
}

/// As many entries stand after a key as keys were used after it.
proof fn lemma_followers_count(
    entries: Entries,
    capacity: nat,
    p: int,
    key: PreimageKey,
    bytes: Seq<u8>,
    later: Set<PreimageKey>,
)
    requires
        lru_wf(entries, capacity),
        lru_followed_by(entries, p, key, bytes, later),
    ensures
        later.finite(),
        later.len() == entries.len() - 1 - p,
        !later.contains(key),
{
    let tail = entries.skip(p + 1).map_values(|e: (PreimageKey, Seq<u8>)| e.0);
    assert forall|a: int, b: int| 0 <= a < b < tail.len() implies tail[a] != tail[b] by {
        assert(entries[a + p + 1].0 != entries[b + p + 1].0);
    }
    assert(tail.no_duplicates());
    assert(tail.to_set() =~= later) by {
        assert forall|k: PreimageKey| tail.to_set().contains(k) implies later.contains(k) by {
            let a = choose|a: int| 0 <= a < tail.len() && tail[a] == k;
            assert(later.contains(entries[a + p + 1].0));
        }
        assert forall|k: PreimageKey| later.contains(k) implies tail.to_set().contains(k) by {
            let q = choose|q: int| p < q < entries.len() && lru_holds_at(entries, q, k);
            assert(tail[q - p - 1] == k);
        }
    }
    tail.unique_seq_to_set();
    vstd::seq_lib::seq_to_set_is_finite(tail);
    if later.contains(key) {
        let q = choose|q: int| p < q < entries.len() && lru_holds_at(entries, q, key);
        assert(entries[p].0 != entries[q].0);
    }
}

/// What a read of another key makes of a key and of those used after it:
/// the key stays, with the read key added to those used after it, unless
/// it is the least recently used entry of a full cache that the read
/// evicts.
proof fn lemma_read_follows(
    entries: Entries,
    capacity: nat,
    p: int,
    key: PreimageKey,
    bytes: Seq<u8>,
    later: Set<PreimageKey>,
    other: PreimageKey,
    read: Seq<u8>,
)
    requires
        lru_wf(entries, capacity),
        lru_followed_by(entries, p, key, bytes, later),
        other != key,
    ensures
        ({
            let after = lru_read(entries, capacity, other, read);
            let r = lru_displaced(entries, capacity, other);
            if r == p {
                &&& lru_lookup(after, key) is None
                &&& !later.contains(other)
                &&& later.len() + 1 == capacity
            } else {
                lru_followed_by(
                    after,
                    if 0 <= r < p {
                        p - 1
                    } else {
                        p
                    },
                    key,
                    bytes,
                    later.insert(other),
                )
            }
        }),
{
    let after = lru_read(entries, capacity, other, read);
    let r = lru_displaced(entries, capacity, other);
    lemma_read_shape(entries, capacity, other, read);
    lemma_read_ages(entries, capacity, other, read, key, 0);
    lemma_followers_count(entries, capacity, p, key, bytes, later);
    let base = lru_without(entries, r);
    if lru_contains(entries, other) {
        assert(lru_holds_at(entries, r, other));
    }
    if r == p {
        assert(p == 0 && !lru_contains(entries, other) && entries.len() >= capacity);
        if later.contains(other) {
            let q = choose|q: int| p < q < entries.len() && lru_holds_at(entries, q, other);
            assert(lru_holds_at(entries, q, other));
        }
        if lru_contains(after, key) {
            let a = lru_position(after, key);
            assert(lru_holds_at(after, a, key));
            assert(a < after.len() - 1);
            assert(after[a] == entries[a + 1]);
            assert(entries[0].0 != entries[a + 1].0);
        }
    } else {
        let p2 = if 0 <= r < p {
            p - 1
        } else {
            p
        };
        assert(after[p2] == entries[p]);
        assert forall|q: int| p2 < q < after.len() implies later.insert(other).contains(
            #[trigger] after[q].0,
        ) by {
            if q < after.len() - 1 {
                let q0 = if r >= 0 && q >= r {
                    q + 1
                } else {
                    q
                };
                assert(after[q] == entries[q0]);
                assert(later.contains(entries[q0].0));
            }
        }
        assert forall|k: PreimageKey| #[trigger] later.insert(other).contains(k) implies exists|
            q: int,
        | p2 < q < after.len() && lru_holds_at(after, q, k) by {
            if k == other {
                assert(lru_holds_at(after, after.len() - 1, k));
            } else {
                let q0 = choose|q: int| p < q < entries.len() && lru_holds_at(entries, q, k);
                assert(lru_holds_at(entries, q0, k));
                assert(q0 != r) by {
                    if q0 == r {
                        if lru_contains(entries, other) {
                            assert(entries[r].0 == other);
                        }
                    }
                }
                let q = if r >= 0 && q0 > r {
                    q0 - 1
                } else {
                    q0
                };
                assert(after[q] == entries[q0]);
                assert(lru_holds_at(after, q, k));
            }
        }
    }
}

/// A key that is not cached is not cached after a read of another key.
proof fn lemma_read_keeps_absent(
    entries: Entries,
    capacity: nat,
    key: PreimageKey,
    other: PreimageKey,
    read: Seq<u8>,
)
    requires
        lru_wf(entries, capacity),
        other != key,
        lru_lookup(entries, key) is None,
    ensures
        lru_lookup(lru_read(entries, capacity, other, read), key) is None,
{
    lemma_touch_keeps_lookups(entries, capacity, other, key);
    lemma_put_keeps_others(entries, capacity, other, read, key);
}

/// Where a key that was read stands after reads of other keys: either it
/// is still cached with its bytes and followed by exactly the keys of
/// those reads, or it is gone and the reads were of at least as many keys
/// as the cache has room for.
proof fn lemma_reads_follow(
    entries: Entries,
    capacity: nat,
    key: PreimageKey,
    bytes: Seq<u8>,
    reads: Entries,
)
    requires
        lru_wf(entries, capacity),
        reads_avoid(reads, key),
    ensures
        ({
            let after = lru_read_all(lru_read(entries, capacity, key, bytes), capacity, reads);
            &&& lru_wf(after, capacity)
            &&& read_keys(reads).finite()
            &&& if lru_lookup(after, key) is None {
                read_keys(reads).len() >= capacity
            } else {
                exists|p: int| lru_followed_by(after, p, key, bytes, read_keys(reads))
            }
        }),
    decreases reads.len(),
{
    let first = lru_read(entries, capacity, key, bytes);
    let keys = reads.map_values(|e: (PreimageKey, Seq<u8>)| e.0);
    vstd::seq_lib::seq_to_set_is_finite(keys);
    lemma_read_ages(entries, capacity, key, bytes, key, 0);
    if reads.len() == 0 {
        assert(read_keys(reads) =~= Set::<PreimageKey>::empty());
        let p = first.len() - 1;
        lemma_read_shape(entries, capacity, key, bytes);
        assert(first[p] == (key, bytes));
        assert(lru_followed_by(first, p, key, bytes, read_keys(reads)));
    } else {
        let init = reads.drop_last();
        let last = reads.last();
        let before = lru_read_all(first, capacity, init);
        let after = lru_read(before, capacity, last.0, last.1);
        assert forall|i: int| 0 <= i < init.len() implies (#[trigger] init[i]).0 != key by {
            assert(init[i] == reads[i]);
        }
        assert(reads[reads.len() - 1].0 != key);
        lemma_reads_follow(entries, capacity, key, bytes, init);
        lemma_read_ages(before, capacity, last.0, last.1, last.0, 0);
        let init_keys = init.map_values(|e: (PreimageKey, Seq<u8>)| e.0);
        assert(read_keys(reads) =~= read_keys(init).insert(last.0)) by {
            assert forall|k: PreimageKey| read_keys(reads).contains(k) implies read_keys(
                init,
            ).insert(last.0).contains(k) by {
                let i = choose|i: int| 0 <= i < keys.len() && keys[i] == k;
                if i < init.len() {
                    assert(init_keys[i] == k);
                }
            }
            assert forall|k: PreimageKey| read_keys(init).insert(last.0).contains(
                k,
            ) implies read_keys(reads).contains(k) by {
                if k == last.0 {
                    assert(keys[reads.len() - 1] == k);
                } else {
                    let i = choose|i: int| 0 <= i < init_keys.len() && init_keys[i] == k;
                    assert(keys[i] == k);
                }
            }
        }
        vstd::seq_lib::seq_to_set_is_finite(init_keys);
        if lru_lookup(before, key) is None {
            lemma_read_keeps_absent(before, capacity, key, last.0, last.1);
            vstd::set_lib::lemma_len_subset(read_keys(init), read_keys(reads));
        } else {
            let p = choose|p: int| lru_followed_by(before, p, key, bytes, read_keys(init));
            lemma_read_follows(before, capacity, p, key, bytes, read_keys(init), last.0, last.1);
            let r = lru_displaced(before, capacity, last.0);
            if r != p {
                let p2 = if 0 <= r < p {
                    p - 1
                } else {
                    p
                };
                assert(lru_followed_by(after, p2, key, bytes, read_keys(reads)));
                lemma_position_unique(after, capacity, p2, key);
            }
        }
    }
}

/// Cache coherence for a key read twice. After a key was read, and other
/// keys were read any number of times, the key is still cached with the
/// bytes that were read, so that its next read causes no traffic on the
/// channel, exactly when the reads in between were of fewer keys than the
/// cache has room for. With as many other keys as the capacity, or more,
/// the key was evicted and its next read goes to the channel again.
pub proof fn lemma_reread(
    entries: Entries,
    capacity: nat,
    key: PreimageKey,
    bytes: Seq<u8>,
    reads: Entries,
)
    requires
        lru_wf(entries, capacity),
        reads_avoid(reads, key),
    ensures
        lru_lookup(
            lru_read_all(lru_read(entries, capacity, key, bytes), capacity, reads),
            key,
        ) == if read_keys(reads).len() < capacity {
            Some(bytes)
        } else {
            None
        },
        lru_read_all(lru_read(entries, capacity, key, bytes), capacity, reads).len() <= capacity,
{
    let after = lru_read_all(lru_read(entries, capacity, key, bytes), capacity, reads);
    lemma_reads_follow(entries, capacity, key, bytes, reads);
    if lru_lookup(after, key) is Some {
        let p = choose|p: int| lru_followed_by(after, p, key, bytes, read_keys(reads));
        lemma_followers_count(after, capacity, p, key, bytes, read_keys(reads));
        lemma_position_unique(after, capacity, p, key);
    }
}

/// The last `capacity` of the items, or all of them where they are fewer.
pub open spec fn most_recent(items: Entries, capacity: nat) -> Entries {
    if items.len() <= capacity {
        items
    } else {
        items.skip(items.len() - capacity)
    }
}

/// An empty cache that is filled with items of distinct keys holds the most
/// recent of them, as many as fit, in the order in which they came.
pub proof fn lemma_fill(capacity: nat, items: Entries)
    requires
        capacity > 0,
        distinct_keys(items),
    ensures
        lru_put_all(Entries::empty(), capacity, items) == most_recent(items, capacity),
    decreases items.len(),
{
    if items.len() > 0 {
        let init = items.drop_last();
        let last = items.last();
        assert forall|i: int, j: int| 0 <= i < j < init.len() implies init[i].0 != init[j].0 by {
            assert(init[i] == items[i] && init[j] == items[j]);
        }
        lemma_fill(capacity, init);
        let held = most_recent(init, capacity);
        let off: int = if init.len() <= capacity {
            0
        } else {
            init.len() - capacity
        };
        assert forall|i: int| 0 <= i < held.len() implies held[i] == items[i + off] by {}
        assert(!lru_contains(held, last.0)) by {
            if lru_contains(held, last.0) {
                let i = lru_position(held, last.0);
                assert(lru_holds_at(held, i, last.0));
                assert(items[i + off].0 != items[items.len() - 1].0);
            }
        }
        assert(lru_put(held, capacity, last.0, last.1) =~= most_recent(items, capacity));
    }
}

/// Storing under a new key in a full cache evicts the least recently used
/// entry and no other: its key is no longer found, every other key is found
/// as before, and the cache is as full as it was.
pub proof fn lemma_overflow_evicts_least_recent(
    entries: Entries,
    capacity: nat,
    key: PreimageKey,
    value: Seq<u8>,
)
    requires
        lru_wf(entries, capacity),
        entries.len() == capacity,
        !lru_contains(entries, key),
    ensures
        lru_put(entries, capacity, key, value).len() == capacity,
        lru_lookup(lru_put(entries, capacity, key, value), entries[0].0) is None,
        forall|other: PreimageKey|
            other != key && other != entries[0].0 ==> #[trigger] lru_lookup(
                lru_put(entries, capacity, key, value),
                other,
            ) == lru_lookup(entries, other),
{
    assert(lru_holds_at(entries, 0, entries[0].0));
    lemma_put_keeps_others(entries, capacity, key, value, entries[0].0);
    assert forall|other: PreimageKey|
        other != key && other != entries[0].0 implies #[trigger] lru_lookup(
        lru_put(entries, capacity, key, value),
        other,
    ) == lru_lookup(entries, other) by {
        lemma_put_keeps_others(entries, capacity, key, value, other);
    }
}

/// Cache coherence. Bytes that were stored under a key are what a lookup of
/// that key finds, so a read of them needs no traffic on the channel. And
/// once more distinct keys were stored than the cache has room for, one
/// more than its capacity, the key that was stored first is gone, so that
/// its next read must go to the channel, while every later key is still
/// found with its bytes.
pub proof fn lemma_cache_coherence(
    entries: Entries,
    capacity: nat,
    key: PreimageKey,
    value: Seq<u8>,
    items: Entries,
)
    requires
        lru_wf(entries, capacity),
        distinct_keys(items),
        items.len() == capacity + 1,
    ensures
        lru_lookup(lru_put(entries, capacity, key, value), key) == Some(value),
        lru_lookup(lru_put_all(Entries::empty(), capacity, items), items[0].0) is None,
        forall|j: int|
            1 <= j < items.len() ==> lru_lookup(
                lru_put_all(Entries::empty(), capacity, items),
                #[trigger] items[j].0,
            ) == Some(items[j].1),
{
    lemma_put_then_lookup(entries, capacity, key, value);
    lemma_fill(capacity, items);
    let held = lru_put_all(Entries::empty(), capacity, items);
    assert(held == items.skip(1));
    assert forall|i: int| 0 <= i < held.len() implies held[i] == items[i + 1] by {}
    assert(lru_wf(held, capacity)) by {
        assert forall|i: int, j: int| 0 <= i < j < held.len() implies held[i].0 != held[j].0 by {
            assert(items[i + 1].0 != items[j + 1].0);
        }
    }
    if lru_contains(held, items[0].0) {
        let i = lru_position(held, items[0].0);
        assert(lru_holds_at(held, i, items[0].0));
        assert(items[0].0 != items[i + 1].0);
    }
    assert forall|j: int| 1 <= j < items.len() implies lru_lookup(held, #[trigger] items[j].0)
        == Some(items[j].1) by {
        assert(lru_holds_at(held, j - 1, items[j].0));
        lemma_position_unique(held, capacity, j - 1, items[j].0);
    }
}

/// A bounded cache of preimages, ordered by use.
pub struct LruCache {
    capacity: usize,
    entries: Vec<(PreimageKey, Vec<u8>)>,
}

impl View for LruCache {
    type V = Entries;

    closed spec fn view(&self) -> Entries {
        self.entries@.map_values(|e: (PreimageKey, Vec<u8>)| (e.0, e.1@))
    }
}

impl LruCache {
    #[verifier::type_invariant]
    spec fn inv(&self) -> bool {
        lru_wf(self@, self.capacity as nat)
    }

    /// The number of entries that the cache can hold.
    pub closed spec fn spec_capacity(&self) -> nat {
        self.capacity as nat
    }

    /// An empty cache for `capacity` entries.
    pub fn new(capacity: usize) -> (r: Self)
        requires
            capacity > 0,
        ensures
            r@ == Entries::empty(),
            r.spec_capacity() == capacity,
    {
        let r = LruCache { capacity, entries: Vec::new() };
        assert(r@ =~= Entries::empty());
        r
    }

    /// The number of entries that the cache can hold. A cache is well
    /// formed at all times.
    pub fn capacity(&self) -> (r: usize)
        ensures
            r == self.spec_capacity(),
            lru_wf(self@, self.spec_capacity()),
    {
        proof {
            use_type_invariant(self);
        }
        self.capacity
    }

    /// The number of entries that the cache holds.
    pub fn len(&self) -> (r: usize)
        ensures
            r == self@.len(),
            r <= self.spec_capacity(),
    {
        proof {
            use_type_invariant(self);
        }
        self.entries.len()
    }

    fn position(&self, key: &PreimageKey) -> (r: Option<usize>)
        ensures
            r matches Some(i) ==> lru_holds_at(self@, i as int, *key) && i < self.entries@.len(),
            r is None ==> !lru_contains(self@, *key),
    {
        let mut i: usize = 0;
        while i < self.entries.len()
            invariant
                i <= self.entries@.len(),
                forall|j: int| 0 <= j < i ==> self@[j].0 != *key,
            decreases self.entries@.len() - i,
        {
            if self.entries[i].0 == *key {
                return Some(i);
            }
            i = i + 1;
        }
        None
    }

    /// Whether the cache holds the key. Asking does not count as use.
    pub fn contains(&self, key: &PreimageKey) -> (r: bool)
        ensures
            r == lru_contains(self@, *key),
    {
        self.position(key).is_some()
    }

    /// The bytes cached under a key, if any. The entry becomes the most
    /// recently used.
    pub fn get(&mut self, key: &PreimageKey) -> (r: Option<Vec<u8>>)
        ensures
            match lru_lookup(old(self)@, *key) {
                Some(bytes) => r matches Some(v) && v@ == bytes,
                None => r is None,
            },
            final(self)@ == lru_touch(old(self)@, *key),
            final(self).spec_capacity() == old(self).spec_capacity(),
    {
        proof {
            use_type_invariant(&*self);
        }
        let ghost before = self@;
        let ghost capacity = self.capacity as nat;
        match self.position(key) {
            None => None,
            Some(i) => {
                proof {
                    lemma_position_unique(before, capacity, i as int, *key);
                    lemma_wf_preserved(before, capacity, *key, Seq::empty());
                }
                let mut entries: Vec<(PreimageKey, Vec<u8>)> = Vec::new();
                core::mem::swap(&mut self.entries, &mut entries);
                let entry = entries.remove(i);
                let bytes = slice_to_vec(entry.1.as_slice());
                entries.push(entry);
                assert(entries@.map_values(|e: (PreimageKey, Vec<u8>)| (e.0, e.1@)) =~= lru_touch(
                    before,
                    *key,
                ));
                self.entries = entries;
                Some(bytes)
            },
        }
    }

    /// Stores bytes under a key. The entry becomes the most recently used;
    /// where the key is new and the cache is full, the least recently used
    /// entry is evicted.
    pub fn put(&mut self, key: PreimageKey, value: Vec<u8>)
        ensures
            final(self)@ == lru_put(old(self)@, old(self).spec_capacity(), key, value@),
            final(self).spec_capacity() == old(self).spec_capacity(),
    {
        proof {
            use_type_invariant(&*self);
        }
        let ghost before = self@;
        let ghost capacity = self.capacity as nat;
        proof {
            lemma_wf_preserved(before, capacity, key, value@);
        }
        let found = self.position(&key);
        let full = self.entries.len() >= self.capacity;
        let mut entries: Vec<(PreimageKey, Vec<u8>)> = Vec::new();
        core::mem::swap(&mut self.entries, &mut entries);
        match found {
            Some(i) => {
                proof {
                    lemma_position_unique(before, capacity, i as int, key);
                }
                entries.remove(i);
            },
            None => {
                if full {
                    entries.remove(0);
                }
            },
        }
        entries.push((key, value));
        assert(entries@.map_values(|e: (PreimageKey, Vec<u8>)| (e.0, e.1@)) =~= lru_put(
            before,
            capacity,
            key,
            value@,
        ));
        self.entries = entries;
    }
}

} // verus!
