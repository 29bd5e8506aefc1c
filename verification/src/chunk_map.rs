//! The chunk registry: a mapping from chunk coordinate to a slot that is
//! either `Pending` (generation dispatched, entity not yet materialized) or
//! `Ready` with the chunk's entity handle. At most one slot exists per
//! coordinate; a `Pending` slot reserves the coordinate from the moment a
//! spawn is queued until the background result is accepted or discarded.

use vstd::prelude::*;

verus! {

/// An entity handle, opaque to the registry.
pub type Handle = u64;

/// The state of a registered chunk coordinate.
#[derive(Clone, Copy, PartialEq, Eq, Structural, Debug)]
pub enum ChunkSlot {
    /// Generation is in flight; no entity exists yet.
    Pending,
    /// The chunk's entity is live under this handle.
    Ready(Handle),
}

pub type MapEntry = ([i32; 2], ChunkSlot);

/// No coordinate occurs twice.
pub open spec fn keys_unique(s: Seq<MapEntry>) -> bool {
    forall|i: int, j: int|
        0 <= i < s.len() && 0 <= j < s.len() && i != j ==> (#[trigger] s[i]).0 != (
        #[trigger] s[j]).0
}

/// Some entry carries this coordinate.
pub open spec fn seq_contains_key(s: Seq<MapEntry>, c: [i32; 2]) -> bool {
    exists|i: int| 0 <= i < s.len() && (#[trigger] s[i]).0 == c
}

/// The index of the entry carrying this coordinate.
pub open spec fn seq_key_index(s: Seq<MapEntry>, c: [i32; 2]) -> int {
    choose|i: int| 0 <= i < s.len() && (#[trigger] s[i]).0 == c
}

/// The slot stored for this coordinate.
pub open spec fn seq_slot(s: Seq<MapEntry>, c: [i32; 2]) -> ChunkSlot {
    s[seq_key_index(s, c)].1
}

/// With unique keys, any entry carrying `c` is the entry `seq_slot` reads.
proof fn lemma_slot_at(s: Seq<MapEntry>, c: [i32; 2], i: int)
    requires
        keys_unique(s),
        0 <= i < s.len(),
        s[i].0 == c,
    ensures
        seq_contains_key(s, c),
        seq_key_index(s, c) == i,
        seq_slot(s, c) == s[i].1,
{
    assert(seq_contains_key(s, c));
    let j = seq_key_index(s, c);
    assert(0 <= j < s.len() && s[j].0 == c);
}

/// Exact comparison of chunk coordinates.
pub fn cords_eq(a: [i32; 2], b: [i32; 2]) -> (r: bool)
    ensures
        r <==> a == b,
{
    let r = a[0] == b[0] && a[1] == b[1];
    proof {
        if r {
            assert(a =~= b);
        }
    }
    r
}

/// The chunk registry.
pub struct ChunkMap {
    entries: Vec<MapEntry>,
}

impl ChunkMap {
    /// The registry's invariant: at most one entry per coordinate.
    pub closed spec fn wf(self) -> bool {
        keys_unique(self.entries@)
    }

    /// The entries, as a sequence of (coordinate, slot) pairs.
    pub closed spec fn view_entries(self) -> Seq<MapEntry> {
        self.entries@
    }

    /// Whether a coordinate is registered (pending or ready).
    pub open spec fn spec_contains(self, c: [i32; 2]) -> bool {
        seq_contains_key(self.view_entries(), c)
    }

    /// The slot of a registered coordinate.
    pub open spec fn spec_slot(self, c: [i32; 2]) -> ChunkSlot {
        seq_slot(self.view_entries(), c)
    }

    /// How many coordinates are registered.
    pub open spec fn spec_len(self) -> int {
        self.view_entries().len() as int
    }

    /// The registry as a mathematical map from coordinate to slot.
    pub open spec fn as_map(self) -> Map<[i32; 2], ChunkSlot> {
        Map::new(|c: [i32; 2]| self.spec_contains(c), |c: [i32; 2]| self.spec_slot(c))
    }

    /// The registry and another agree on every coordinate but `c`.
    pub open spec fn agrees_except(self, other: ChunkMap, c: [i32; 2]) -> bool {
        forall|c2: [i32; 2]|
            c2 != c ==> (#[trigger] other.spec_contains(c2) <==> self.spec_contains(c2))
                && (self.spec_contains(c2) ==> other.spec_slot(c2) == self.spec_slot(c2))
    }

    /// An empty registry.
    pub fn new() -> (r: ChunkMap)
        ensures
            r.wf(),
            r.spec_len() == 0,
            forall|c: [i32; 2]| !r.spec_contains(c),
            r.as_map() == Map::<[i32; 2], ChunkSlot>::empty(),
    {
        let r = ChunkMap { entries: Vec::new() };
        proof {
            assert(r.as_map() =~= Map::<[i32; 2], ChunkSlot>::empty());
        }
        r
    }

    /// The slot registered for `cords`, or `None` when the coordinate is
    /// not registered.
    pub fn get_ent(&self, cords: [i32; 2]) -> (r: Option<ChunkSlot>)
        requires
            self.wf(),
        ensures
            r.is_some() <==> self.spec_contains(cords),
            r.is_some() ==> r == Some(self.spec_slot(cords)),
    {
        let n = self.entries.len();
        let mut i: usize = 0;
        while i < n
            invariant
                self.wf(),
                n == self.view_entries().len(),
                0 <= i <= n,
                forall|j: int| 0 <= j < i ==> (#[trigger] self.view_entries()[j]).0 != cords,
            decreases n - i,
        {
            if cords_eq(self.entries[i].0, cords) {
                proof {
                    lemma_slot_at(self.view_entries(), cords, i as int);
                }
                return Some(self.entries[i].1);
            }
            i = i + 1;
        }
        proof {
            if self.spec_contains(cords) {
                let j = seq_key_index(self.view_entries(), cords);
                assert(0 <= j < self.view_entries().len() && self.view_entries()[j].0 == cords);
                assert(false);
            }
        }
        None
    }

    /// Whether `cords` is registered, pending included.
    pub fn contains(&self, cords: [i32; 2]) -> (r: bool)
        requires
            self.wf(),
        ensures
            r == self.spec_contains(cords),
    {
        self.get_ent(cords).is_some()
    }

    /// Registers a slot for an unregistered coordinate. Registering a
    /// coordinate twice is a logic error and is excluded by `requires`;
    /// every other coordinate keeps its slot.
    pub fn insert_ent(&mut self, cords: [i32; 2], slot: ChunkSlot)
        requires
            old(self).wf(),
            !old(self).spec_contains(cords),
        ensures
            final(self).wf(),
            final(self).spec_contains(cords),
            final(self).spec_slot(cords) == slot,
            old(self).agrees_except(*final(self), cords),
            final(self).spec_len() == old(self).spec_len() + 1,
            final(self).as_map() == old(self).as_map().insert(cords, slot),
    {
        let ghost olds = self.entries@;
        self.entries.push((cords, slot));
        proof {
            let news = self.entries@;
            assert(forall|k: int| 0 <= k < olds.len() ==> (#[trigger] news[k]) == olds[k]);
            assert(news[olds.len() as int].0 == cords);
            assert forall|i: int, j: int|
                0 <= i < news.len() && 0 <= j < news.len() && i != j implies (
            #[trigger] news[i]).0 != (#[trigger] news[j]).0 by {
                if i < olds.len() && j < olds.len() {
                } else if i == olds.len() {
                    if news[j].0 == cords {
                        lemma_slot_at(olds, cords, j);
                    }
                } else {
                    if news[i].0 == cords {
                        lemma_slot_at(olds, cords, i);
                    }
                }
            }
            lemma_slot_at(news, cords, olds.len() as int);
            assert forall|c2: [i32; 2]| c2 != cords implies (#[trigger] seq_contains_key(
                news,
                c2,
            ) <==> seq_contains_key(olds, c2)) && (seq_contains_key(olds, c2) ==> seq_slot(
                news,
                c2,
            ) == seq_slot(olds, c2)) by {
                if seq_contains_key(olds, c2) {
                    let i = seq_key_index(olds, c2);
                    assert(0 <= i < olds.len() && olds[i].0 == c2);
                    assert(news[i].0 == c2);
                    lemma_slot_at(news, c2, i);
                    lemma_slot_at(olds, c2, i);
                }
                if seq_contains_key(news, c2) {
                    let i = seq_key_index(news, c2);
                    assert(0 <= i < news.len() && news[i].0 == c2);
                    assert(i < olds.len());
                    assert(seq_contains_key(olds, c2));
                }
            }
            assert(self.as_map() =~= old(self).as_map().insert(cords, slot));
        }
    }

    /// Removes a registered coordinate whose slot is exactly `expected`
    /// (the cross-check against registry corruption). Every other
    /// coordinate keeps its slot.
    pub fn remove_ent(&mut self, cords: [i32; 2], expected: ChunkSlot)
        requires
            old(self).wf(),
            old(self).spec_contains(cords),
            old(self).spec_slot(cords) == expected,
        ensures
            final(self).wf(),
            !final(self).spec_contains(cords),
            old(self).agrees_except(*final(self), cords),
            final(self).spec_len() == old(self).spec_len() - 1,
            final(self).as_map() == old(self).as_map().remove(cords),
    {
        let ghost olds = self.entries@;
        let n = self.entries.len();
        let mut i: usize = 0;
        while i < n
            invariant
                keys_unique(self.entries@),
                self.entries@ == olds,
                olds == old(self).view_entries(),
                n == olds.len(),
                0 <= i <= n,
                seq_contains_key(olds, cords),
                forall|j: int| 0 <= j < i ==> (#[trigger] olds[j]).0 != cords,
            decreases n - i,
        {
            if cords_eq(self.entries[i].0, cords) {
                proof {
                    lemma_slot_at(olds, cords, i as int);
                }
                self.entries.remove(i);
                proof {
                    lemma_remove_key(olds, i as int);
                    assert(self.as_map() =~= old(self).as_map().remove(cords));
                }
                return ;
            }
            i = i + 1;
        }
        proof {
            let j = seq_key_index(olds, cords);
            assert(0 <= j < olds.len() && olds[j].0 == cords);
            assert(false);
        }
    }

    /// Swaps the slot of a registered coordinate (placeholder for real
    /// handle once background work completes). Every other coordinate
    /// keeps its slot.
    pub fn change_ent(&mut self, cords: [i32; 2], slot: ChunkSlot)
        requires
            old(self).wf(),
            old(self).spec_contains(cords),
        ensures
            final(self).wf(),
            final(self).spec_contains(cords),
            final(self).spec_slot(cords) == slot,
            old(self).agrees_except(*final(self), cords),
            final(self).spec_len() == old(self).spec_len(),
            final(self).as_map() == old(self).as_map().insert(cords, slot),
    {
        let ghost olds = self.entries@;
        let n = self.entries.len();
        let mut i: usize = 0;
        while i < n
            invariant
                keys_unique(self.entries@),
                self.entries@ == olds,
                olds == old(self).view_entries(),
                n == olds.len(),
                0 <= i <= n,
                seq_contains_key(olds, cords),
                forall|j: int| 0 <= j < i ==> (#[trigger] olds[j]).0 != cords,
            decreases n - i,
        {
            if cords_eq(self.entries[i].0, cords) {
                proof {
                    lemma_slot_at(olds, cords, i as int);
                }
                self.entries.remove(i);
                proof {
                    lemma_remove_key(olds, i as int);
                }
                let ghost mids = self.entries@;
                self.entries.push((cords, slot));
                proof {
                    let news = self.entries@;
                    assert(forall|k: int| 0 <= k < mids.len() ==> (#[trigger] news[k]) == mids[k]);
                    assert forall|a: int, b: int|
                        0 <= a < news.len() && 0 <= b < news.len() && a != b implies (
                    #[trigger] news[a]).0 != (#[trigger] news[b]).0 by {
                        if a < mids.len() && b < mids.len() {
                        } else if a == mids.len() {
                            if news[b].0 == cords {
                                lemma_slot_at(mids, cords, b);
                            }
                        } else {
                            if news[a].0 == cords {
                                lemma_slot_at(mids, cords, a);
                            }
                        }
                    }
                    lemma_slot_at(news, cords, mids.len() as int);
                    assert forall|c2: [i32; 2]| c2 != cords implies (#[trigger] seq_contains_key(
                        news,
                        c2,
                    ) <==> seq_contains_key(olds, c2)) && (seq_contains_key(olds, c2)
                        ==> seq_slot(news, c2) == seq_slot(olds, c2)) by {
                        if seq_contains_key(mids, c2) {
                            let a = seq_key_index(mids, c2);
                            assert(0 <= a < mids.len() && mids[a].0 == c2);
                            assert(news[a].0 == c2);
                            lemma_slot_at(news, c2, a);
                            lemma_slot_at(mids, c2, a);
                        }
                        if seq_contains_key(news, c2) {
                            let a = seq_key_index(news, c2);
                            assert(0 <= a < news.len() && news[a].0 == c2);
                            assert(a < mids.len());
                            assert(seq_contains_key(mids, c2));
                        }
                    }
                    assert(self.as_map() =~= old(self).as_map().insert(cords, slot));
                }
                return ;
            }
            i = i + 1;
        }
        proof {
            let j = seq_key_index(olds, cords);
            assert(0 <= j < olds.len() && olds[j].0 == cords);
            assert(false);
        }
    }

    /// All registered coordinates, in registry order.
    pub fn iter_keys(&self) -> (r: Vec<[i32; 2]>)
        ensures
            r@.len() == self.spec_len(),
            forall|i: int|
                0 <= i < r@.len() ==> (#[trigger] r@[i]) == self.view_entries()[i].0,
    {
        let mut keys: Vec<[i32; 2]> = Vec::new();
        let n = self.entries.len();
        let mut i: usize = 0;
        while i < n
            invariant
                n == self.view_entries().len(),
                0 <= i <= n,
                keys@.len() == i,
                forall|j: int|
                    0 <= j < i ==> (#[trigger] keys@[j]) == self.view_entries()[j].0,
            decreases n - i,
        {
            keys.push(self.entries[i].0);
            i = i + 1;
        }
        keys
    }

    /// All registered entries, in registry order.
    pub fn iter(&self) -> (r: Vec<MapEntry>)
        ensures
            r@ == self.view_entries(),
    {
        let mut entries: Vec<MapEntry> = Vec::new();
        let n = self.entries.len();
        let mut i: usize = 0;
        while i < n
            invariant
                n == self.view_entries().len(),
                0 <= i <= n,
                entries@ =~= self.view_entries().subrange(0, i as int),
            decreases n - i,
        {
            entries.push(self.entries[i]);
            i = i + 1;
            assert(entries@ =~= self.view_entries().subrange(0, i as int));
        }
        assert(self.view_entries().subrange(0, self.view_entries().len() as int) =~= self
            .view_entries());
        entries
    }
}

/// Removing the entry of `c` keeps keys unique, deregisters `c`, and
/// leaves every other coordinate's slot in place.
proof fn lemma_remove_key(s: Seq<MapEntry>, i: int)
    requires
        keys_unique(s),
        0 <= i < s.len(),
    ensures
        keys_unique(s.remove(i)),
        !seq_contains_key(s.remove(i), s[i].0),
        forall|c2: [i32; 2]|
            c2 != s[i].0 ==> (#[trigger] seq_contains_key(s.remove(i), c2) <==> seq_contains_key(
                s,
                c2,
            )) && (seq_contains_key(s, c2) ==> seq_slot(s.remove(i), c2) == seq_slot(s, c2)),
{
    let s2 = s.remove(i);
    s.remove_ensures(i);
    assert(forall|k: int| 0 <= k < i ==> (#[trigger] s2[k]) == s[k]);
    assert(forall|k: int| i <= k < s2.len() ==> (#[trigger] s2[k]) == s[k + 1]);
    assert forall|a: int, b: int|
        0 <= a < s2.len() && 0 <= b < s2.len() && a != b implies (#[trigger] s2[a]).0 != (
    #[trigger] s2[b]).0 by {
        let oa = if a < i {
            a
        } else {
            a + 1
        };
        let ob = if b < i {
            b
        } else {
            b + 1
        };
        assert(s2[a] == s[oa] && s2[b] == s[ob] && oa != ob);
    }
    if seq_contains_key(s2, s[i].0) {
        let k = seq_key_index(s2, s[i].0);
        assert(0 <= k < s2.len() && s2[k].0 == s[i].0);
        let ok = if k < i {
            k
        } else {
            k + 1
        };
        assert(s[ok].0 == s[i].0 && ok != i);
        assert(false);
    }
    assert forall|c2: [i32; 2]| c2 != s[i].0 implies (#[trigger] seq_contains_key(s2, c2)
        <==> seq_contains_key(s, c2)) && (seq_contains_key(s, c2) ==> seq_slot(s2, c2)
        == seq_slot(s, c2)) by {
        if seq_contains_key(s, c2) {
            let k = seq_key_index(s, c2);
            assert(0 <= k < s.len() && s[k].0 == c2);
            assert(k != i);
            let nk = if k < i {
                k
            } else {
                k - 1
            };
            assert(s2[nk] == s[k]);
            lemma_slot_at(s2, c2, nk);
            lemma_slot_at(s, c2, k);
        }
        if seq_contains_key(s2, c2) {
            let k = seq_key_index(s2, c2);
            assert(0 <= k < s2.len() && s2[k].0 == c2);
            let ok = if k < i {
                k
            } else {
                k + 1
            };
            assert(s[ok].0 == c2);
            assert(seq_contains_key(s, c2));
        }
    }
}

} // verus!
