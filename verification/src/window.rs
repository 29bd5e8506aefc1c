//! Render-distance streaming: when the player's current chunk changes,
//! queue a despawn for every registered chunk that left the window and a
//! spawn for every window coordinate not yet registered. The window is the
//! Chebyshev ball of radius `r` around the current chunk: both axis
//! distances at most `r`. A chunk already registered and still inside the
//! window is queued for neither. A separate helper collects the small
//! proximity set (the 3 by 3 block of chunks around the player) that block
//! edits are restricted to.

use vstd::prelude::*;

verus! {

use crate::chunk_map::ChunkMap;
use crate::chunk_map::ChunkSlot;
use crate::chunk_map::MapEntry;
use crate::chunk_map::keys_unique;
use crate::chunk_map::seq_contains_key;
use crate::chunk_queue::ChunkQueue;
use crate::chunk_queue::QueuedAction;
use crate::worldpos::CHUNK_COORD_LIMIT;

/// Largest render distance the library accepts.
pub const RENDER_DISTANCE_LIMIT: i32 = 512;

/// Chebyshev membership: both axis distances at most `r`.
pub open spec fn in_window(c: [i32; 2], center: [i32; 2], r: int) -> bool {
    -r <= c[0] - center[0] <= r && -r <= c[1] - center[1] <= r
}

/// The despawn requests one window update queues: the registered
/// coordinates that lie outside the window, in registry order.
pub open spec fn spec_despawn_requests(entries: Seq<MapEntry>, center: [i32; 2], r: int) -> Seq<
    ([i32; 2], QueuedAction),
>
    decreases entries.len(),
{
    if entries.len() == 0 {
        Seq::empty()
    } else {
        spec_despawn_requests(entries.drop_last(), center, r) + (if !in_window(
            entries.last().0,
            center,
            r,
        ) {
            Seq::empty().push((entries.last().0, QueuedAction::Despawn))
        } else {
            Seq::empty()
        })
    }
}

/// The coordinate visited at step `k` of the window walk: rows of the
/// square from `-r` to `r` on each axis, first axis outer.
pub open spec fn window_coord(center: [i32; 2], r: int, k: int) -> [i32; 2] {
    [
        (center[0] + k / (2 * r + 1) - r) as i32,
        (center[1] + k % (2 * r + 1) - r) as i32,
    ]
}

/// The spawn requests from step `k` on: the window coordinates not yet
/// registered, in walk order.
pub open spec fn spec_spawn_requests(
    m: Map<[i32; 2], ChunkSlot>,
    center: [i32; 2],
    r: int,
    k: int,
) -> Seq<([i32; 2], QueuedAction)>
    decreases (2 * r + 1) * (2 * r + 1) - k,
{
    if k < 0 || k >= (2 * r + 1) * (2 * r + 1) {
        Seq::empty()
    } else {
        (if !m.dom().contains(window_coord(center, r, k)) {
            Seq::empty().push((window_coord(center, r, k), QueuedAction::Spawn))
        } else {
            Seq::empty()
        }) + spec_spawn_requests(m, center, r, k + 1)
    }
}

/// Queues the window update for a new current chunk: despawns for
/// registered chunks outside the window, then spawns for unregistered
/// window coordinates, appended to whatever was already queued.
pub fn update_chunk_window(
    chunk_queue: &mut ChunkQueue,
    chunk_map: &ChunkMap,
    center: [i32; 2],
    render_distance: i32,
)
    requires
        chunk_map.wf(),
        1 <= render_distance <= RENDER_DISTANCE_LIMIT,
        -CHUNK_COORD_LIMIT <= center[0] <= CHUNK_COORD_LIMIT,
        -CHUNK_COORD_LIMIT <= center[1] <= CHUNK_COORD_LIMIT,
    ensures
        final(chunk_queue).spec_strict() == old(chunk_queue).spec_strict(),
        final(chunk_queue).pending() == old(chunk_queue).pending() + spec_despawn_requests(
            chunk_map.view_entries(),
            center,
            render_distance as int,
        ) + spec_spawn_requests(
            chunk_map.as_map(),
            center,
            render_distance as int,
            0,
        ),
{
    let ghost entries = chunk_map.view_entries();
    let ghost r = render_distance as int;
    let ghost base = chunk_queue.pending();
    let keys = chunk_map.iter_keys();
    let n = keys.len();
    let mut i: usize = 0;
    proof {
        assert(entries.subrange(0, 0) =~= Seq::<MapEntry>::empty());
        assert(base + Seq::<([i32; 2], QueuedAction)>::empty() =~= base);
    }
    while i < n
        invariant
            chunk_map.wf(),
            entries == chunk_map.view_entries(),
            r == render_distance as int,
            1 <= render_distance <= RENDER_DISTANCE_LIMIT,
            -CHUNK_COORD_LIMIT <= center[0] <= CHUNK_COORD_LIMIT,
            -CHUNK_COORD_LIMIT <= center[1] <= CHUNK_COORD_LIMIT,
            n == keys@.len(),
            keys@.len() == entries.len(),
            forall|j: int| 0 <= j < n ==> (#[trigger] keys@[j]) == entries[j].0,
            0 <= i <= n,
            chunk_queue.spec_strict() == old(chunk_queue).spec_strict(),
            chunk_queue.pending() == base + spec_despawn_requests(
                entries.subrange(0, i as int),
                center,
                r,
            ),
        decreases n - i,
    {
        let c = keys[i];
        let dx = c[0] as i64 - center[0] as i64;
        let dz = c[1] as i64 - center[1] as i64;
        let rd = render_distance as i64;
        let out = dx > rd || dx < -rd || dz > rd || dz < -rd;
        let ghost pre = chunk_queue.pending();
        if out {
            chunk_queue.queue_despawn(c);
        }
        i = i + 1;
        proof {
            assert(entries.subrange(0, i as int).drop_last() =~= entries.subrange(0, i as int - 1));
            assert(entries.subrange(0, i as int).last() == entries[i as int - 1]);
            if out {
                assert(base + spec_despawn_requests(entries.subrange(0, i as int), center, r)
                    =~= chunk_queue.pending());
            } else {
                assert(base + spec_despawn_requests(entries.subrange(0, i as int), center, r)
                    =~= chunk_queue.pending());
            }
        }
    }
    proof {
        assert(entries.subrange(0, entries.len() as int) =~= entries);
    }
    let ghost base2 = chunk_queue.pending();
    let side: i64 = 2 * (render_distance as i64) + 1;
    proof {
        assert(side * side <= 0x10_0000_0000) by (nonlinear_arith)
            requires
                side == 2 * (render_distance as i64) + 1,
                1 <= render_distance <= RENDER_DISTANCE_LIMIT,
        ;
        assert(base2 + Seq::<([i32; 2], QueuedAction)>::empty() =~= base2);
    }
    let total: i64 = side * side;
    let ghost m = chunk_map.as_map();
    let mut k: i64 = 0;
    while k < total
        invariant
            chunk_map.wf(),
            m == chunk_map.as_map(),
            r == render_distance as int,
            1 <= render_distance <= RENDER_DISTANCE_LIMIT,
            -CHUNK_COORD_LIMIT <= center[0] <= CHUNK_COORD_LIMIT,
            -CHUNK_COORD_LIMIT <= center[1] <= CHUNK_COORD_LIMIT,
            side == 2 * r + 1,
            total == side * side,
            0 <= k <= total,
            chunk_queue.spec_strict() == old(chunk_queue).spec_strict(),
            chunk_queue.pending() + spec_spawn_requests(m, center, r, k as int) == base2
                + spec_spawn_requests(m, center, r, 0),
        decreases total - k,
    {
        proof {
            vstd::arithmetic::div_mod::lemma_div_pos_is_pos(k as int, side as int);
            vstd::arithmetic::div_mod::lemma_mod_bound(k as int, side as int);
            assert(k as int / (side as int) < side) by (nonlinear_arith)
                requires
                    0 <= k as int,
                    (k as int) < (side as int) * (side as int),
                    0 < side,
            ;
        }
        let u = ((k as u64) / (side as u64)) as i32 - render_distance;
        let v = ((k as u64) % (side as u64)) as i32 - render_distance;
        let c: [i32; 2] = [center[0] + u, center[1] + v];
        proof {
            assert(window_coord(center, r, k as int) =~= c);
        }
        let ghost pre = chunk_queue.pending();
        if !chunk_map.contains(c) {
            chunk_queue.queue_spawn(c);
        }
        k = k + 1;
        proof {
            assert(c =~= window_coord(center, r, k as int - 1));
            if !m.dom().contains(c) {
                assert(pre.push((c, QueuedAction::Spawn)) + spec_spawn_requests(
                    m,
                    center,
                    r,
                    k as int,
                ) =~= pre + spec_spawn_requests(m, center, r, k as int - 1));
            } else {
                assert(pre + spec_spawn_requests(m, center, r, k as int) =~= pre
                    + spec_spawn_requests(m, center, r, k as int - 1));
            }
        }
    }
    proof {
        assert(spec_spawn_requests(m, center, r, total as int) =~= Seq::<
            ([i32; 2], QueuedAction),
        >::empty());
        assert(chunk_queue.pending() + Seq::<([i32; 2], QueuedAction)>::empty() =~= chunk_queue
            .pending());
    }
}

/// A coordinate is despawn-queued exactly when it is registered and
/// outside the window.
pub proof fn lemma_despawn_requests_exact(
    entries: Seq<MapEntry>,
    center: [i32; 2],
    r: int,
    c: [i32; 2],
)
    requires
        keys_unique(entries),
    ensures
        spec_despawn_requests(entries, center, r).contains((c, QueuedAction::Despawn))
            <==> seq_contains_key(entries, c) && !in_window(c, center, r),
    decreases entries.len(),
{
    let reqs = spec_despawn_requests(entries, center, r);
    if entries.len() == 0 {
        assert(!reqs.contains((c, QueuedAction::Despawn))) by {
            if reqs.contains((c, QueuedAction::Despawn)) {
                let j = choose|j: int| 0 <= j < reqs.len() && reqs[j] == (c, QueuedAction::Despawn);
            }
        }
        if seq_contains_key(entries, c) {
            let j = crate::chunk_map::seq_key_index(entries, c);
        }
    } else {
        let front = entries.drop_last();
        assert(keys_unique(front)) by {
            assert(forall|a: int|
                0 <= a < front.len() ==> (#[trigger] front[a]) == entries[a]);
        }
        lemma_despawn_requests_exact(front, center, r, c);
        let sub = spec_despawn_requests(front, center, r);
        let tailpart = if !in_window(entries.last().0, center, r) {
            Seq::empty().push((entries.last().0, QueuedAction::Despawn))
        } else {
            Seq::<([i32; 2], QueuedAction)>::empty()
        };
        assert(reqs == sub + tailpart);
        if reqs.contains((c, QueuedAction::Despawn)) {
            let j = choose|j: int| 0 <= j < reqs.len() && reqs[j] == (c, QueuedAction::Despawn);
            if j < sub.len() {
                assert(sub.contains((c, QueuedAction::Despawn)));
                assert(seq_contains_key(front, c) && !in_window(c, center, r));
                let a = crate::chunk_map::seq_key_index(front, c);
                assert(front[a] == entries[a]);
                assert(seq_contains_key(entries, c));
            } else {
                assert(reqs[j] == tailpart[j - sub.len()]);
                assert(entries.last().0 == c && !in_window(c, center, r));
                assert(entries[entries.len() - 1].0 == c);
                assert(seq_contains_key(entries, c));
            }
        }
        if seq_contains_key(entries, c) && !in_window(c, center, r) {
            let a = crate::chunk_map::seq_key_index(entries, c);
            if a < front.len() {
                assert(front[a] == entries[a]);
                assert(seq_contains_key(front, c));
                assert(sub.contains((c, QueuedAction::Despawn)));
                let j = choose|j: int|
                    0 <= j < sub.len() && sub[j] == (c, QueuedAction::Despawn);
                assert(reqs[j] == sub[j]);
                assert(reqs.contains((c, QueuedAction::Despawn)));
            } else {
                assert(entries.last().0 == c);
                assert(reqs[sub.len() as int] == (c, QueuedAction::Despawn));
                assert(reqs.contains((c, QueuedAction::Despawn)));
            }
        }
    }
}

/// A coordinate is spawn-queued exactly when it lies in the window and is
/// not registered.
pub proof fn lemma_spawn_requests_exact(
    m: Map<[i32; 2], ChunkSlot>,
    center: [i32; 2],
    r: int,
    c: [i32; 2],
)
    requires
        1 <= r,
        -CHUNK_COORD_LIMIT <= center[0] <= CHUNK_COORD_LIMIT,
        -CHUNK_COORD_LIMIT <= center[1] <= CHUNK_COORD_LIMIT,
        -2 * CHUNK_COORD_LIMIT <= c[0] <= 2 * CHUNK_COORD_LIMIT,
        -2 * CHUNK_COORD_LIMIT <= c[1] <= 2 * CHUNK_COORD_LIMIT,
        r <= RENDER_DISTANCE_LIMIT,
    ensures
        spec_spawn_requests(m, center, r, 0).contains((c, QueuedAction::Spawn)) <==> in_window(
            c,
            center,
            r,
        ) && !m.dom().contains(c),
{
    lemma_spawn_requests_exact_from(m, center, r, c, 0);
}

/// As `lemma_spawn_requests_exact`, for the walk from step `k` on: the
/// coordinates visited from `k` are those with flat index at least `k`.
proof fn lemma_spawn_requests_exact_from(
    m: Map<[i32; 2], ChunkSlot>,
    center: [i32; 2],
    r: int,
    c: [i32; 2],
    k: int,
)
    requires
        1 <= r <= RENDER_DISTANCE_LIMIT,
        -CHUNK_COORD_LIMIT <= center[0] <= CHUNK_COORD_LIMIT,
        -CHUNK_COORD_LIMIT <= center[1] <= CHUNK_COORD_LIMIT,
        -2 * CHUNK_COORD_LIMIT <= c[0] <= 2 * CHUNK_COORD_LIMIT,
        -2 * CHUNK_COORD_LIMIT <= c[1] <= 2 * CHUNK_COORD_LIMIT,
        0 <= k,
    ensures
        spec_spawn_requests(m, center, r, k).contains((c, QueuedAction::Spawn)) <==> (in_window(
            c,
            center,
            r,
        ) && !m.dom().contains(c) && (c[0] - center[0] + r) * (2 * r + 1) + (c[1] - center[1] + r)
            >= k),
    decreases (2 * r + 1) * (2 * r + 1) - k,
{
    let side = 2 * r + 1;
    let total = side * side;
    let reqs = spec_spawn_requests(m, center, r, k);
    let kc = (c[0] - center[0] + r) * side + (c[1] - center[1] + r);
    if k >= total {
        assert(reqs =~= Seq::<([i32; 2], QueuedAction)>::empty());
        if reqs.contains((c, QueuedAction::Spawn)) {
            let j = choose|j: int| 0 <= j < reqs.len() && reqs[j] == (c, QueuedAction::Spawn);
            assert(false);
        }
        if in_window(c, center, r) && kc >= k {
            assert(kc < total) by (nonlinear_arith)
                requires
                    0 <= c[0] - center[0] + r <= 2 * r,
                    0 <= c[1] - center[1] + r <= 2 * r,
                    side == 2 * r + 1,
                    total == side * side,
                    kc == (c[0] - center[0] + r) * side + (c[1] - center[1] + r),
            ;
            assert(false);
        }
    } else {
        lemma_spawn_requests_exact_from(m, center, r, c, k + 1);
        let wk = window_coord(center, r, k);
        let headpart = if !m.dom().contains(wk) {
            Seq::empty().push((wk, QueuedAction::Spawn))
        } else {
            Seq::<([i32; 2], QueuedAction)>::empty()
        };
        let sub = spec_spawn_requests(m, center, r, k + 1);
        assert(reqs == headpart + sub);
        // The walk coordinate at step k has flat index k, and it lies in
        // the window.
        vstd::arithmetic::div_mod::lemma_div_pos_is_pos(k, side);
        vstd::arithmetic::div_mod::lemma_mod_bound(k, side);
        assert(k / side < side) by (nonlinear_arith)
            requires
                0 <= k < side * side,
                0 < side,
        ;
        vstd::arithmetic::div_mod::lemma_fundamental_div_mod(k, side);
        assert(in_window(wk, center, r));
        if wk == c {
            assert(kc == k) by (nonlinear_arith)
                requires
                    c[0] - center[0] + r == k / side,
                    c[1] - center[1] + r == k % side,
                    k == side * (k / side) + k % side,
                    kc == (c[0] - center[0] + r) * side + (c[1] - center[1] + r),
            ;
        }
        if c != wk && in_window(c, center, r) && kc == k {
            // Flat indices are injective on the window.
            vstd::arithmetic::div_mod::lemma_fundamental_div_mod_converse(
                kc,
                side,
                c[0] - center[0] + r,
                c[1] - center[1] + r,
            );
            assert(wk =~= c);
            assert(false);
        }
        if reqs.contains((c, QueuedAction::Spawn)) {
            let j = choose|j: int| 0 <= j < reqs.len() && reqs[j] == (c, QueuedAction::Spawn);
            if j < headpart.len() {
                assert(c == wk && !m.dom().contains(c));
                assert(kc == k);
            } else {
                assert(sub[j - headpart.len()] == (c, QueuedAction::Spawn));
                assert(sub.contains((c, QueuedAction::Spawn)));
            }
        }
        if in_window(c, center, r) && !m.dom().contains(c) && kc >= k {
            if kc == k {
                assert(c =~= wk);
                assert(reqs[0] == (c, QueuedAction::Spawn));
                assert(reqs.contains((c, QueuedAction::Spawn)));
            } else {
                assert(sub.contains((c, QueuedAction::Spawn)));
                let j = choose|j: int| 0 <= j < sub.len() && sub[j] == (c, QueuedAction::Spawn);
                assert(reqs[headpart.len() + j] == (c, QueuedAction::Spawn));
                assert(reqs.contains((c, QueuedAction::Spawn)));
            }
        }
    }
}

/// The 3 by 3 proximity set around the player's current chunk: the nine
/// coordinates with their slots, or the first coordinate (in walk order)
/// that is not registered — a consistency fault for the caller, since
/// every chunk near the player must be loaded before edits can happen.
pub fn close_chunks(chunk_map: &ChunkMap, center: [i32; 2]) -> (r: Result<
    Vec<([i32; 2], ChunkSlot)>,
    [i32; 2],
>)
    requires
        chunk_map.wf(),
        -CHUNK_COORD_LIMIT <= center[0] <= CHUNK_COORD_LIMIT,
        -CHUNK_COORD_LIMIT <= center[1] <= CHUNK_COORD_LIMIT,
    ensures
        match r {
            Ok(v) => {
                &&& v@.len() == 9
                &&& forall|k: int|
                    0 <= k < 9 ==> (#[trigger] v@[k]).0 == window_coord(center, 1, k)
                        && chunk_map.spec_contains(v@[k].0) && v@[k].1 == chunk_map.spec_slot(
                        v@[k].0,
                    )
            },
            Err(c) => {
                &&& !chunk_map.spec_contains(c)
                &&& in_window(c, center, 1)
                &&& exists|k: int|
                    0 <= k < 9 && c == window_coord(center, 1, k) && (forall|j: int|
                        0 <= j < k ==> chunk_map.spec_contains(#[trigger] window_coord(
                            center,
                            1,
                            j,
                        )))
            },
        },
{
    let mut v: Vec<([i32; 2], ChunkSlot)> = Vec::new();
    let mut k: usize = 0;
    while k < 9
        invariant
            chunk_map.wf(),
            -CHUNK_COORD_LIMIT <= center[0] <= CHUNK_COORD_LIMIT,
            -CHUNK_COORD_LIMIT <= center[1] <= CHUNK_COORD_LIMIT,
            0 <= k <= 9,
            v@.len() == k,
            forall|j: int|
                0 <= j < k ==> (#[trigger] v@[j]).0 == window_coord(center, 1, j)
                    && chunk_map.spec_contains(v@[j].0) && v@[j].1 == chunk_map.spec_slot(v@[j].0),
            forall|j: int| 0 <= j < k ==> chunk_map.spec_contains(#[trigger] window_coord(center, 1, j)),
        decreases 9 - k,
    {
        let u = (k / 3) as i32 - 1;
        let w = (k % 3) as i32 - 1;
        let c: [i32; 2] = [center[0] + u, center[1] + w];
        proof {
            assert(c =~= window_coord(center, 1, k as int));
        }
        match chunk_map.get_ent(c) {
            Some(slot) => {
                v.push((c, slot));
            },
            None => {
                return Err(c);
            },
        }
        k = k + 1;
    }
    Ok(v)
}

} // verus!
