use voxel_world::chunk_map::{ChunkMap, ChunkSlot};
use voxel_world::chunk_queue::{ChunkQueue, QueuedAction};
use voxel_world::window::{close_chunks, update_chunk_window};

/// Every chunk of the old 5x5 window around [0, 0] is registered; the
/// player then moves to [5, 5]. The two windows are disjoint, so every
/// old chunk must be queued for despawn and every new coordinate for
/// spawn, each exactly once.
#[test]
fn window_update_after_move() {
    let mut map = ChunkMap::new();
    let mut h = 0u64;
    for u in -2i32..=2 {
        for v in -2i32..=2 {
            map.insert_ent([u, v], ChunkSlot::Ready(h));
            h += 1;
        }
    }
    let mut queue = ChunkQueue::new(true);
    update_chunk_window(&mut queue, &map, [5, 5], 2);
    let pending = queue.pending_requests();

    let in_new = |c: [i32; 2]| (c[0] - 5).abs() <= 2 && (c[1] - 5).abs() <= 2;
    let was_old = |c: [i32; 2]| c[0].abs() <= 2 && c[1].abs() <= 2;

    for u in -2i32..=2 {
        for v in -2i32..=2 {
            let c = [u, v];
            let queued = pending.contains(&(c, QueuedAction::Despawn));
            assert_eq!(queued, !in_new(c), "despawn of {:?}", c);
        }
    }
    for u in 3i32..=7 {
        for v in 3i32..=7 {
            let c = [u, v];
            let queued = pending.contains(&(c, QueuedAction::Spawn));
            assert_eq!(queued, !was_old(c), "spawn of {:?}", c);
        }
    }
    // No request mentions any other coordinate.
    for &(c, a) in pending.iter() {
        match a {
            QueuedAction::Despawn => assert!(was_old(c) && !in_new(c)),
            QueuedAction::Spawn => assert!(in_new(c) && !was_old(c)),
        }
    }
}

/// A short move whose windows overlap: a chunk inside both windows is
/// already in its correct end state and is queued for neither.
#[test]
fn overlapping_windows_queue_nothing_twice() {
    let mut map = ChunkMap::new();
    for u in -2i32..=2 {
        for v in -2i32..=2 {
            map.insert_ent([u, v], ChunkSlot::Ready((25 + u + 5 * v) as u64));
        }
    }
    let mut queue = ChunkQueue::new(true);
    update_chunk_window(&mut queue, &map, [1, 1], 2);
    let pending = queue.pending_requests();
    for u in -1i32..=2 {
        for v in -1i32..=2 {
            let c = [u, v];
            assert!(!pending.contains(&(c, QueuedAction::Despawn)), "despawn of {:?}", c);
            assert!(!pending.contains(&(c, QueuedAction::Spawn)), "spawn of {:?}", c);
        }
    }
    // The row and column that left the window are despawned; the new
    // ones are spawned.
    assert!(pending.contains(&([-2, 0], QueuedAction::Despawn)));
    assert!(pending.contains(&([0, -2], QueuedAction::Despawn)));
    assert!(pending.contains(&([3, 1], QueuedAction::Spawn)));
    assert!(pending.contains(&([1, 3], QueuedAction::Spawn)));
}

#[test]
fn close_chunks_wants_the_whole_three_by_three() {
    let mut map = ChunkMap::new();
    for u in -1i32..=1 {
        for v in -1i32..=1 {
            map.insert_ent([u, v], ChunkSlot::Ready((10 + u + 3 * v) as u64));
        }
    }
    let close = close_chunks(&map, [0, 0]).expect("all nine chunks are loaded");
    assert_eq!(close.len(), 9);
    for &(c, slot) in close.iter() {
        assert!(c[0].abs() <= 1 && c[1].abs() <= 1);
        assert_eq!(slot, ChunkSlot::Ready((10 + c[0] + 3 * c[1]) as u64));
    }
    map.remove_ent([1, 1], ChunkSlot::Ready(14));
    assert_eq!(close_chunks(&map, [0, 0]), Err([1, 1]));
}
