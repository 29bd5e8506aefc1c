use voxel_world::chunk_map::{ChunkMap, ChunkSlot};
use voxel_world::chunk_queue::{ChunkQueue, QueueFault};
use voxel_world::lifecycle::{
    accept_completed_chunk, all_chunks_materialized, expected_initial_chunks, note_chunk_loaded,
    InitialChunkLoadState,
};

#[test]
fn map_insert_get_remove() {
    let mut map = ChunkMap::new();
    assert_eq!(map.get_ent([0, 0]), None);
    map.insert_ent([0, 0], ChunkSlot::Pending);
    map.insert_ent([1, 0], ChunkSlot::Ready(7));
    assert_eq!(map.get_ent([0, 0]), Some(ChunkSlot::Pending));
    assert_eq!(map.get_ent([1, 0]), Some(ChunkSlot::Ready(7)));
    assert!(map.contains([1, 0]));
    assert!(!map.contains([2, 2]));
    map.change_ent([0, 0], ChunkSlot::Ready(3));
    assert_eq!(map.get_ent([0, 0]), Some(ChunkSlot::Ready(3)));
    map.remove_ent([1, 0], ChunkSlot::Ready(7));
    assert_eq!(map.get_ent([1, 0]), None);
    assert_eq!(map.get_ent([0, 0]), Some(ChunkSlot::Ready(3)));
    let keys = map.iter_keys();
    assert_eq!(keys, vec![[0, 0]]);
}

#[test]
fn drain_spawns_and_despawns() {
    let mut map = ChunkMap::new();
    map.insert_ent([5, 5], ChunkSlot::Ready(42));
    map.insert_ent([6, 5], ChunkSlot::Pending);
    let mut queue = ChunkQueue::new(true);
    queue.queue_despawn([5, 5]);
    queue.queue_despawn([6, 5]);
    queue.queue_spawn([7, 5]);
    let (despawns, spawns, fault) = queue.dequeue_all(&mut map);
    assert_eq!(fault, None);
    // The ready chunk is destroyed, the pending one is skipped cleanly.
    assert_eq!(despawns, vec![([5, 5], 42u64)]);
    assert_eq!(spawns, vec![[7, 5]]);
    assert_eq!(map.get_ent([5, 5]), None);
    assert_eq!(map.get_ent([6, 5]), Some(ChunkSlot::Pending));
    // The dispatched spawn reserved its slot at once.
    assert_eq!(map.get_ent([7, 5]), Some(ChunkSlot::Pending));
}

#[test]
fn strict_drain_stops_at_faults() {
    let mut map = ChunkMap::new();
    map.insert_ent([1, 1], ChunkSlot::Ready(9));
    let mut queue = ChunkQueue::new(true);
    queue.queue_despawn([0, 0]);
    queue.queue_spawn([2, 2]);
    let (despawns, spawns, fault) = queue.dequeue_all(&mut map);
    assert_eq!(fault, Some(QueueFault::DespawnMissing([0, 0])));
    assert!(despawns.is_empty());
    assert!(spawns.is_empty());
    // The fault stopped the drain before the spawn was processed.
    assert_eq!(map.get_ent([2, 2]), None);

    let mut queue = ChunkQueue::new(true);
    queue.queue_spawn([1, 1]);
    let (_, _, fault) = queue.dequeue_all(&mut map);
    assert_eq!(fault, Some(QueueFault::DuplicateSpawn([1, 1])));
}

#[test]
fn lenient_drain_skips_faults() {
    let mut map = ChunkMap::new();
    map.insert_ent([1, 1], ChunkSlot::Ready(9));
    let mut queue = ChunkQueue::new(false);
    queue.queue_despawn([0, 0]);
    queue.queue_spawn([1, 1]);
    queue.queue_spawn([2, 2]);
    let (despawns, spawns, fault) = queue.dequeue_all(&mut map);
    assert_eq!(fault, None);
    assert!(despawns.is_empty());
    assert_eq!(spawns, vec![[2, 2]]);
    assert_eq!(map.get_ent([2, 2]), Some(ChunkSlot::Pending));
}

#[test]
fn completion_accepts_in_window_and_discards_outside() {
    let mut map = ChunkMap::new();
    map.insert_ent([3, 3], ChunkSlot::Pending);
    map.insert_ent([9, 9], ChunkSlot::Pending);
    // Player at [2, 2] with render distance 2: [3, 3] is inside.
    assert!(accept_completed_chunk(&mut map, [2, 2], [3, 3], 2, 11));
    assert_eq!(map.get_ent([3, 3]), Some(ChunkSlot::Ready(11)));
    // [9, 9] is outside: discarded, slot cleared.
    assert!(!accept_completed_chunk(&mut map, [2, 2], [9, 9], 2, 12));
    assert_eq!(map.get_ent([9, 9]), None);
}

#[test]
fn load_state_machine() {
    assert_eq!(expected_initial_chunks(2), 25);
    let (n, s) = note_chunk_loaded(InitialChunkLoadState::Loading, 0, 2);
    assert_eq!((n, s), (1, InitialChunkLoadState::Loading));
    let (n, s) = note_chunk_loaded(InitialChunkLoadState::Loading, 1, 2);
    assert_eq!((n, s), (2, InitialChunkLoadState::MeshesLoaded));
    let (n, s) = note_chunk_loaded(InitialChunkLoadState::Complete, 1, 2);
    assert_eq!((n, s), (1, InitialChunkLoadState::Complete));

    let mut map = ChunkMap::new();
    map.insert_ent([0, 0], ChunkSlot::Ready(1));
    assert!(all_chunks_materialized(&map));
    map.insert_ent([0, 1], ChunkSlot::Pending);
    assert!(!all_chunks_materialized(&map));
}
