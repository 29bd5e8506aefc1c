use voxel_world::blocks::{BlockRegistry, AIR, DIRT, STONE};
use voxel_world::chunk::{take_update, Chunk};
use voxel_world::coords::one_d_cords;
use voxel_world::edit::{handle_block_break_place, BlockChange, EditOutcome};
use voxel_world::metadata::VoxelChange;

const DIMS: (usize, usize, usize) = (4, 4, 4);

fn dirt_chunk(cords: [i32; 2]) -> Chunk {
    Chunk::new(cords, vec![DIRT; 64], DIMS)
}

fn air_chunk(cords: [i32; 2]) -> Chunk {
    Chunk::new(cords, vec![AIR; 64], DIMS)
}

/// Breaking an air voxel is an idempotent no-op: grid and metadata stay
/// untouched and no candidate applies.
#[test]
fn breaking_air_changes_nothing() {
    let registry = BlockRegistry::standard();
    let mut chunks = vec![air_chunk([0, 0])];
    let event = BlockChange { blocks: vec![([0, 0], 5, None)], change: VoxelChange::Broken };
    let outcome = handle_block_break_place(&mut chunks, &registry, &event, STONE, DIMS);
    assert_eq!(outcome, EditOutcome::NoTarget);
    assert!(chunks[0].grid.iter().all(|&b| b == AIR));
    assert_eq!(chunks[0].meta_data.len(), 0);
    assert!(!chunks[0].dirty);
}

/// Placing against an air "onto" reference is rejected whether or not the
/// target cell is empty.
#[test]
fn placing_against_air_is_rejected() {
    let registry = BlockRegistry::standard();
    let mut chunks = vec![air_chunk([0, 0])];
    let event = BlockChange {
        blocks: vec![([0, 0], 5, Some(([0, 0], 6)))],
        change: VoxelChange::Added,
    };
    let outcome = handle_block_break_place(&mut chunks, &registry, &event, STONE, DIMS);
    assert_eq!(outcome, EditOutcome::RejectedOntoAir);
    assert_eq!(chunks[0].meta_data.len(), 0);

    // Also rejected when the target cell is occupied.
    let mut chunks = vec![dirt_chunk([0, 0])];
    chunks[0].grid[6] = AIR;
    let event = BlockChange {
        blocks: vec![([0, 0], 5, Some(([0, 0], 6)))],
        change: VoxelChange::Added,
    };
    let outcome = handle_block_break_place(&mut chunks, &registry, &event, STONE, DIMS);
    assert_eq!(outcome, EditOutcome::RejectedOntoAir);
    assert_eq!(chunks[0].grid[5], DIRT);

    // A missing "onto" reference rejects too.
    let event = BlockChange { blocks: vec![([0, 0], 5, None)], change: VoxelChange::Added };
    let outcome = handle_block_break_place(&mut chunks, &registry, &event, STONE, DIMS);
    assert_eq!(outcome, EditOutcome::RejectedOntoAir);
}

/// Placing into an already-occupied cell is rejected.
#[test]
fn placing_into_occupied_cell_is_rejected() {
    let registry = BlockRegistry::standard();
    let mut chunks = vec![dirt_chunk([0, 0])];
    let event = BlockChange {
        blocks: vec![([0, 0], 5, Some(([0, 0], 6)))],
        change: VoxelChange::Added,
    };
    let outcome = handle_block_break_place(&mut chunks, &registry, &event, STONE, DIMS);
    assert_eq!(outcome, EditOutcome::RejectedOccupied);
    assert_eq!(chunks[0].grid[5], DIRT);
    assert_eq!(chunks[0].meta_data.len(), 0);
}

/// A successful placement writes the block in hand and logs one Added
/// entry.
#[test]
fn placing_into_empty_cell_applies() {
    let registry = BlockRegistry::standard();
    let mut chunks = vec![dirt_chunk([0, 0])];
    let target = one_d_cords([1, 1, 1], DIMS);
    chunks[0].grid[target] = AIR;
    let onto = one_d_cords([1, 0, 1], DIMS);
    let event = BlockChange {
        blocks: vec![([0, 0], target, Some(([0, 0], onto)))],
        change: VoxelChange::Added,
    };
    let outcome = handle_block_break_place(&mut chunks, &registry, &event, STONE, DIMS);
    assert_eq!(outcome, EditOutcome::Applied([0, 0], target));
    assert_eq!(chunks[0].grid[target], STONE);
    assert_eq!(chunks[0].meta_data.len(), 1);
    let e = chunks[0].meta_data.entry_at(0);
    assert_eq!(e.change, VoxelChange::Added);
    assert_eq!(e.voxel_index, target);
    assert_eq!(e.voxel, STONE);
    assert!(chunks[0].dirty);
}

/// A 4x4x4 all-dirt chunk; breaking local index 0 empties the cell and
/// logs one Broken entry with the six same-chunk neighbor values: dirt
/// inward, none across the chunk boundary.
#[test]
fn breaking_corner_voxel_logs_neighbors() {
    let registry = BlockRegistry::standard();
    let mut chunks = vec![dirt_chunk([0, 0])];
    let event = BlockChange { blocks: vec![([0, 0], 0, None)], change: VoxelChange::Broken };
    let outcome = handle_block_break_place(&mut chunks, &registry, &event, STONE, DIMS);
    assert_eq!(outcome, EditOutcome::Applied([0, 0], 0));
    assert_eq!(chunks[0].grid[0], AIR);
    assert_eq!(chunks[0].meta_data.len(), 1);
    let e = chunks[0].meta_data.entry_at(0);
    assert_eq!(e.change, VoxelChange::Broken);
    assert_eq!(e.voxel_index, 0);
    assert_eq!(e.voxel, DIRT);
    // Face order: top, bottom, right, left, back, forward.
    assert_eq!(
        e.neighbors,
        [Some(DIRT), None, Some(DIRT), None, Some(DIRT), None]
    );
    assert!(chunks[0].dirty);
    // The broken cell skips straight to the next candidate on a repeat.
    let outcome = handle_block_break_place(&mut chunks, &registry, &event, STONE, DIMS);
    assert_eq!(outcome, EditOutcome::NoTarget);
}

/// Two adjacent chunks; breaking a voxel on the left boundary face of
/// chunk [1, 0] restores the matching face of chunk [0, 0]: an AddFaces
/// entry lands in chunk [0, 0]'s metadata and it is marked dirty.
#[test]
fn breaking_at_seam_restores_neighbor_face() {
    let registry = BlockRegistry::standard();
    let mut chunks = vec![dirt_chunk([0, 0]), dirt_chunk([1, 0])];
    // Local (0, 1, 1) of chunk [1, 0]: on its Left boundary only.
    let target = one_d_cords([0, 1, 1], DIMS);
    let event = BlockChange { blocks: vec![([1, 0], target, None)], change: VoxelChange::Broken };
    let outcome = handle_block_break_place(&mut chunks, &registry, &event, STONE, DIMS);
    assert_eq!(outcome, EditOutcome::Applied([1, 0], target));
    assert_eq!(chunks[1].grid[target], AIR);
    assert!(chunks[1].dirty);
    // The neighbor chunk got exactly one AddFaces entry for its mirrored
    // boundary voxel (local (3, 1, 1)), carrying the old voxel value
    // through the snapshot at its Right face.
    assert!(chunks[0].dirty);
    assert_eq!(chunks[0].meta_data.len(), 1);
    let e = chunks[0].meta_data.entry_at(0);
    assert_eq!(e.change, VoxelChange::AddFaces);
    assert_eq!(e.voxel_index, one_d_cords([3, 1, 1], DIMS));
    assert_eq!(e.voxel, DIRT);
    // The snapshot names the broken voxel at the face it is seen through:
    // the neighbor's Right face (index 2).
    assert_eq!(e.neighbors, [None, None, Some(DIRT), None, None, None]);
}

/// The dirty mark hands its pending entries to mesh re-derivation once.
#[test]
fn take_update_drains_dirty_chunks() {
    let registry = BlockRegistry::standard();
    let mut chunks = vec![dirt_chunk([0, 0])];
    let event = BlockChange { blocks: vec![([0, 0], 21, None)], change: VoxelChange::Broken };
    handle_block_break_place(&mut chunks, &registry, &event, STONE, DIMS);
    assert!(chunks[0].dirty);
    let drained = take_update(&mut chunks[0]).expect("chunk was dirty");
    assert_eq!(drained.len(), 1);
    assert!(!chunks[0].dirty);
    assert_eq!(chunks[0].meta_data.len(), 0);
    assert!(take_update(&mut chunks[0]).is_none());
}
