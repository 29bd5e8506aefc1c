use voxel_world::edit::{break_event_from_crossings, place_event_from_crossings};
use voxel_world::face::Face;
use voxel_world::metadata::VoxelChange;
use voxel_world::target::{blocks_in_the_way, REACH_DISTANCE};
use voxel_world::worldpos::{WorldPos, FP_ONE};

const DIMS: (usize, usize, usize) = (16, 16, 16);

/// An eye position inside the voxel at (0, 0, 0), a quarter unit off its
/// center on every axis.
fn eye() -> WorldPos {
    WorldPos { x: FP_ONE / 4, y: FP_ONE / 4, z: FP_ONE / 4 }
}

/// Looking along +x, the first crossing is the voxel at local (1, 0, 0),
/// entered through its Left face (the face whose outward normal points
/// toward negative x) — and so on for all six axis-aligned approach
/// directions. Crossings below the world bottom clamp their vertical
/// cell at zero (the candidate builders drop them).
#[test]
fn entered_face_for_all_six_directions() {
    let pos = eye();
    let cases: [(WorldPos, Face, [i32; 2], [usize; 3]); 6] = [
        (WorldPos { x: FP_ONE, y: 0, z: 0 }, Face::Left, [0, 0], [1, 0, 0]),
        (WorldPos { x: -FP_ONE, y: 0, z: 0 }, Face::Right, [-1, 0], [15, 0, 0]),
        (WorldPos { x: 0, y: FP_ONE, z: 0 }, Face::Bottom, [0, 0], [0, 1, 0]),
        (WorldPos { x: 0, y: -FP_ONE, z: 0 }, Face::Top, [0, 0], [0, 0, 0]),
        (WorldPos { x: 0, y: 0, z: FP_ONE }, Face::Forward, [0, 0], [0, 0, 1]),
        (WorldPos { x: 0, y: 0, z: -FP_ONE }, Face::Back, [0, -1], [0, 0, 15]),
    ];
    for (dir, expected_face, expected_chunk, expected_cell) in cases {
        let crossings = blocks_in_the_way(pos, dir, REACH_DISTANCE, DIMS);
        assert!(!crossings.is_empty());
        let (chunk, local, face) = crossings[0];
        assert_eq!(chunk, expected_chunk, "direction {:?}", dir);
        assert_eq!(local, expected_cell, "direction {:?}", dir);
        assert_eq!(face, expected_face, "direction {:?}", dir);
    }
}

/// Marching +x collects consecutive cells in order, each entered through
/// its Left face, all within the reach distance.
#[test]
fn crossings_are_ordered_and_within_reach() {
    let pos = eye();
    let dir = WorldPos { x: FP_ONE, y: 0, z: 0 };
    let crossings = blocks_in_the_way(pos, dir, REACH_DISTANCE, DIMS);
    assert!(crossings.len() >= 4);
    assert!(crossings.len() <= 6);
    for (k, &(chunk, local, face)) in crossings.iter().enumerate() {
        assert_eq!(chunk, [0, 0]);
        assert_eq!(local, [1 + k, 0, 0]);
        assert_eq!(face, Face::Left);
    }
}

/// Determinism: casting the same ray twice gives identical crossings.
#[test]
fn targeting_is_deterministic() {
    let pos = WorldPos { x: 3 * FP_ONE + 123, y: 5 * FP_ONE + 77, z: 2 * FP_ONE + 900 };
    let dir = WorldPos { x: 2000, y: -1500, z: 3000 };
    let a = blocks_in_the_way(pos, dir, REACH_DISTANCE, DIMS);
    let b = blocks_in_the_way(pos, dir, REACH_DISTANCE, DIMS);
    assert_eq!(a, b);
    assert!(!a.is_empty());
}

/// The break event carries each crossing's cell in order; the placement
/// event starts after the first crossing and steps one voxel back along
/// the entered face, against the crossing's own cell.
#[test]
fn events_from_crossings() {
    let pos = eye();
    let dir = WorldPos { x: FP_ONE, y: 0, z: 0 };
    let crossings = blocks_in_the_way(pos, dir, REACH_DISTANCE, DIMS);

    let break_event = break_event_from_crossings(&crossings, DIMS);
    assert_eq!(break_event.change, VoxelChange::Broken);
    assert_eq!(break_event.blocks.len(), crossings.len());
    assert_eq!(break_event.blocks[0], ([0, 0], 1, None));
    assert_eq!(break_event.blocks[1], ([0, 0], 2, None));

    let place_event = place_event_from_crossings(&crossings, DIMS);
    assert_eq!(place_event.change, VoxelChange::Added);
    assert_eq!(place_event.blocks.len(), crossings.len() - 1);
    // The second crossing is local (2, 0, 0); placing steps back through
    // its Left face onto (1, 0, 0).
    assert_eq!(place_event.blocks[0], ([0, 0], 1, Some(([0, 0], 2))));
}

/// Placing against a crossing on a chunk boundary carries the neighbor
/// chunk's coordinate and its mirrored local index, not a same-chunk
/// offset.
#[test]
fn placement_crosses_chunk_seams() {
    // Looking along -x from inside cell (0, 0, 0): the second crossing is
    // the cell at chunk [-1, 0], local (14, 0, 0)... its entered face is
    // Right, whose neighbor is local (15, 0, 0) of the same chunk.
    let pos = eye();
    let dir = WorldPos { x: -FP_ONE, y: 0, z: 0 };
    let crossings = blocks_in_the_way(pos, dir, REACH_DISTANCE, DIMS);
    assert!(crossings.len() >= 2);
    assert_eq!(crossings[0].0, [-1, 0]);
    assert_eq!(crossings[0].1, [15, 0, 0]);
    let place_event = place_event_from_crossings(&crossings, DIMS);
    // The first placement candidate comes from the crossing at local
    // (14, 0, 0): one step back through its Right face is (15, 0, 0).
    assert_eq!(crossings[1].1, [14, 0, 0]);
    assert_eq!(place_event.blocks[0], ([-1, 0], 15, Some(([-1, 0], 14))));
    // A crossing on the Right boundary itself would instead name the
    // chunk one step over: step back from (15, 0, 0) in chunk [-1, 0]
    // lands on (0, 0, 0) of chunk [0, 0].
    let seam = vec![
        crossings[0],
        ([-1, 0], [15usize, 0usize, 0usize], Face::Right),
    ];
    let seam_event = place_event_from_crossings(&seam, DIMS);
    assert_eq!(seam_event.blocks[0], ([0, 0], 0, Some(([-1, 0], 15))));
}
