use voxel_world::worldpos::{
    chunk_center_world_position, position_to_chunk, position_to_chunk_position, WorldPos, FP_HALF,
    FP_ONE,
};

const DIMS: (usize, usize, usize) = (16, 16, 16);

fn at(x: i64, y: i64, z: i64) -> WorldPos {
    // A position given in whole world units.
    WorldPos { x: x * FP_ONE, y: y * FP_ONE, z: z * FP_ONE }
}

#[test]
fn chunk_of_origin_and_positives() {
    assert_eq!(position_to_chunk(at(0, 0, 0), DIMS), [0, 0]);
    assert_eq!(position_to_chunk(at(15, 0, 0), DIMS), [0, 0]);
    assert_eq!(position_to_chunk(at(16, 0, 31), DIMS), [1, 1]);
    assert_eq!(position_to_chunk(at(32, 0, 0), DIMS), [2, 0]);
}

#[test]
fn chunk_of_negatives_uses_floor_division() {
    // One step into negative space is already chunk -1, not chunk 0.
    assert_eq!(position_to_chunk(at(-1, 0, 0), DIMS), [-1, 0]);
    assert_eq!(position_to_chunk(at(-16, 0, 0), DIMS), [-1, 0]);
    assert_eq!(position_to_chunk(at(-17, 0, -33), DIMS), [-2, -3]);
}

#[test]
fn local_coordinates_and_height_flag() {
    let (chunk, local, flag) = position_to_chunk_position(at(17, 3, -2), DIMS);
    assert_eq!(chunk, [1, -1]);
    assert_eq!(local, [1, 3, 14]);
    assert!(flag);

    let (_, _, below) = position_to_chunk_position(at(0, -2, 0), DIMS);
    assert!(!below);
    let (_, _, above) = position_to_chunk_position(at(0, 17, 0), DIMS);
    assert!(!above);
}

#[test]
fn half_unit_offsets_round_to_cells() {
    // The voxel at integer coordinate 0 spans [-1/2, 1/2) around it.
    let p = WorldPos { x: FP_HALF - 1, y: 0, z: -FP_HALF - 1 };
    let (chunk, local, _) = position_to_chunk_position(p, DIMS);
    assert_eq!(chunk, [0, -1]);
    assert_eq!(local, [0, 0, 15]);
    let q = WorldPos { x: FP_HALF, y: 0, z: -FP_HALF };
    let (chunk2, local2, _) = position_to_chunk_position(q, DIMS);
    assert_eq!(chunk2, [0, 0]);
    assert_eq!(local2, [1, 0, 0]);
}

#[test]
fn center_round_trip() {
    for &c in &[[0, 0], [1, 0], [-1, -1], [7, -3], [100, 250], [-512, 511]] {
        let center = chunk_center_world_position(c, DIMS);
        assert_eq!(position_to_chunk(center, DIMS), c);
    }
    // Also on non-cubic dimensions.
    let dims = (5, 3, 9);
    for &c in &[[0, 0], [-4, 2], [33, -27]] {
        let center = chunk_center_world_position(c, dims);
        assert_eq!(position_to_chunk(center, dims), c);
    }
}
