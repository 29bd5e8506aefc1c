use voxel_world::blocks::{BlockRegistry, AIR, DIRT, GLASS, LEAVES, STONE};
use voxel_world::cage::{movement_axes_free, update_cage, CAGE_LEN};
use voxel_world::chunk::Chunk;
use voxel_world::coords::one_d_cords;
use voxel_world::cull::cull_sides_of_mesh;
use voxel_world::face::Face;
use voxel_world::inventory::Inventory;
use voxel_world::metadata::VoxelChange;

const DIMS: (usize, usize, usize) = (4, 4, 4);

#[test]
fn covering_blocks() {
    let registry = BlockRegistry::standard();
    for face in [Face::Top, Face::Bottom, Face::Right, Face::Left, Face::Back, Face::Forward] {
        assert!(!registry.is_covering(&AIR, face));
        assert!(!registry.is_covering(&LEAVES, face));
        assert!(!registry.is_covering(&GLASS, face));
        assert!(registry.is_covering(&DIRT, face));
        assert!(registry.is_covering(&STONE, face));
    }
    // A kind the registry does not describe never covers.
    assert!(!registry.is_covering(&999, Face::Top));
}

#[test]
fn cull_pending_sides_against_loaded_neighbors() {
    let registry = BlockRegistry::standard();
    let mut chunks = vec![
        Chunk::new([0, 0], vec![DIRT; 64], DIMS),
        Chunk::new([1, 0], vec![DIRT; 64], DIMS),
    ];
    // Top and bottom have no neighbor chunks and start culled; all four
    // sides are pending. Only the Right neighbor is loaded.
    let culled = cull_sides_of_mesh(&mut chunks, 0, [true, true, false, false, false, false],
        &registry, DIMS);
    assert_eq!(culled, [true, true, true, false, false, false]);
    assert!(chunks[0].dirty);
    // One CullFaces entry per voxel of the right boundary face (4x4),
    // each hiding behind a covering dirt voxel of the neighbor.
    assert_eq!(chunks[0].meta_data.len(), 16);
    for i in 0..16 {
        let e = chunks[0].meta_data.entry_at(i);
        assert_eq!(e.change, VoxelChange::CullFaces);
        assert_eq!(e.voxel, DIRT);
        // Every logged voxel lies on the x = 3 boundary.
        assert_eq!(e.voxel_index % 4, 3);
        // The neighbor's touching voxel is seen through the Right face.
        assert_eq!(e.neighbors, [None, None, Some(DIRT), None, None, None]);
    }
    // The neighbor chunk itself is untouched.
    assert_eq!(chunks[1].meta_data.len(), 0);
}

#[test]
fn cull_skips_non_covering_neighbor_voxels() {
    let registry = BlockRegistry::standard();
    let mut chunks = vec![
        Chunk::new([0, 0], vec![DIRT; 64], DIMS),
        Chunk::new([1, 0], vec![GLASS; 64], DIMS),
    ];
    // Glass does not cover, so nothing is hidden.
    let culled = cull_sides_of_mesh(&mut chunks, 0, [true, true, false, true, true, true],
        &registry, DIMS);
    assert_eq!(culled, [true, true, true, true, true, true]);
    assert_eq!(chunks[0].meta_data.len(), 0);
}

#[test]
fn cage_samples_loaded_blocks_and_air_elsewhere() {
    let dims = (16, 16, 16);
    let chunks = vec![Chunk::new([0, 0], vec![DIRT; 16 * 16 * 16], dims)];
    // Player block at (8, 8, 8): the whole cage lies inside the chunk.
    let cage = update_cage(&chunks, (8, 8, 8), dims);
    assert_eq!(cage.len(), CAGE_LEN);
    assert!(cage.iter().all(|&b| b == DIRT));
    // Player high above the world: everything above the height range is
    // air.
    let cage = update_cage(&chunks, (8, 40, 8), dims);
    assert!(cage.iter().all(|&b| b == AIR));
    // Player next to an unloaded chunk: cells beyond the seam are air.
    let cage = update_cage(&chunks, (0, 8, 8), dims);
    let in_chunk = one_d_cords([4, 3, 3], (7, 7, 7));
    let beyond = one_d_cords([2, 3, 3], (7, 7, 7));
    assert_eq!(cage[in_chunk], DIRT);
    assert_eq!(cage[beyond], AIR);
}

#[test]
fn movement_blocked_by_solid_cage_cells() {
    let mut cage = vec![AIR; CAGE_LEN];
    // A solid block one step in +x from the center.
    cage[one_d_cords([4, 3, 3], (7, 7, 7))] = STONE;
    let (fx, fy, fz) = movement_axes_free(&cage, 1, 1, 1);
    assert!(!fx);
    assert!(fy);
    assert!(fz);
    // Moving the other way is free.
    let (fx, _, _) = movement_axes_free(&cage, -1, 0, 0);
    assert!(fx);
    // Diagonal movement also checks the combined x-z cell.
    let mut cage = vec![AIR; CAGE_LEN];
    cage[one_d_cords([4, 3, 4], (7, 7, 7))] = STONE;
    let (fx, _, fz) = movement_axes_free(&cage, 1, 0, 1);
    assert!(fx);
    assert!(!fz);
}

#[test]
fn inventory_selection_wraps() {
    let mut inv = Inventory::default();
    assert_eq!(inv.current_block(), voxel_world::blocks::GRASS);
    inv.next_item();
    assert_eq!(inv.current_block(), voxel_world::blocks::DIRT);
    inv.select(2);
    assert_eq!(inv.current_block(), voxel_world::blocks::STONE);
    inv.select(9);
    assert_eq!(inv.current_block(), voxel_world::blocks::GRASS);
    for _ in 0..9 {
        inv.next_item();
    }
    assert_eq!(inv.current_block(), voxel_world::blocks::GRASS);
}

#[test]
fn atlas_tiles_for_known_kinds() {
    let registry = BlockRegistry::standard();
    let grass_top = registry.atlas_tile(voxel_world::blocks::GRASS, Face::Top).unwrap();
    assert_eq!((grass_top.col, grass_top.row), (0, 0));
    let grass_side = registry.atlas_tile(voxel_world::blocks::GRASS, Face::Left).unwrap();
    assert_eq!((grass_side.col, grass_side.row), (1, 0));
    let dirt = registry.atlas_tile(DIRT, Face::Back).unwrap();
    assert_eq!((dirt.col, dirt.row), (2, 0));
    assert!(registry.atlas_tile(999, Face::Top).is_none());
}
