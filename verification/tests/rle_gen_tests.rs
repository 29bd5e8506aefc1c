use voxel_world::blocks::{AIR, DIRT, GRASS};
use voxel_world::gen::generate_chunk;
use voxel_world::rle::{rle_compress, rle_decompress};

#[test]
fn rle_round_trip_all_identical() {
    let grid = vec![7u16; 64];
    let c = rle_compress(&grid);
    assert_eq!(c, vec![(7u16, 64usize)]);
    assert_eq!(rle_decompress(&c), grid);
}

#[test]
fn rle_round_trip_fully_alternating() {
    let mut grid = Vec::new();
    for i in 0..64 {
        grid.push((i % 2) as u16);
    }
    let c = rle_compress(&grid);
    assert_eq!(c.len(), 64);
    assert_eq!(rle_decompress(&c), grid);
}

#[test]
fn rle_round_trip_empty_and_mixed() {
    let empty: Vec<u16> = Vec::new();
    assert_eq!(rle_compress(&empty), Vec::new());
    assert_eq!(rle_decompress(&rle_compress(&empty)), empty);

    let grid = vec![1, 1, 2, 3, 3, 3, 1];
    let c = rle_compress(&grid);
    assert_eq!(c, vec![(1, 2), (2, 1), (3, 3), (1, 1)]);
    assert_eq!(rle_decompress(&c), grid);
}

#[test]
fn generated_column_layers() {
    // One chunk of 4x8x4; a column of height 5 is dirt below, grass at
    // the height (above the grass line 8 / 4 = 2), air above.
    let dims = (4usize, 8usize, 4usize);
    let heights = vec![5usize; 16];
    let grid = generate_chunk(&heights, dims);
    assert_eq!(grid.len(), 4 * 8 * 4);
    for y in 0..8usize {
        let v = grid[y * 16];
        if y < 5 {
            assert_eq!(v, DIRT);
        } else if y == 5 {
            assert_eq!(v, GRASS);
        } else {
            assert_eq!(v, AIR);
        }
    }
}

#[test]
fn generated_grass_line() {
    // A column whose height is at or below a quarter of the chunk height
    // gets dirt at the surface, not grass.
    let dims = (1usize, 8usize, 1usize);
    let low = generate_chunk(&vec![2usize], dims);
    assert_eq!(low[2], DIRT);
    let high = generate_chunk(&vec![3usize], dims);
    assert_eq!(high[3], GRASS);
}

#[test]
fn generation_is_deterministic() {
    let dims = (4usize, 4usize, 4usize);
    let mut heights = Vec::new();
    for i in 0..16 {
        heights.push(i % 5);
    }
    let a = generate_chunk(&heights, dims);
    let b = generate_chunk(&heights, dims);
    assert_eq!(a, b);
}
