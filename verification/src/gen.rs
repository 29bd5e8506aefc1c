//! Terrain grid assembly: turns a per-column height map into a full voxel
//! grid. Columns are dirt up to their height, grass exactly at the height
//! (when above the grass line, a quarter of the chunk height), and air
//! above. The grid is a pure function of the height map, so generation is
//! deterministic: equal height maps give byte-identical grids.
//!
//! The height map itself comes from a 2D coherent-noise source sampled per
//! column outside this crate; everything after that sample is verified here.

use vstd::prelude::*;

verus! {

use crate::blocks::AIR;
use crate::blocks::Block;
use crate::blocks::DIRT;
use crate::blocks::GRASS;
use crate::coords::Dimensions;
use crate::coords::dims_valid;
use crate::coords::spec_chunk_len;
use crate::coords::spec_one_d;
use crate::coords::spec_three_d;
use crate::coords::lemma_one_d_in_range;
use crate::coords::lemma_three_d_of_one_d;

/// The block of a column with height `h` at altitude `y`, for a chunk of
/// height `height_dim`: air above the height, grass exactly at it when
/// above the grass line, dirt otherwise.
pub open spec fn spec_terrain_voxel(h: int, y: int, height_dim: int) -> Block {
    if h < y {
        AIR
    } else if h == y && y > height_dim / 4 {
        GRASS
    } else {
        DIRT
    }
}

/// The generated grid: every voxel determined by its column's height and
/// its altitude.
pub open spec fn spec_generate(heights: Seq<usize>, dims: Dimensions) -> Seq<Block> {
    Seq::new(
        spec_chunk_len(dims) as nat,
        |i: int|
            {
                let c = spec_three_d(i, dims);
                spec_terrain_voxel(
                    heights[c[0] + c[2] * dims.0] as int,
                    c[1] as int,
                    dims.1 as int,
                )
            },
    )
}

/// Builds the voxel grid of one chunk from its per-column height map
/// (indexed `x + z * width`).
///
/// The result is exactly `spec_generate(heights, dims)`: a pure function of
/// the height map, so two calls on the same heights agree voxel for voxel.
pub fn generate_chunk(heights: &Vec<usize>, dims: Dimensions) -> (r: Vec<Block>)
    requires
        dims_valid(dims),
        heights@.len() == dims.0 * dims.2,
    ensures
        r@ == spec_generate(heights@, dims),
        r@.len() == spec_chunk_len(dims),
{
    let mut grid: Vec<Block> = Vec::new();
    let mut y: usize = 0;
    while y < dims.1
        invariant
            dims_valid(dims),
            heights@.len() == dims.0 * dims.2,
            0 <= y <= dims.1,
            grid@.len() == y * (dims.0 * dims.2),
            forall|i: int| 0 <= i < grid@.len() ==> grid@[i] == spec_generate(heights@, dims)[i],
        decreases dims.1 - y,
    {
        let mut z: usize = 0;
        proof {
            lemma_one_d_in_range([0, y, 0], dims);
        }
        while z < dims.2
            invariant
                dims_valid(dims),
                heights@.len() == dims.0 * dims.2,
                0 <= y < dims.1,
                0 <= z <= dims.2,
                grid@.len() == y * (dims.0 * dims.2) + z * dims.0,
                forall|i: int|
                    0 <= i < grid@.len() ==> grid@[i] == spec_generate(heights@, dims)[i],
            decreases dims.2 - z,
        {
            let mut x: usize = 0;
            while x < dims.0
                invariant
                    dims_valid(dims),
                    heights@.len() == dims.0 * dims.2,
                    0 <= y < dims.1,
                    0 <= z < dims.2,
                    0 <= x <= dims.0,
                    grid@.len() == y * (dims.0 * dims.2) + z * dims.0 + x,
                    forall|i: int|
                        0 <= i < grid@.len() ==> grid@[i] == spec_generate(heights@, dims)[i],
                decreases dims.0 - x,
            {
                proof {
                    lemma_one_d_in_range([x, y, z], dims);
                    lemma_three_d_of_one_d([x, y, z], dims);
                    assert(x + z * dims.0 < dims.0 * dims.2) by (nonlinear_arith)
                        requires
                            0 <= x < dims.0,
                            0 <= z < dims.2,
                    ;
                }
                let col = x + z * dims.0;
                let h = heights[col];
                let v: Block = if h < y {
                    AIR
                } else if h == y && y > dims.1 / 4 {
                    GRASS
                } else {
                    DIRT
                };
                grid.push(v);
                x = x + 1;
            }
            z = z + 1;
            proof {
                lemma_sum_step_z(y as int, z as int, dims);
            }
        }
        y = y + 1;
        proof {
            lemma_sum_step_y(y as int, dims);
        }
    }
    proof {
        assert(grid@.len() == spec_chunk_len(dims)) by (nonlinear_arith)
            requires
                grid@.len() == dims.1 * (dims.0 * dims.2),
                spec_chunk_len(dims) == dims.0 * dims.1 * dims.2,
        ;
        assert(grid@ =~= spec_generate(heights@, dims));
    }
    grid
}

/// Finishing a z-row advances the write position by one row of x values.
proof fn lemma_sum_step_z(y: int, z: int, dims: Dimensions)
    requires
        0 < z,
    ensures
        y * (dims.0 * dims.2) + (z - 1) * dims.0 + dims.0 == y * (dims.0 * dims.2) + z * dims.0,
{
    assert((z - 1) * dims.0 + dims.0 == z * dims.0) by (nonlinear_arith);
}

/// Finishing a y-layer advances the write position by one layer.
proof fn lemma_sum_step_y(y: int, dims: Dimensions)
    requires
        0 < y,
    ensures
        (y - 1) * (dims.0 * dims.2) + dims.2 * dims.0 == y * (dims.0 * dims.2),
{
    assert((y - 1) * (dims.0 * dims.2) + dims.2 * dims.0 == y * (dims.0 * dims.2))
        by (nonlinear_arith);
}

} // verus!
