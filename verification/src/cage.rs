//! The player's cage: a small cube of blocks sampled around the player,
//! used for cheap collision decisions. Rebuilt whenever the player moves;
//! the movement step then asks, per axis, whether the block one step in
//! the movement direction is free.

use vstd::prelude::*;

verus! {

use crate::blocks::AIR;
use crate::blocks::Block;
use crate::chunk::Chunk;
use crate::chunk::ChunkModel;
use crate::chunk::chunk_at;
use crate::chunk::chunk_index;
use crate::chunk::chunk_models;
use crate::chunk::chunks_unique;
use crate::chunk::chunks_wf;
use crate::chunk::find_chunk;
use crate::coords::Dimensions;
use crate::coords::dims_valid;
use crate::coords::in_bounds;
use crate::coords::lemma_one_d_in_range;
use crate::coords::one_d_cords;
use crate::coords::spec_chunk_len;
use crate::coords::spec_one_d;
use crate::worldpos::FP_HALF;
use crate::worldpos::FP_ONE;
use crate::worldpos::WorldPos;
use crate::worldpos::dims_in_limits;
use crate::worldpos::pos_in_limits;
use crate::worldpos::position_to_chunk_position;
use crate::worldpos::spec_block_coord;
use crate::worldpos::spec_world_to_chunk;
use crate::worldpos::spec_world_to_local;

/// Cage side length. Always odd, so the player's block is its center.
pub const CAGE_SIZE: usize = 7;

/// Offset from a cage corner to its center.
pub const HALF_CAGE_I: i32 = 3;

/// Number of blocks in the cage.
pub const CAGE_LEN: usize = 343;

/// Largest magnitude of a player block coordinate the cage accepts.
pub const CAGE_CENTER_LIMIT: i64 = 0x100_0000;

/// The block sampled into cage cell `(cx, cy, cz)` for a player at block
/// `center`: the world block `center + (cx, cy, cz) - half`, read from
/// the loaded chunk that holds it; air when the vertical position leaves
/// the world's height range or the chunk is not loaded.
pub open spec fn spec_cage_block(
    models: Seq<ChunkModel>,
    center: (i64, i64, i64),
    cx: int,
    cy: int,
    cz: int,
    dims: Dimensions,
) -> Block {
    let bx = center.0 + cx - HALF_CAGE_I;
    let by = center.1 + cy - HALF_CAGE_I;
    let bz = center.2 + cz - HALF_CAGE_I;
    let flag = 0 <= by * FP_ONE + FP_HALF <= dims.1 as int * FP_ONE;
    if !flag {
        AIR
    } else {
        let cc: [i32; 2] = [
            spec_world_to_chunk(bx * FP_ONE, dims.0 as int) as i32,
            spec_world_to_chunk(bz * FP_ONE, dims.2 as int) as i32,
        ];
        let local: [usize; 3] = [
            spec_world_to_local(bx * FP_ONE, dims.0 as int) as usize,
            (if spec_block_coord(by * FP_ONE) >= 0 {
                spec_block_coord(by * FP_ONE)
            } else {
                0
            }) as usize,
            spec_world_to_local(bz * FP_ONE, dims.2 as int) as usize,
        ];
        if chunk_at(models, cc) && in_bounds(local, dims) {
            models[chunk_index(models, cc)].grid[spec_one_d(local, dims)]
        } else {
            AIR
        }
    }
}

/// Samples the cage around the player's block from the loaded chunks.
/// The result holds, at each cage cell's linear index, exactly the block
/// `spec_cage_block` names.
pub fn update_cage(chunks: &Vec<Chunk>, center: (i64, i64, i64), dims: Dimensions) -> (r: Vec<
    Block,
>)
    requires
        dims_valid(dims),
        dims_in_limits(dims),
        chunks_unique(chunk_models(chunks@)),
        chunks_wf(chunk_models(chunks@), dims),
        -CAGE_CENTER_LIMIT <= center.0 <= CAGE_CENTER_LIMIT,
        -CAGE_CENTER_LIMIT <= center.1 <= CAGE_CENTER_LIMIT,
        -CAGE_CENTER_LIMIT <= center.2 <= CAGE_CENTER_LIMIT,
    ensures
        r@.len() == CAGE_LEN,
        forall|cx: int, cy: int, cz: int|
            0 <= cx < 7 && 0 <= cy < 7 && 0 <= cz < 7 ==> r@[cy * 49 + cz * 7 + cx]
                == spec_cage_block(chunk_models(chunks@), center, cx, cy, cz, dims),
{
    let ghost models = chunk_models(chunks@);
    let mut cage: Vec<Block> = Vec::new();
    let mut cy: usize = 0;
    while cy < 7
        invariant
            dims_valid(dims),
            dims_in_limits(dims),
            chunks_unique(models),
            chunks_wf(models, dims),
            models == chunk_models(chunks@),
            -CAGE_CENTER_LIMIT <= center.0 <= CAGE_CENTER_LIMIT,
            -CAGE_CENTER_LIMIT <= center.1 <= CAGE_CENTER_LIMIT,
            -CAGE_CENTER_LIMIT <= center.2 <= CAGE_CENTER_LIMIT,
            0 <= cy <= 7,
            cage@.len() == cy * 49,
            forall|x: int, y: int, z: int|
                0 <= x < 7 && 0 <= y < cy && 0 <= z < 7 ==> cage@[y * 49 + z * 7 + x]
                    == spec_cage_block(models, center, x, y, z, dims),
        decreases 7 - cy,
    {
        let mut cz: usize = 0;
        while cz < 7
            invariant
                dims_valid(dims),
                dims_in_limits(dims),
                chunks_unique(models),
                chunks_wf(models, dims),
                models == chunk_models(chunks@),
                -CAGE_CENTER_LIMIT <= center.0 <= CAGE_CENTER_LIMIT,
                -CAGE_CENTER_LIMIT <= center.1 <= CAGE_CENTER_LIMIT,
                -CAGE_CENTER_LIMIT <= center.2 <= CAGE_CENTER_LIMIT,
                0 <= cy < 7,
                0 <= cz <= 7,
                cage@.len() == cy * 49 + cz * 7,
                forall|x: int, y: int, z: int|
                    0 <= x < 7 && 0 <= y < 7 && 0 <= z < 7 && (y * 49 + z * 7 + x)
                        < cage@.len() ==> cage@[y * 49 + z * 7 + x] == spec_cage_block(
                        models,
                        center,
                        x,
                        y,
                        z,
                        dims,
                    ),
            decreases 7 - cz,
        {
            let mut cx: usize = 0;
            while cx < 7
                invariant
                    dims_valid(dims),
                    dims_in_limits(dims),
                    chunks_unique(models),
                    chunks_wf(models, dims),
                    models == chunk_models(chunks@),
                    -CAGE_CENTER_LIMIT <= center.0 <= CAGE_CENTER_LIMIT,
                    -CAGE_CENTER_LIMIT <= center.1 <= CAGE_CENTER_LIMIT,
                    -CAGE_CENTER_LIMIT <= center.2 <= CAGE_CENTER_LIMIT,
                    0 <= cy < 7,
                    0 <= cz < 7,
                    0 <= cx <= 7,
                    cage@.len() == cy * 49 + cz * 7 + cx,
                    forall|x: int, y: int, z: int|
                        0 <= x < 7 && 0 <= y < 7 && 0 <= z < 7 && (y * 49 + z * 7 + x)
                            < cage@.len() ==> cage@[y * 49 + z * 7 + x] == spec_cage_block(
                            models,
                            center,
                            x,
                            y,
                            z,
                            dims,
                        ),
                decreases 7 - cx,
            {
                let b = sample_block(chunks, center, cx, cy, cz, dims);
                cage.push(b);
                cx = cx + 1;
            }
            cz = cz + 1;
        }
        cy = cy + 1;
    }
    cage
}

/// Samples one cage cell.
fn sample_block(
    chunks: &Vec<Chunk>,
    center: (i64, i64, i64),
    cx: usize,
    cy: usize,
    cz: usize,
    dims: Dimensions,
) -> (r: Block)
    requires
        dims_valid(dims),
        dims_in_limits(dims),
        chunks_unique(chunk_models(chunks@)),
        chunks_wf(chunk_models(chunks@), dims),
        -CAGE_CENTER_LIMIT <= center.0 <= CAGE_CENTER_LIMIT,
        -CAGE_CENTER_LIMIT <= center.1 <= CAGE_CENTER_LIMIT,
        -CAGE_CENTER_LIMIT <= center.2 <= CAGE_CENTER_LIMIT,
        cx < 7,
        cy < 7,
        cz < 7,
    ensures
        r == spec_cage_block(chunk_models(chunks@), center, cx as int, cy as int, cz as int, dims),
{
    let ghost models = chunk_models(chunks@);
    let bx = center.0 + cx as i64 - HALF_CAGE_I as i64;
    let by = center.1 + cy as i64 - HALF_CAGE_I as i64;
    let bz = center.2 + cz as i64 - HALF_CAGE_I as i64;
    if !(by * FP_ONE + FP_HALF >= 0 && by * FP_ONE + FP_HALF <= (dims.1 as i64) * FP_ONE) {
        proof {
            assert(FP_ONE <= dims.1 as int * FP_ONE) by (nonlinear_arith)
                requires
                    0 < dims.1,
            ;
        }
        return AIR;
    }
    let p = WorldPos { x: bx * FP_ONE, y: by * FP_ONE, z: bz * FP_ONE };
    let (cc, local, flag) = position_to_chunk_position(p, dims);
    match find_chunk(chunks, cc) {
        None => {
            proof {
                assert(cc =~= [
                    spec_world_to_chunk(bx as int * FP_ONE, dims.0 as int) as i32,
                    spec_world_to_chunk(bz as int * FP_ONE, dims.2 as int) as i32,
                ]);
            }
            AIR
        },
        Some(ci) => {
            proof {
                assert(cc =~= [
                    spec_world_to_chunk(bx as int * FP_ONE, dims.0 as int) as i32,
                    spec_world_to_chunk(bz as int * FP_ONE, dims.2 as int) as i32,
                ]);
                assert(models[ci as int] == chunks@[ci as int].model());
                assert(models[ci as int].grid.len() == spec_chunk_len(dims));
            }
            if local[0] < dims.0 && local[1] < dims.1 && local[2] < dims.2 {
                proof {
                    lemma_one_d_in_range(local, dims);
                }
                let idx = one_d_cords(local, dims);
                chunks[ci].grid[idx]
            } else {
                AIR
            }
        },
    }
}

/// Which axes the player may move along: the cage block one step in the
/// movement direction on each axis must be air, and diagonal horizontal
/// movement also needs the combined x-z block free.
pub fn movement_axes_free(cage: &Vec<Block>, dx: i32, dy: i32, dz: i32) -> (r: (bool, bool, bool))
    requires
        cage@.len() == CAGE_LEN,
        -1 <= dx <= 1,
        -1 <= dy <= 1,
        -1 <= dz <= 1,
    ensures
        r.0 == (cage@[3 * 49 + 3 * 7 + (3 + dx)] == AIR),
        r.1 == (cage@[(3 + dy) * 49 + 3 * 7 + 3] == AIR),
        r.2 == (cage@[3 * 49 + (3 + dz) * 7 + 3] == AIR && cage@[3 * 49 + (3 + dz) * 7 + (3
            + dx)] == AIR),
{
    let xi = (3 + dx) as usize;
    let yi = (3 + dy) as usize;
    let zi = (3 + dz) as usize;
    let xblock = cage[3 * 49 + 3 * 7 + xi];
    let yblock = cage[yi * 49 + 3 * 7 + 3];
    let zblock = cage[3 * 49 + zi * 7 + 3];
    let xzblock = cage[3 * 49 + zi * 7 + xi];
    (xblock == AIR, yblock == AIR, zblock == AIR && xzblock == AIR)
}

} // verus!
