//! World positions and the mapping onto chunk coordinates.
//!
//! A continuous world position is carried as a fixed-point number:
//! `FP_ONE` fixed-point units are one world unit (the side of a voxel).
//! Voxels are centered on integer world coordinates, so the voxel holding a
//! position `p` starts at `p + 1/2` rounded down, and the chunk holding it is
//! that block coordinate divided (flooring, not truncating) by the chunk's
//! horizontal span.

use vstd::prelude::*;

verus! {

use crate::coords::Dimensions;
use crate::coords::dims_valid;

/// Fixed-point units in one world unit.
pub const FP_ONE: i64 = 4096;

/// Half a world unit, in fixed-point units.
pub const FP_HALF: i64 = 2048;

/// Largest magnitude of a world-position component the library accepts.
pub const POS_LIMIT: i64 = 0x400_0000_0000;

/// Largest chunk dimension component the library accepts.
pub const DIM_LIMIT: usize = 1024;

/// Largest magnitude of a chunk coordinate whose center position the
/// library computes.
pub const CHUNK_COORD_LIMIT: i32 = 0x8_0000;

/// A world position in fixed-point units.
#[derive(Clone, Copy, PartialEq, Eq, Structural, Debug)]
pub struct WorldPos {
    pub x: i64,
    pub y: i64,
    pub z: i64,
}

pub open spec fn pos_in_limits(pos: WorldPos) -> bool {
    -POS_LIMIT <= pos.x <= POS_LIMIT && -POS_LIMIT <= pos.y <= POS_LIMIT && -POS_LIMIT <= pos.z
        <= POS_LIMIT
}

pub open spec fn dims_in_limits(dims: Dimensions) -> bool {
    dims_valid(dims) && dims.0 <= DIM_LIMIT && dims.1 <= DIM_LIMIT && dims.2 <= DIM_LIMIT
}

/// The integer world coordinate of the voxel a fixed-point component falls
/// in: `v + 1/2`, rounded down.
pub open spec fn spec_block_coord(v: int) -> int {
    (v + FP_HALF) / FP_ONE as int
}

/// The chunk coordinate a fixed-point component falls in: floor division of
/// its block coordinate by the chunk's span on that axis.
pub open spec fn spec_world_to_chunk(v: int, span: int) -> int {
    spec_block_coord(v) / span
}

/// The chunk-local block coordinate of a fixed-point component.
pub open spec fn spec_world_to_local(v: int, span: int) -> int {
    spec_block_coord(v) % span
}

/// Floor division of `a` by a positive `b` (rounds toward negative
/// infinity, unlike the machine division which truncates).
fn floor_div_i64(a: i64, b: i64) -> (r: i64)
    requires
        0 < b,
        i64::MIN < a,
    ensures
        r == a as int / b as int,
{
    if a >= 0 {
        let q = (a as u64) / (b as u64);
        proof {
            vstd::arithmetic::div_mod::lemma_div_pos_is_pos(a as int, b as int);
            vstd::arithmetic::div_mod::lemma_div_nonincreasing(a as int, b as int);
        }
        q as i64
    } else {
        let na = (-a) as u64;
        let q = na / (b as u64);
        let rem = na % (b as u64);
        proof {
            vstd::arithmetic::div_mod::lemma_fundamental_div_mod(na as int, b as int);
            vstd::arithmetic::div_mod::lemma_mod_bound(na as int, b as int);
            assert(-(b as int * q as int) == (-(q as int)) * b as int && -(b as int * q as int) - b
                == (-(q as int) - 1) * b as int) by (nonlinear_arith);
            if rem == 0 {
                vstd::arithmetic::div_mod::lemma_fundamental_div_mod_converse(
                    a as int,
                    b as int,
                    -(q as int),
                    0,
                );
            } else {
                vstd::arithmetic::div_mod::lemma_fundamental_div_mod_converse(
                    a as int,
                    b as int,
                    -(q as int) - 1,
                    b - rem,
                );
            }
        }
        if rem == 0 {
            -(q as i64)
        } else {
            -(q as i64) - 1
        }
    }
}

/// The block coordinate of an accepted component is moderate, and so are
/// its chunk quotient and local remainder for any positive span.
proof fn lemma_block_bounds(v: int, span: int)
    requires
        0 < span,
        -POS_LIMIT <= v <= POS_LIMIT,
    ensures
        -0x8000_0000 < spec_block_coord(v) < 0x8000_0000,
        -0x8000_0000 < spec_world_to_chunk(v, span) < 0x8000_0000,
        0 <= spec_world_to_local(v, span) < span,
        spec_block_coord(v) - (spec_block_coord(v) / span) * span == spec_world_to_local(v, span),
{
    let b = spec_block_coord(v);
    vstd::arithmetic::div_mod::lemma_fundamental_div_mod(v + FP_HALF, FP_ONE as int);
    vstd::arithmetic::div_mod::lemma_mod_bound(v + FP_HALF, FP_ONE as int);
    assert(-0x8000_0000 < b < 0x8000_0000) by (nonlinear_arith)
        requires
            v + FP_HALF == FP_ONE * b + ((v + FP_HALF) % (FP_ONE as int)),
            0 <= (v + FP_HALF) % (FP_ONE as int) < FP_ONE,
            -POS_LIMIT <= v <= POS_LIMIT,
    ;
    let q = b / span;
    let r = b % span;
    vstd::arithmetic::div_mod::lemma_fundamental_div_mod(b, span);
    vstd::arithmetic::div_mod::lemma_mod_bound(b, span);
    assert(-0x8000_0000 < q < 0x8000_0000) by (nonlinear_arith)
        requires
            b == span * q + r,
            0 <= r < span,
            -0x8000_0000 < b < 0x8000_0000,
    ;
    assert(span * q == q * span) by (nonlinear_arith);
}

/// The chunk coordinate holding a world position, on the horizontal axes.
///
/// Treats negative coordinates by floor division, never truncation.
pub fn position_to_chunk(pos: WorldPos, dims: Dimensions) -> (r: [i32; 2])
    requires
        dims_in_limits(dims),
        pos_in_limits(pos),
    ensures
        r[0] == spec_world_to_chunk(pos.x as int, dims.0 as int),
        r[1] == spec_world_to_chunk(pos.z as int, dims.2 as int),
{
    proof {
        lemma_block_bounds(pos.x as int, dims.0 as int);
        lemma_block_bounds(pos.z as int, dims.2 as int);
    }
    let bx = floor_div_i64(pos.x + FP_HALF, FP_ONE);
    let bz = floor_div_i64(pos.z + FP_HALF, FP_ONE);
    let cx = floor_div_i64(bx, dims.0 as i64);
    let cz = floor_div_i64(bz, dims.2 as i64);
    [cx as i32, cz as i32]
}

/// The chunk coordinate, chunk-local block coordinate, and whether the
/// vertical component lies within `[0, height]`. Positions outside the
/// height bounds must not be indexed into a grid.
pub fn position_to_chunk_position(pos: WorldPos, dims: Dimensions) -> (r: (
    [i32; 2],
    [usize; 3],
    bool,
))
    requires
        dims_in_limits(dims),
        pos_in_limits(pos),
    ensures
        r.0[0] == spec_world_to_chunk(pos.x as int, dims.0 as int),
        r.0[1] == spec_world_to_chunk(pos.z as int, dims.2 as int),
        r.1[0] == spec_world_to_local(pos.x as int, dims.0 as int),
        r.1[2] == spec_world_to_local(pos.z as int, dims.2 as int),
        r.1[0] < dims.0 && r.1[2] < dims.2,
        r.1[1] == if spec_block_coord(pos.y as int) >= 0 {
            spec_block_coord(pos.y as int)
        } else {
            0
        },
        r.2 <==> 0 <= pos.y + FP_HALF <= dims.1 as int * FP_ONE,
{
    proof {
        lemma_block_bounds(pos.x as int, dims.0 as int);
        lemma_block_bounds(pos.y as int, 1);
        lemma_block_bounds(pos.z as int, dims.2 as int);
        assert(FP_ONE <= dims.1 as int * FP_ONE <= DIM_LIMIT as int * FP_ONE) by (nonlinear_arith)
            requires
                0 < dims.1 <= DIM_LIMIT,
        ;
    }
    let chunk = position_to_chunk(pos, dims);
    let bx = floor_div_i64(pos.x + FP_HALF, FP_ONE);
    let bz = floor_div_i64(pos.z + FP_HALF, FP_ONE);
    let by = floor_div_i64(pos.y + FP_HALF, FP_ONE);
    let lx = bx - (chunk[0] as i64) * (dims.0 as i64);
    let lz = bz - (chunk[1] as i64) * (dims.2 as i64);
    let ly = if by < 0 {
        0
    } else {
        by as usize
    };
    let flag = pos.y + FP_HALF >= 0 && pos.y + FP_HALF <= (dims.1 as i64) * FP_ONE;
    (chunk, [lx as usize, ly, lz as usize], flag)
}

/// The world position at the center of a chunk (vertical component zero).
pub fn chunk_center_world_position(c: [i32; 2], dims: Dimensions) -> (r: WorldPos)
    requires
        dims_in_limits(dims),
        -CHUNK_COORD_LIMIT <= c[0] <= CHUNK_COORD_LIMIT,
        -CHUNK_COORD_LIMIT <= c[1] <= CHUNK_COORD_LIMIT,
    ensures
        pos_in_limits(r),
        spec_world_to_chunk(r.x as int, dims.0 as int) == c[0],
        spec_world_to_chunk(r.z as int, dims.2 as int) == c[1],
        r.y == 0,
{
    proof {
        lemma_center_round_trip(c[0] as int, dims.0 as int);
        lemma_center_round_trip(c[1] as int, dims.2 as int);
    }
    let x = (c[0] as i64) * ((dims.0 as i64) * FP_ONE) + (dims.0 as i64) * FP_HALF - FP_HALF;
    let z = (c[1] as i64) * ((dims.2 as i64) * FP_ONE) + (dims.2 as i64) * FP_HALF - FP_HALF;
    WorldPos { x, y: 0, z }
}

/// Round trip through the chunk center: the center position of chunk `c`
/// maps back to chunk `c`.
proof fn lemma_center_round_trip(c: int, span: int)
    requires
        0 < span <= DIM_LIMIT,
        -CHUNK_COORD_LIMIT <= c <= CHUNK_COORD_LIMIT,
    ensures
        spec_world_to_chunk(c * (span * FP_ONE) + span * FP_HALF - FP_HALF, span) == c,
        -POS_LIMIT <= c * (span * FP_ONE) + span * FP_HALF - FP_HALF <= POS_LIMIT,
        FP_ONE <= span * FP_ONE <= DIM_LIMIT as int * FP_ONE,
        FP_HALF <= span * FP_HALF <= DIM_LIMIT as int * FP_HALF,
{
    let v = c * (span * FP_ONE) + span * FP_HALF - FP_HALF;
    vstd::arithmetic::div_mod::lemma_fundamental_div_mod(span, 2);
    vstd::arithmetic::div_mod::lemma_mod_bound(span, 2);
    assert(FP_ONE <= span * FP_ONE <= DIM_LIMIT as int * FP_ONE && FP_HALF <= span * FP_HALF
        <= DIM_LIMIT as int * FP_HALF) by (nonlinear_arith)
        requires
            0 < span <= DIM_LIMIT,
    ;
    assert(-POS_LIMIT + FP_HALF <= c * (span * FP_ONE) <= POS_LIMIT - DIM_LIMIT as int * FP_ONE)
        by (nonlinear_arith)
        requires
            -CHUNK_COORD_LIMIT <= c <= CHUNK_COORD_LIMIT,
            FP_ONE <= span * FP_ONE <= DIM_LIMIT as int * FP_ONE,
    ;
    // The block coordinate of the center is c * span + span / 2.
    let b = c * span + span / 2;
    assert(c * (span * FP_ONE) + span * FP_HALF == (c * span + span / 2) * FP_ONE + (span % 2)
        * FP_HALF) by (nonlinear_arith)
        requires
            span == 2 * (span / 2) + span % 2,
    ;
    assert(0 <= (span % 2) * FP_HALF < FP_ONE) by (nonlinear_arith)
        requires
            0 <= span % 2 < 2,
    ;
    vstd::arithmetic::div_mod::lemma_fundamental_div_mod_converse(
        v + FP_HALF,
        FP_ONE as int,
        b,
        (span % 2) * FP_HALF,
    );
    assert(spec_block_coord(v) == b);
    assert(0 <= span / 2 < span);
    vstd::arithmetic::div_mod::lemma_fundamental_div_mod_converse(b, span, c, span / 2);
}

} // verus!
