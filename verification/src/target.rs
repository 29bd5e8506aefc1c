//! Ray-voxel targeting: the ordered sequence of voxel boundary crossings
//! along the player's view ray, each tagged with the face the ray entered
//! through. Positions are fixed-point (`worldpos`); the march is exact
//! integer arithmetic, so two casts of the same ray agree everywhere.
//!
//! The march advances a sample point in small fixed steps (the direction
//! divided by `RAY_STEP_DIVISOR`). Whenever the rounded voxel cell
//! changes, a finer sweep (the step divided by `NANO_STEP_FACTOR`, at most
//! `REFINE_CAP` substeps) locates the crossing point, and the entered face
//! is whichever candidate face plane lies closest to it; the candidate on
//! each axis is fixed by the sign of the direction component. The march
//! samples at most `fuel` points, enough that the reach distance, not the
//! fuel, ends it for any accepted direction.

use vstd::prelude::*;

verus! {

use crate::coords::Dimensions;
use crate::face::Face;
use crate::worldpos::FP_HALF;
use crate::worldpos::FP_ONE;
use crate::worldpos::POS_LIMIT;
use crate::worldpos::WorldPos;
use crate::worldpos::dims_in_limits;
use crate::worldpos::pos_in_limits;
use crate::worldpos::position_to_chunk_position;
use crate::worldpos::spec_block_coord;
use crate::worldpos::spec_world_to_chunk;
use crate::worldpos::spec_world_to_local;

/// One voxel boundary crossing: the chunk, the chunk-local coordinate,
/// and the face of the entered voxel the ray came through.
pub type Crossing = ([i32; 2], [usize; 3], Face);

/// The sample point advances by the direction divided by this.
pub const RAY_STEP_DIVISOR: i64 = 100;

/// The finer sweep advances by the step divided by this.
pub const NANO_STEP_FACTOR: i64 = 15;

/// Most substeps a finer sweep makes before settling.
pub const REFINE_CAP: u64 = 30;

/// How far (in voxels) targeting reaches.
pub const REACH_DISTANCE: u8 = 5;

/// A direction component is at most one world unit per step scale.
pub open spec fn dir_in_limits(dir: WorldPos) -> bool {
    &&& -FP_ONE <= dir.x <= FP_ONE
    &&& -FP_ONE <= dir.y <= FP_ONE
    &&& -FP_ONE <= dir.z <= FP_ONE
    &&& (dir.x >= RAY_STEP_DIVISOR || dir.x <= -RAY_STEP_DIVISOR || dir.y >= RAY_STEP_DIVISOR
        || dir.y <= -RAY_STEP_DIVISOR || dir.z >= RAY_STEP_DIVISOR || dir.z
        <= -RAY_STEP_DIVISOR)
}

/// Ray origins keep a margin below the position limit, so every sample
/// point along the reach stays within limits.
pub open spec fn origin_in_limits(pos: WorldPos) -> bool {
    let m = POS_LIMIT / 2;
    -m <= pos.x <= m && -m <= pos.y <= m && -m <= pos.z <= m
}

/// Truncating division by a positive divisor (rounds toward zero).
pub open spec fn spec_div_trunc(v: int, d: int) -> int {
    if v >= 0 {
        v / d
    } else {
        -((-v) / d)
    }
}

/// The fixed-point component rounded to its voxel coordinate: to the
/// nearest integer, halves away from zero.
pub open spec fn spec_round(v: int) -> int {
    if v >= 0 {
        (v + FP_HALF) / FP_ONE as int
    } else {
        -((-v + FP_HALF) / FP_ONE as int)
    }
}

/// The voxel cell holding a sample point.
pub open spec fn spec_round3(p: WorldPos) -> (int, int, int) {
    (spec_round(p.x as int), spec_round(p.y as int), spec_round(p.z as int))
}

/// Squared distance between two sample points, in fixed-point units.
pub open spec fn spec_dist_sq(a: WorldPos, b: WorldPos) -> int {
    (a.x - b.x) * (a.x - b.x) + (a.y - b.y) * (a.y - b.y) + (a.z - b.z) * (a.z - b.z)
}

pub open spec fn spec_add(a: WorldPos, b: WorldPos) -> WorldPos {
    WorldPos { x: (a.x + b.x) as i64, y: (a.y + b.y) as i64, z: (a.z + b.z) as i64 }
}

/// The distance from a sample point to the face plane of its voxel.
pub open spec fn spec_distance_from_face(p: WorldPos, face: Face) -> int {
    let fx = spec_round(p.x as int) * FP_ONE;
    let fy = spec_round(p.y as int) * FP_ONE;
    let fz = spec_round(p.z as int) * FP_ONE;
    let d: int = match face {
        Face::Top => fy + FP_HALF - p.y,
        Face::Bottom => fy - FP_HALF - p.y,
        Face::Right => fx + FP_HALF - p.x,
        Face::Left => fx - FP_HALF - p.x,
        Face::Back => fz + FP_HALF - p.z,
        Face::Forward => fz - FP_HALF - p.z,
    };
    if d >= 0 {
        d
    } else {
        -d
    }
}

/// Of the three candidate faces, the one whose plane lies closest to the
/// refined crossing point; the x candidate wins ties with y, and both win
/// ties with z.
pub open spec fn spec_closest_face(p: WorldPos, fx: Face, fy: Face, fz: Face) -> Face {
    let dx = spec_distance_from_face(p, fx);
    let dy = spec_distance_from_face(p, fy);
    let dz = spec_distance_from_face(p, fz);
    if dz < dx && dz < dy {
        fz
    } else if dy < dx {
        fy
    } else {
        fx
    }
}

/// The candidate face on each axis: the face the ray can enter through,
/// fixed by the sign of the direction component.
pub open spec fn spec_candidate_faces(dir: WorldPos) -> (Face, Face, Face) {
    (
        if dir.x > 0 {
            Face::Left
        } else {
            Face::Right
        },
        if dir.y > 0 {
            Face::Bottom
        } else {
            Face::Top
        },
        if dir.z > 0 {
            Face::Forward
        } else {
            Face::Back
        },
    )
}

/// The finer sweep: advance by `nano` until the point rounds into the
/// entered cell, at most `fuel` substeps.
pub open spec fn spec_refine(p: WorldPos, nano: WorldPos, target: (int, int, int), fuel: nat) -> WorldPos
    decreases fuel,
{
    if fuel == 0 {
        p
    } else {
        let p2 = spec_add(p, nano);
        if spec_round3(p2) == target {
            p2
        } else {
            spec_refine(p2, nano, target, (fuel - 1) as nat)
        }
    }
}

/// The crossing reported for a sample point: its chunk and chunk-local
/// coordinate (the vertical component clamped at zero; out-of-height
/// cells are filtered by the candidate builders).
pub open spec fn spec_crossing_cell(p: WorldPos, dims: Dimensions) -> ([i32; 2], [usize; 3]) {
    (
        [
            spec_world_to_chunk(p.x as int, dims.0 as int) as i32,
            spec_world_to_chunk(p.z as int, dims.2 as int) as i32,
        ],
        [
            spec_world_to_local(p.x as int, dims.0 as int) as usize,
            (if spec_block_coord(p.y as int) >= 0 {
                spec_block_coord(p.y as int)
            } else {
                0
            }) as usize,
            spec_world_to_local(p.z as int, dims.2 as int) as usize,
        ],
    )
}

/// The march itself: from `point` in cell `cur`, the crossings the ray
/// makes before its squared distance from `pos` reaches `reach_sq`,
/// sampling at most `fuel` more points.
pub open spec fn spec_march(
    pos: WorldPos,
    step: WorldPos,
    nano: WorldPos,
    reach_sq: int,
    dims: Dimensions,
    fx: Face,
    fy: Face,
    fz: Face,
    point: WorldPos,
    cur: (int, int, int),
    fuel: nat,
) -> Seq<Crossing>
    decreases fuel,
{
    if fuel == 0 || spec_dist_sq(point, pos) >= reach_sq {
        Seq::empty()
    } else {
        let p2 = spec_add(point, step);
        let nb = spec_round3(p2);
        if nb == cur {
            spec_march(pos, step, nano, reach_sq, dims, fx, fy, fz, p2, cur, (fuel - 1) as nat)
        } else {
            let rp = spec_refine(point, nano, nb, REFINE_CAP as nat);
            let face = spec_closest_face(rp, fx, fy, fz);
            let cell = spec_crossing_cell(p2, dims);
            Seq::empty().push((cell.0, cell.1, face)) + spec_march(
                pos,
                step,
                nano,
                reach_sq,
                dims,
                fx,
                fy,
                fz,
                p2,
                nb,
                (fuel - 1) as nat,
            )
        }
    }
}

/// Truncating division of a fixed-point component by a positive divisor.
fn div_trunc(v: i64, d: i64) -> (r: i64)
    requires
        0 < d,
        i64::MIN < v,
    ensures
        r == spec_div_trunc(v as int, d as int),
{
    if v >= 0 {
        ((v as u64) / (d as u64)) as i64
    } else {
        proof {
            vstd::arithmetic::div_mod::lemma_div_pos_is_pos(-(v as int), d as int);
            vstd::arithmetic::div_mod::lemma_div_nonincreasing(-(v as int), d as int);
        }
        -((((-v) as u64) / (d as u64)) as i64)
    }
}

/// Rounds a fixed-point component to its voxel coordinate.
fn round_fp(v: i64) -> (r: i64)
    requires
        -0x1000_0000_0000_0000 < v < 0x1000_0000_0000_0000,
    ensures
        r == spec_round(v as int),
{
    if v >= 0 {
        (((v as u64) + (FP_HALF as u64)) / (FP_ONE as u64)) as i64
    } else {
        proof {
            vstd::arithmetic::div_mod::lemma_div_pos_is_pos(-(v as int) + FP_HALF, FP_ONE as int);
            vstd::arithmetic::div_mod::lemma_div_nonincreasing(-(v as int) + FP_HALF, FP_ONE as int);
        }
        -(((((-v) as u64) + (FP_HALF as u64)) / (FP_ONE as u64)) as i64)
    }
}

/// The distance from a sample point to one face plane of its voxel.
fn distance_from_face(p: WorldPos, face: Face) -> (r: i64)
    requires
        pos_in_limits(p),
    ensures
        r == spec_distance_from_face(p, face),
{
    let fx = round_fp(p.x) * FP_ONE;
    let fy = round_fp(p.y) * FP_ONE;
    let fz = round_fp(p.z) * FP_ONE;
    proof {
        lemma_round_bounded(p.x as int);
        lemma_round_bounded(p.y as int);
        lemma_round_bounded(p.z as int);
    }
    let d: i64 = match face {
        Face::Top => fy + FP_HALF - p.y,
        Face::Bottom => fy - FP_HALF - p.y,
        Face::Right => fx + FP_HALF - p.x,
        Face::Left => fx - FP_HALF - p.x,
        Face::Back => fz + FP_HALF - p.z,
        Face::Forward => fz - FP_HALF - p.z,
    };
    if d >= 0 {
        d
    } else {
        -d
    }
}

/// The rounded voxel coordinate of an accepted component stays close to
/// the component itself.
proof fn lemma_round_bounded(v: int)
    requires
        -POS_LIMIT <= v <= POS_LIMIT,
    ensures
        -POS_LIMIT - FP_ONE <= spec_round(v) * FP_ONE <= POS_LIMIT + FP_ONE,
{
    if v >= 0 {
        let q = (v + FP_HALF) / FP_ONE as int;
        vstd::arithmetic::div_mod::lemma_div_pos_is_pos(v + FP_HALF, FP_ONE as int);
        vstd::arithmetic::div_mod::lemma_fundamental_div_mod(v + FP_HALF, FP_ONE as int);
        vstd::arithmetic::div_mod::lemma_mod_bound(v + FP_HALF, FP_ONE as int);
        assert(0 <= q * FP_ONE <= v + FP_HALF) by (nonlinear_arith)
            requires
                v + FP_HALF == FP_ONE * q + (v + FP_HALF) % (FP_ONE as int),
                0 <= (v + FP_HALF) % (FP_ONE as int) < FP_ONE,
                0 <= q,
        ;
    } else {
        let q = (-v + FP_HALF) / FP_ONE as int;
        vstd::arithmetic::div_mod::lemma_div_pos_is_pos(-v + FP_HALF, FP_ONE as int);
        vstd::arithmetic::div_mod::lemma_fundamental_div_mod(-v + FP_HALF, FP_ONE as int);
        vstd::arithmetic::div_mod::lemma_mod_bound(-v + FP_HALF, FP_ONE as int);
        assert(0 <= q * FP_ONE <= -v + FP_HALF) by (nonlinear_arith)
            requires
                -v + FP_HALF == FP_ONE * q + (-v + FP_HALF) % (FP_ONE as int),
                0 <= (-v + FP_HALF) % (FP_ONE as int) < FP_ONE,
                0 <= q,
        ;
        assert(spec_round(v) * FP_ONE == -(q * FP_ONE)) by (nonlinear_arith)
            requires
                spec_round(v) == -q,
        ;
    }
}

/// Picks the closest of the three candidate faces.
fn closest_face(p: WorldPos, fx: Face, fy: Face, fz: Face) -> (r: Face)
    requires
        pos_in_limits(p),
    ensures
        r == spec_closest_face(p, fx, fy, fz),
{
    let dx = distance_from_face(p, fx);
    let dy = distance_from_face(p, fy);
    let dz = distance_from_face(p, fz);
    if dz < dx && dz < dy {
        fz
    } else if dy < dx {
        fy
    } else {
        fx
    }
}

/// The per-sample step vector of a direction.
pub open spec fn spec_ray_step(dir: WorldPos) -> WorldPos {
    WorldPos {
        x: spec_div_trunc(dir.x as int, RAY_STEP_DIVISOR as int) as i64,
        y: spec_div_trunc(dir.y as int, RAY_STEP_DIVISOR as int) as i64,
        z: spec_div_trunc(dir.z as int, RAY_STEP_DIVISOR as int) as i64,
    }
}

/// The substep vector of a step.
pub open spec fn spec_ray_nano(step: WorldPos) -> WorldPos {
    WorldPos {
        x: spec_div_trunc(step.x as int, NANO_STEP_FACTOR as int) as i64,
        y: spec_div_trunc(step.y as int, NANO_STEP_FACTOR as int) as i64,
        z: spec_div_trunc(step.z as int, NANO_STEP_FACTOR as int) as i64,
    }
}

/// The crossings of a whole cast: the march from the eye position, with
/// the squared reach and a fuel budget the reach always exhausts first.
pub open spec fn spec_ray_crossings(
    pos: WorldPos,
    dir: WorldPos,
    distance: u8,
    dims: Dimensions,
) -> Seq<Crossing> {
    let step = spec_ray_step(dir);
    let nano = spec_ray_nano(step);
    let faces = spec_candidate_faces(dir);
    let reach = distance as int * FP_ONE;
    spec_march(
        pos,
        step,
        nano,
        reach * reach,
        dims,
        faces.0,
        faces.1,
        faces.2,
        pos,
        spec_round3(pos),
        (distance as nat * FP_ONE as nat + 1) as nat,
    )
}

/// Squared distance between two sample points.
fn dist_sq_i64(a: WorldPos, b: WorldPos) -> (r: i64)
    requires
        -0x40_0000 <= a.x - b.x <= 0x40_0000,
        -0x40_0000 <= a.y - b.y <= 0x40_0000,
        -0x40_0000 <= a.z - b.z <= 0x40_0000,
    ensures
        r == spec_dist_sq(a, b),
{
    let dx = a.x - b.x;
    let dy = a.y - b.y;
    let dz = a.z - b.z;
    proof {
        assert(dx * dx <= 0x40_0000 * 0x40_0000 && 0 <= dx * dx && dy * dy <= 0x40_0000
            * 0x40_0000 && 0 <= dy * dy && dz * dz <= 0x40_0000 * 0x40_0000 && 0 <= dz * dz)
            by (nonlinear_arith)
            requires
                -0x40_0000 <= dx <= 0x40_0000,
                -0x40_0000 <= dy <= 0x40_0000,
                -0x40_0000 <= dz <= 0x40_0000,
        ;
    }
    dx * dx + dy * dy + dz * dz
}

/// The finer sweep toward the entered cell.
fn refine_point(p0: WorldPos, nano: WorldPos, tx: i64, ty: i64, tz: i64) -> (r: WorldPos)
    requires
        -POS_LIMIT / 2 - 0x80_0000 <= p0.x <= POS_LIMIT / 2 + 0x80_0000,
        -POS_LIMIT / 2 - 0x80_0000 <= p0.y <= POS_LIMIT / 2 + 0x80_0000,
        -POS_LIMIT / 2 - 0x80_0000 <= p0.z <= POS_LIMIT / 2 + 0x80_0000,
        -FP_ONE <= nano.x <= FP_ONE,
        -FP_ONE <= nano.y <= FP_ONE,
        -FP_ONE <= nano.z <= FP_ONE,
    ensures
        r == spec_refine(p0, nano, (tx as int, ty as int, tz as int), REFINE_CAP as nat),
        pos_in_limits(r),
{
    let ghost t = (tx as int, ty as int, tz as int);
    let mut p = p0;
    let mut k: u64 = 0;
    while k < REFINE_CAP
        invariant
            t == (tx as int, ty as int, tz as int),
            0 <= k <= REFINE_CAP,
            -FP_ONE <= nano.x <= FP_ONE,
            -FP_ONE <= nano.y <= FP_ONE,
            -FP_ONE <= nano.z <= FP_ONE,
            p0.x - k * FP_ONE <= p.x <= p0.x + k * FP_ONE,
            p0.y - k * FP_ONE <= p.y <= p0.y + k * FP_ONE,
            p0.z - k * FP_ONE <= p.z <= p0.z + k * FP_ONE,
            -POS_LIMIT / 2 - 0x80_0000 <= p0.x <= POS_LIMIT / 2 + 0x80_0000,
            -POS_LIMIT / 2 - 0x80_0000 <= p0.y <= POS_LIMIT / 2 + 0x80_0000,
            -POS_LIMIT / 2 - 0x80_0000 <= p0.z <= POS_LIMIT / 2 + 0x80_0000,
            spec_refine(p0, nano, t, REFINE_CAP as nat) == spec_refine(
                p,
                nano,
                t,
                (REFINE_CAP - k) as nat,
            ),
        decreases REFINE_CAP - k,
    {
        let p2 = WorldPos { x: p.x + nano.x, y: p.y + nano.y, z: p.z + nano.z };
        let rx = round_fp(p2.x);
        let ry = round_fp(p2.y);
        let rz = round_fp(p2.z);
        proof {
            assert(spec_add(p, nano) == p2);
            assert(spec_round3(p2) == (rx as int, ry as int, rz as int));
        }
        if rx == tx && ry == ty && rz == tz {
            proof {
                assert(spec_round3(p2) == t);
                assert(spec_refine(p, nano, t, (REFINE_CAP - k) as nat) == p2);
            }
            return p2;
        }
        proof {
            assert(spec_round3(p2) != t);
            assert(spec_refine(p, nano, t, (REFINE_CAP - k) as nat) == spec_refine(
                p2,
                nano,
                t,
                (REFINE_CAP - k - 1) as nat,
            ));
        }
        p = p2;
        k = k + 1;
    }
    p
}

/// Casts the view ray and collects, in order, every voxel boundary
/// crossing within reach: for each, the chunk, the chunk-local cell, and
/// the face the ray entered the cell through. The result is exactly
/// `spec_ray_crossings` of the inputs — a pure function of eye position,
/// direction and reach, so targeting is deterministic.
pub fn blocks_in_the_way(pos: WorldPos, forward: WorldPos, distance: u8, dims: Dimensions) -> (r:
    Vec<Crossing>)
    requires
        dims_in_limits(dims),
        origin_in_limits(pos),
        dir_in_limits(forward),
    ensures
        r@ == spec_ray_crossings(pos, forward, distance, dims),
{
    let step = WorldPos {
        x: div_trunc(forward.x, RAY_STEP_DIVISOR),
        y: div_trunc(forward.y, RAY_STEP_DIVISOR),
        z: div_trunc(forward.z, RAY_STEP_DIVISOR),
    };
    let nano = WorldPos {
        x: div_trunc(step.x, NANO_STEP_FACTOR),
        y: div_trunc(step.y, NANO_STEP_FACTOR),
        z: div_trunc(step.z, NANO_STEP_FACTOR),
    };
    proof {
        lemma_div_trunc_small(forward.x as int);
        lemma_div_trunc_small(forward.y as int);
        lemma_div_trunc_small(forward.z as int);
    }
    let fcx = if forward.x > 0 {
        Face::Left
    } else {
        Face::Right
    };
    let fcy = if forward.y > 0 {
        Face::Bottom
    } else {
        Face::Top
    };
    let fcz = if forward.z > 0 {
        Face::Forward
    } else {
        Face::Back
    };
    let reach: i64 = (distance as i64) * FP_ONE;
    proof {
        assert(0 <= reach <= 0x10_0000 && reach * reach <= 0x100_0000_0000) by (nonlinear_arith)
            requires
                reach == distance as int * FP_ONE,
                0 <= distance < 256,
        ;
    }
    let reach_sq: i64 = reach * reach;
    let mut point = pos;
    let mut cx = round_fp(pos.x);
    let mut cy = round_fp(pos.y);
    let mut cz = round_fp(pos.z);
    let mut out: Vec<Crossing> = Vec::new();
    let fuel0: u64 = (distance as u64) * (FP_ONE as u64) + 1;
    let mut fuel: u64 = fuel0;
    let ghost full = spec_ray_crossings(pos, forward, distance, dims);
    proof {
        assert(Seq::<Crossing>::empty() + full =~= full);
    }
    while fuel > 0 && dist_sq_i64(point, pos) < reach_sq
        invariant
            dims_in_limits(dims),
            origin_in_limits(pos),
            step == spec_ray_step(forward),
            nano == spec_ray_nano(step),
            -FP_ONE <= step.x <= FP_ONE,
            -FP_ONE <= step.y <= FP_ONE,
            -FP_ONE <= step.z <= FP_ONE,
            -FP_ONE <= nano.x <= FP_ONE,
            -FP_ONE <= nano.y <= FP_ONE,
            -FP_ONE <= nano.z <= FP_ONE,
            reach == distance as int * FP_ONE,
            reach_sq == reach * reach,
            0 <= reach <= 0x10_0000,
            fuel <= fuel0,
            fuel0 == distance as nat * FP_ONE as nat + 1,
            pos.x - reach - FP_ONE <= point.x <= pos.x + reach + FP_ONE,
            pos.y - reach - FP_ONE <= point.y <= pos.y + reach + FP_ONE,
            pos.z - reach - FP_ONE <= point.z <= pos.z + reach + FP_ONE,
            (cx as int, cy as int, cz as int) == spec_round3(point),
            (fcx, fcy, fcz) == spec_candidate_faces(forward),
            full == spec_ray_crossings(pos, forward, distance, dims),
            out@ + spec_march(
                pos,
                step,
                nano,
                reach_sq as int,
                dims,
                fcx,
                fcy,
                fcz,
                point,
                (cx as int, cy as int, cz as int),
                fuel as nat,
            ) == full,
        decreases fuel,
    {
        let ghost pre_point = point;
        let ghost pre_cur = (cx as int, cy as int, cz as int);
        proof {
            lemma_sq_bound(point.x - pos.x, point.y - pos.y, point.z - pos.z, reach as int);
        }
        let p2 = WorldPos { x: point.x + step.x, y: point.y + step.y, z: point.z + step.z };
        let nx = round_fp(p2.x);
        let ny = round_fp(p2.y);
        let nz = round_fp(p2.z);
        if nx == cx && ny == cy && nz == cz {
            point = p2;
            fuel = fuel - 1;
        } else {
            let rp = refine_point(point, nano, nx, ny, nz);
            let face = closest_face(rp, fcx, fcy, fcz);
            let cell = position_to_chunk_position(p2, dims);
            let ghost pre_out = out@;
            out.push((cell.0, cell.1, face));
            point = p2;
            cx = nx;
            cy = ny;
            cz = nz;
            fuel = fuel - 1;
            proof {
                let crossing = (cell.0, cell.1, face);
                assert(cell.0 =~= spec_crossing_cell(p2, dims).0);
                assert(cell.1 =~= spec_crossing_cell(p2, dims).1);
                let suffix = spec_march(
                    pos,
                    step,
                    nano,
                    reach_sq as int,
                    dims,
                    fcx,
                    fcy,
                    fcz,
                    p2,
                    (nx as int, ny as int, nz as int),
                    fuel as nat,
                );
                assert(spec_march(
                    pos,
                    step,
                    nano,
                    reach_sq as int,
                    dims,
                    fcx,
                    fcy,
                    fcz,
                    pre_point,
                    pre_cur,
                    (fuel + 1) as nat,
                ) == Seq::empty().push(crossing) + suffix);
                assert(pre_out + (Seq::empty().push(crossing) + suffix) =~= out@ + suffix);
            }
        }
    }
    proof {
        assert(spec_march(
            pos,
            step,
            nano,
            reach_sq as int,
            dims,
            fcx,
            fcy,
            fcz,
            point,
            (cx as int, cy as int, cz as int),
            fuel as nat,
        ) =~= Seq::<Crossing>::empty());
        assert(out@ + Seq::<Crossing>::empty() =~= out@);
    }
    out
}

/// A direction component scaled down by the step divisor stays within a
/// world unit.
proof fn lemma_div_trunc_small(v: int)
    requires
        -FP_ONE <= v <= FP_ONE,
    ensures
        -FP_ONE <= spec_div_trunc(v, RAY_STEP_DIVISOR as int) <= FP_ONE,
        -FP_ONE <= spec_div_trunc(
            spec_div_trunc(v, RAY_STEP_DIVISOR as int),
            NANO_STEP_FACTOR as int,
        ) <= FP_ONE,
{
    if v >= 0 {
        vstd::arithmetic::div_mod::lemma_div_pos_is_pos(v, RAY_STEP_DIVISOR as int);
        vstd::arithmetic::div_mod::lemma_div_nonincreasing(v, RAY_STEP_DIVISOR as int);
        let q = v / RAY_STEP_DIVISOR as int;
        vstd::arithmetic::div_mod::lemma_div_pos_is_pos(q, NANO_STEP_FACTOR as int);
        vstd::arithmetic::div_mod::lemma_div_nonincreasing(q, NANO_STEP_FACTOR as int);
    } else {
        vstd::arithmetic::div_mod::lemma_div_pos_is_pos(-v, RAY_STEP_DIVISOR as int);
        vstd::arithmetic::div_mod::lemma_div_nonincreasing(-v, RAY_STEP_DIVISOR as int);
        let q = (-v) / RAY_STEP_DIVISOR as int;
        vstd::arithmetic::div_mod::lemma_div_pos_is_pos(q, NANO_STEP_FACTOR as int);
        vstd::arithmetic::div_mod::lemma_div_nonincreasing(q, NANO_STEP_FACTOR as int);
    }
}

/// Within the reach ball, each axis distance is within the reach.
proof fn lemma_sq_bound(dx: int, dy: int, dz: int, reach: int)
    requires
        dx * dx + dy * dy + dz * dz < reach * reach,
        0 <= reach,
    ensures
        -reach <= dx <= reach,
        -reach <= dy <= reach,
        -reach <= dz <= reach,
{
    assert(-reach <= dx <= reach && -reach <= dy <= reach && -reach <= dz <= reach)
        by (nonlinear_arith)
        requires
            dx * dx + dy * dy + dz * dz < reach * reach,
            0 <= reach,
    ;
}

} // verus!
