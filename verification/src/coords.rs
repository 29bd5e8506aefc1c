//! Coordinate math: linearization of local voxel coordinates, its inverse,
//! and the mapping between world positions and chunk coordinates.
//!
//! A chunk is a box of `dims.0 * dims.1 * dims.2` voxels, where `dims.0` is
//! the width (x axis), `dims.1` the height (y axis) and `dims.2` the length
//! (z axis). A local coordinate `[x, y, z]` is linearized as
//! `y * (width * length) + z * width + x`.

use vstd::prelude::*;

verus! {

use crate::face::Face;

/// Chunk dimensions as (width, height, length).
pub type Dimensions = (usize, usize, usize);

/// The number of voxels a chunk of these dimensions holds.
pub open spec fn spec_chunk_len(dims: Dimensions) -> int {
    dims.0 * dims.1 * dims.2
}

/// Dimensions the library accepts: every axis positive and the voxel count
/// representable in a `usize`.
pub open spec fn dims_valid(dims: Dimensions) -> bool {
    0 < dims.0 && 0 < dims.1 && 0 < dims.2 && spec_chunk_len(dims) <= usize::MAX
}

/// A local coordinate lies inside the chunk box.
pub open spec fn in_bounds(threed: [usize; 3], dims: Dimensions) -> bool {
    threed[0] < dims.0 && threed[1] < dims.1 && threed[2] < dims.2
}

/// The linearization rule: y-major, then z, then x.
pub open spec fn spec_one_d(threed: [usize; 3], dims: Dimensions) -> int {
    threed[1] * (dims.0 * dims.2) + threed[2] * dims.0 + threed[0]
}

/// The inverse of the linearization rule.
pub open spec fn spec_three_d(oned: int, dims: Dimensions) -> [usize; 3] {
    let wl = dims.0 as int * dims.2 as int;
    [(oned % wl % (dims.0 as int)) as usize, (oned / wl) as usize, (oned % wl / (
    dims.0 as int)) as usize]
}

/// An in-range linear index stays below the chunk's voxel count.
pub proof fn lemma_one_d_in_range(threed: [usize; 3], dims: Dimensions)
    requires
        dims_valid(dims),
        in_bounds(threed, dims),
    ensures
        0 <= spec_one_d(threed, dims) < spec_chunk_len(dims),
        dims.0 * dims.2 <= spec_chunk_len(dims),
{
    let (w, h, l) = (dims.0 as int, dims.1 as int, dims.2 as int);
    let (x, y, z) = (threed[0] as int, threed[1] as int, threed[2] as int);
    assert(y * (w * l) + z * w + x < w * h * l && w * l <= w * h * l) by (nonlinear_arith)
        requires
            0 <= x < w,
            0 <= y < h,
            0 <= z < l,
            0 < h,
    ;
}

/// Linearization and its inverse cancel on every in-range coordinate.
pub proof fn lemma_three_d_of_one_d(threed: [usize; 3], dims: Dimensions)
    requires
        dims_valid(dims),
        in_bounds(threed, dims),
    ensures
        spec_three_d(spec_one_d(threed, dims), dims) == threed,
{
    let (w, h, l) = (dims.0 as int, dims.1 as int, dims.2 as int);
    let (x, y, z) = (threed[0] as int, threed[1] as int, threed[2] as int);
    let wl = w * l;
    let rem = z * w + x;
    let i = y * wl + rem;
    assert(0 <= z * w + x < w * l) by (nonlinear_arith)
        requires
            0 <= x < w,
            0 <= z < l,
            0 < w,
            0 < l,
    ;
    vstd::arithmetic::div_mod::lemma_fundamental_div_mod_converse(i, wl, y, rem);
    vstd::arithmetic::div_mod::lemma_fundamental_div_mod_converse(rem, w, z, x);
    let r = spec_three_d(i, dims);
    assert(r[0] == x && r[1] == y && r[2] == z);
    assert(r =~= threed);
}

/// Converts an in-range local 3d coordinate to its linear index.
///
/// Out-of-range coordinates are a logic error upstream and are excluded by
/// `requires`; `one_d_cords_safe` is the checked variant for untrusted input.
pub fn one_d_cords(threed: [usize; 3], dims: Dimensions) -> (r: usize)
    requires
        dims_valid(dims),
        in_bounds(threed, dims),
    ensures
        r == spec_one_d(threed, dims),
        r < spec_chunk_len(dims),
{
    proof {
        lemma_one_d_in_range(threed, dims);
    }
    threed[1] * (dims.0 * dims.2) + threed[2] * dims.0 + threed[0]
}

/// Checked variant of `one_d_cords`: `Some` exactly on in-range coordinates,
/// `None` (never a wrapped index) on any component at or past its dimension.
pub fn one_d_cords_safe(threed: [usize; 3], dims: Dimensions) -> (r: Option<usize>)
    requires
        dims_valid(dims),
    ensures
        in_bounds(threed, dims) ==> r == Some(spec_one_d(threed, dims) as usize),
        !in_bounds(threed, dims) ==> r.is_none(),
{
    if threed[0] < dims.0 && threed[1] < dims.1 && threed[2] < dims.2 {
        Some(one_d_cords(threed, dims))
    } else {
        None
    }
}

/// The inverse mapping lands in bounds and undoes the linearization.
pub proof fn lemma_three_d_in_bounds(oned: int, dims: Dimensions)
    requires
        dims_valid(dims),
        0 <= oned < spec_chunk_len(dims),
    ensures
        in_bounds(spec_three_d(oned, dims), dims),
        spec_one_d(spec_three_d(oned, dims), dims) == oned,
        0 < dims.0 * dims.2 <= spec_chunk_len(dims),
{
    let (w, h, l) = (dims.0 as int, dims.1 as int, dims.2 as int);
    let i = oned;
    assert(0 < w * l && w * l <= w * h * l && i / (w * l) < h && (i % (w * l)) / w < l && (i % (w
        * l)) % w < w
        && ((i / (w * l)) * (w * l) + ((i % (w * l)) / w) * w + (i % (w * l)) % w) == i)
        by (nonlinear_arith)
        requires
            0 <= i < w * h * l,
            0 < w,
            0 < h,
            0 < l,
    ;
    vstd::arithmetic::div_mod::lemma_div_pos_is_pos(i, w * l);
    vstd::arithmetic::div_mod::lemma_mod_bound(i, w * l);
    vstd::arithmetic::div_mod::lemma_div_pos_is_pos(i % (w * l), w);
    vstd::arithmetic::div_mod::lemma_mod_bound(i % (w * l), w);
}

/// Converts an in-range linear index back to its local 3d coordinate.
///
/// Out-of-range indices are a logic error upstream and are excluded by
/// `requires`; `three_d_cords_safe` is the checked variant.
pub fn three_d_cords(oned: usize, dims: Dimensions) -> (r: [usize; 3])
    requires
        dims_valid(dims),
        oned < spec_chunk_len(dims),
    ensures
        r == spec_three_d(oned as int, dims),
        in_bounds(r, dims),
        spec_one_d(r, dims) == oned,
{
    proof {
        lemma_three_d_in_bounds(oned as int, dims);
    }
    let wl = dims.0 * dims.2;
    let y = oned / wl;
    let z = oned % wl / dims.0;
    let x = oned % wl % dims.0;
    [x, y, z]
}

/// Checked variant of `three_d_cords`: `Some` exactly on indices below the
/// chunk's voxel count, `None` otherwise.
pub fn three_d_cords_safe(oned: usize, dims: Dimensions) -> (r: Option<[usize; 3]>)
    requires
        dims_valid(dims),
    ensures
        oned < spec_chunk_len(dims) ==> r == Some(spec_three_d(oned as int, dims)),
        oned >= spec_chunk_len(dims) ==> r.is_none(),
{
    proof {
        let (w, h, l) = (dims.0 as int, dims.1 as int, dims.2 as int);
        assert(w * h * l == (w * h) * l && w * h <= (w * h) * l) by (nonlinear_arith)
            requires
                0 <= w * h,
                0 < l,
        ;
    }
    let wh = dims.0 * dims.1;
    if oned < wh * dims.2 {
        Some(three_d_cords(oned, dims))
    } else {
        None
    }
}

/// The local coordinate one step across `face`, or `None` when that step
/// leaves the chunk box.
pub open spec fn spec_neighbor(threed: [usize; 3], face: Face, dims: Dimensions) -> Option<
    [usize; 3],
> {
    match face {
        Face::Top => if threed[1] + 1 < dims.1 {
            Some([threed[0], (threed[1] + 1) as usize, threed[2]])
        } else {
            None
        },
        Face::Bottom => if threed[1] > 0 {
            Some([threed[0], (threed[1] - 1) as usize, threed[2]])
        } else {
            None
        },
        Face::Right => if threed[0] + 1 < dims.0 {
            Some([(threed[0] + 1) as usize, threed[1], threed[2]])
        } else {
            None
        },
        Face::Left => if threed[0] > 0 {
            Some([(threed[0] - 1) as usize, threed[1], threed[2]])
        } else {
            None
        },
        Face::Back => if threed[2] + 1 < dims.2 {
            Some([threed[0], threed[1], (threed[2] + 1) as usize])
        } else {
            None
        },
        Face::Forward => if threed[2] > 0 {
            Some([threed[0], threed[1], (threed[2] - 1) as usize])
        } else {
            None
        },
    }
}

/// Linear index of the voxel adjacent across `face` inside the same chunk,
/// or `None` when that face lies on the chunk's outer boundary.
pub fn get_neighbor(oned: usize, face: Face, dims: Dimensions) -> (r: Option<usize>)
    requires
        dims_valid(dims),
        oned < spec_chunk_len(dims),
    ensures
        match spec_neighbor(spec_three_d(oned as int, dims), face, dims) {
            Some(c) => r == Some(spec_one_d(c, dims) as usize) && in_bounds(c, dims),
            None => r.is_none(),
        },
{
    let threed = three_d_cords(oned, dims);
    let moved: Option<[usize; 3]> = match face {
        Face::Top => if threed[1] + 1 < dims.1 {
            Some([threed[0], threed[1] + 1, threed[2]])
        } else {
            None
        },
        Face::Bottom => if threed[1] > 0 {
            Some([threed[0], threed[1] - 1, threed[2]])
        } else {
            None
        },
        Face::Right => if threed[0] + 1 < dims.0 {
            Some([threed[0] + 1, threed[1], threed[2]])
        } else {
            None
        },
        Face::Left => if threed[0] > 0 {
            Some([threed[0] - 1, threed[1], threed[2]])
        } else {
            None
        },
        Face::Back => if threed[2] + 1 < dims.2 {
            Some([threed[0], threed[1], threed[2] + 1])
        } else {
            None
        },
        Face::Forward => if threed[2] > 0 {
            Some([threed[0], threed[1], threed[2] - 1])
        } else {
            None
        },
    };
    match moved {
        Some(c) => {
            proof {
                let sc = spec_neighbor(spec_three_d(oned as int, dims), face, dims);
                assert(c =~= sc.unwrap());
            }
            Some(one_d_cords(c, dims))
        },
        None => None,
    }
}

/// A voxel has a same-chunk neighbor across a face exactly when it does not
/// sit on the chunk's outer boundary in that direction; the neighbor, when
/// present, is in range.
pub proof fn lemma_neighbor_at_boundary(threed: [usize; 3], face: Face, dims: Dimensions)
    requires
        dims_valid(dims),
        in_bounds(threed, dims),
    ensures
        spec_neighbor(threed, face, dims).is_none() <==> match face {
            Face::Top => threed[1] == dims.1 - 1,
            Face::Bottom => threed[1] == 0,
            Face::Right => threed[0] == dims.0 - 1,
            Face::Left => threed[0] == 0,
            Face::Back => threed[2] == dims.2 - 1,
            Face::Forward => threed[2] == 0,
        },
        spec_neighbor(threed, face, dims).is_some() ==> in_bounds(
            spec_neighbor(threed, face, dims).unwrap(),
            dims,
        ),
{
}

} // verus!
