//! A loaded chunk: its coordinate, its voxel grid, its mesh metadata, and
//! a dirty mark that asks for mesh re-derivation. Also the boundary
//! helpers the edit protocol uses: which horizontal chunk boundary a voxel
//! sits on, the neighbor chunk across it, the mirrored voxel index there,
//! and the six-entry snapshot of same-chunk neighbor values.

use vstd::prelude::*;

verus! {

use crate::blocks::Block;
use crate::coords::Dimensions;
use crate::coords::dims_valid;
use crate::coords::get_neighbor;
use crate::coords::in_bounds;
use crate::coords::lemma_one_d_in_range;
use crate::coords::lemma_three_d_of_one_d;
use crate::coords::spec_chunk_len;
use crate::coords::spec_neighbor;
use crate::coords::spec_one_d;
use crate::coords::spec_three_d;
use crate::face::Face;
use crate::metadata::MeshMetadata;
use crate::metadata::MetaLogEntry;

/// A loaded chunk.
pub struct Chunk {
    pub cords: [i32; 2],
    pub grid: Vec<Block>,
    pub meta_data: MeshMetadata,
    /// Set when the mesh must be re-derived from the metadata log.
    pub dirty: bool,
}

/// The mathematical value of a chunk.
pub struct ChunkModel {
    pub cords: [i32; 2],
    pub grid: Seq<Block>,
    pub log: Seq<MetaLogEntry>,
    pub dirty: bool,
}

impl Chunk {
    pub open spec fn model(self) -> ChunkModel {
        ChunkModel {
            cords: self.cords,
            grid: self.grid@,
            log: self.meta_data.log_view(),
            dirty: self.dirty,
        }
    }

    pub open spec fn wf(self, dims: Dimensions) -> bool {
        self.grid@.len() == spec_chunk_len(dims)
    }

    /// A fresh chunk with a clean metadata log.
    pub fn new(cords: [i32; 2], grid: Vec<Block>, dims: Dimensions) -> (r: Chunk)
        requires
            grid@.len() == spec_chunk_len(dims),
        ensures
            r.wf(dims),
            r.model().cords == cords,
            r.model().grid == grid@,
            r.model().log.len() == 0,
            !r.model().dirty,
    {
        Chunk { cords, grid, meta_data: MeshMetadata::new(dims), dirty: false }
    }
}

/// The models of a sequence of chunks.
pub open spec fn chunk_models(chunks: Seq<Chunk>) -> Seq<ChunkModel> {
    chunks.map_values(|c: Chunk| c.model())
}

/// No two loaded chunks share a coordinate.
pub open spec fn chunks_unique(models: Seq<ChunkModel>) -> bool {
    forall|i: int, j: int|
        0 <= i < models.len() && 0 <= j < models.len() && i != j ==> (#[trigger] models[i]).cords
            != (#[trigger] models[j]).cords
}

/// Every loaded chunk's grid has the right length.
pub open spec fn chunks_wf(models: Seq<ChunkModel>, dims: Dimensions) -> bool {
    forall|i: int|
        0 <= i < models.len() ==> (#[trigger] models[i]).grid.len() == spec_chunk_len(dims)
}

/// Some loaded chunk carries this coordinate.
pub open spec fn chunk_at(models: Seq<ChunkModel>, c: [i32; 2]) -> bool {
    exists|i: int| 0 <= i < models.len() && (#[trigger] models[i]).cords == c
}

/// The index of the loaded chunk carrying this coordinate.
pub open spec fn chunk_index(models: Seq<ChunkModel>, c: [i32; 2]) -> int {
    choose|i: int| 0 <= i < models.len() && (#[trigger] models[i]).cords == c
}

/// With unique coordinates, any chunk carrying `c` is the one
/// `chunk_index` picks.
pub proof fn lemma_chunk_at(models: Seq<ChunkModel>, c: [i32; 2], i: int)
    requires
        chunks_unique(models),
        0 <= i < models.len(),
        models[i].cords == c,
    ensures
        chunk_at(models, c),
        chunk_index(models, c) == i,
{
    assert(chunk_at(models, c));
    let j = chunk_index(models, c);
    assert(0 <= j < models.len() && models[j].cords == c);
}

/// Finds the loaded chunk with this coordinate.
pub fn find_chunk(chunks: &Vec<Chunk>, c: [i32; 2]) -> (r: Option<usize>)
    requires
        chunks_unique(chunk_models(chunks@)),
    ensures
        r.is_some() <==> chunk_at(chunk_models(chunks@), c),
        match r {
            Some(i) => i as int == chunk_index(chunk_models(chunks@), c) && i < chunks@.len(),
            None => true,
        },
{
    let ghost models = chunk_models(chunks@);
    let n = chunks.len();
    let mut i: usize = 0;
    while i < n
        invariant
            chunks_unique(models),
            models == chunk_models(chunks@),
            n == chunks@.len(),
            models.len() == n,
            0 <= i <= n,
            forall|j: int| 0 <= j < i ==> (#[trigger] models[j]).cords != c,
        decreases n - i,
    {
        if crate::chunk_map::cords_eq(chunks[i].cords, c) {
            proof {
                assert(models[i as int].cords == chunks@[i as int].cords);
                lemma_chunk_at(models, c, i as int);
            }
            return Some(i);
        }
        i = i + 1;
    }
    proof {
        if chunk_at(models, c) {
            let j = chunk_index(models, c);
            assert(0 <= j < models.len() && models[j].cords == c);
            assert(false);
        }
    }
    None
}

/// Whether the voxel at linear index `idx` sits on the chunk's outer
/// boundary in the direction of a horizontal face.
pub open spec fn boundary_face(idx: int, face: Face, dims: Dimensions) -> bool {
    match face {
        Face::Top | Face::Bottom => false,
        _ => spec_neighbor(spec_three_d(idx, dims), face, dims).is_none(),
    }
}

/// The coordinate of the chunk on the other side of a horizontal face.
pub open spec fn spec_neighbor_cords(c: [i32; 2], face: Face) -> [i32; 2] {
    match face {
        Face::Right => [(c[0] + 1) as i32, c[1]],
        Face::Left => [(c[0] - 1) as i32, c[1]],
        Face::Back => [c[0], (c[1] + 1) as i32],
        Face::Forward => [c[0], (c[1] - 1) as i32],
        Face::Top | Face::Bottom => c,
    }
}

/// The face of the target chunk that touches the chunk at `nc`, if the
/// two are horizontal neighbors.
pub open spec fn face_to(c: [i32; 2], nc: [i32; 2]) -> Option<Face> {
    if nc == spec_neighbor_cords(c, Face::Right) {
        Some(Face::Right)
    } else if nc == spec_neighbor_cords(c, Face::Left) {
        Some(Face::Left)
    } else if nc == spec_neighbor_cords(c, Face::Back) {
        Some(Face::Back)
    } else if nc == spec_neighbor_cords(c, Face::Forward) {
        Some(Face::Forward)
    } else {
        None
    }
}

/// The linear index, in the neighbor chunk across a horizontal face, of
/// the voxel that touches the boundary voxel `idx`: same altitude and
/// depth, on the opposite edge.
pub open spec fn spec_mirror_index(idx: int, face: Face, dims: Dimensions) -> int {
    let c = spec_three_d(idx, dims);
    match face {
        Face::Right => spec_one_d([0, c[1], c[2]], dims),
        Face::Left => spec_one_d([(dims.0 - 1) as usize, c[1], c[2]], dims),
        Face::Back => spec_one_d([c[0], c[1], 0], dims),
        Face::Forward => spec_one_d([c[0], c[1], (dims.2 - 1) as usize], dims),
        Face::Top | Face::Bottom => idx,
    }
}

/// Computes the mirrored index for a voxel on a horizontal boundary.
pub fn mirror_index(idx: usize, face: Face, dims: Dimensions) -> (r: usize)
    requires
        dims_valid(dims),
        idx < spec_chunk_len(dims),
        boundary_face(idx as int, face, dims),
    ensures
        r == spec_mirror_index(idx as int, face, dims),
        r < spec_chunk_len(dims),
{
    proof {
        crate::coords::lemma_three_d_in_bounds(idx as int, dims);
    }
    let threed = crate::coords::three_d_cords(idx, dims);
    let m: [usize; 3] = match face {
        Face::Right => [0, threed[1], threed[2]],
        Face::Left => [dims.0 - 1, threed[1], threed[2]],
        Face::Back => [threed[0], threed[1], 0],
        Face::Forward => [threed[0], threed[1], dims.2 - 1],
        Face::Top | Face::Bottom => threed,
    };
    proof {
        assert(m =~= match face {
            Face::Right => [0usize, spec_three_d(idx as int, dims)[1], spec_three_d(
                idx as int,
                dims,
            )[2]],
            Face::Left => [(dims.0 - 1) as usize, spec_three_d(idx as int, dims)[1], spec_three_d(
                idx as int,
                dims,
            )[2]],
            Face::Back => [spec_three_d(idx as int, dims)[0], spec_three_d(idx as int, dims)[1], 0usize],
            Face::Forward => [spec_three_d(idx as int, dims)[0], spec_three_d(
                idx as int,
                dims,
            )[1], (dims.2 - 1) as usize],
            Face::Top | Face::Bottom => spec_three_d(idx as int, dims),
        });
        lemma_one_d_in_range(m, dims);
    }
    crate::coords::one_d_cords(m, dims)
}

/// The six-entry snapshot of same-chunk neighbor values around a voxel:
/// the neighbor's value across each face, `None` where that face is the
/// chunk's outer boundary.
pub open spec fn spec_neighbor_snapshot(grid: Seq<Block>, idx: int, dims: Dimensions) -> [Option<
    Block,
>; 6] {
    [
        spec_snapshot_entry(grid, idx, Face::Top, dims),
        spec_snapshot_entry(grid, idx, Face::Bottom, dims),
        spec_snapshot_entry(grid, idx, Face::Right, dims),
        spec_snapshot_entry(grid, idx, Face::Left, dims),
        spec_snapshot_entry(grid, idx, Face::Back, dims),
        spec_snapshot_entry(grid, idx, Face::Forward, dims),
    ]
}

pub open spec fn spec_snapshot_entry(
    grid: Seq<Block>,
    idx: int,
    face: Face,
    dims: Dimensions,
) -> Option<Block> {
    match spec_neighbor(spec_three_d(idx, dims), face, dims) {
        Some(c) => Some(grid[spec_one_d(c, dims)]),
        None => None,
    }
}

/// Reads the snapshot of the six same-chunk neighbor values of a voxel.
pub fn neighbor_snapshot(grid: &Vec<Block>, idx: usize, dims: Dimensions) -> (r: [Option<
    Block,
>; 6])
    requires
        dims_valid(dims),
        grid@.len() == spec_chunk_len(dims),
        idx < spec_chunk_len(dims),
    ensures
        r == spec_neighbor_snapshot(grid@, idx as int, dims),
{
    let top = snapshot_entry(grid, idx, Face::Top, dims);
    let bottom = snapshot_entry(grid, idx, Face::Bottom, dims);
    let right = snapshot_entry(grid, idx, Face::Right, dims);
    let left = snapshot_entry(grid, idx, Face::Left, dims);
    let back = snapshot_entry(grid, idx, Face::Back, dims);
    let forward = snapshot_entry(grid, idx, Face::Forward, dims);
    let r = [top, bottom, right, left, back, forward];
    proof {
        assert(r =~= spec_neighbor_snapshot(grid@, idx as int, dims));
    }
    r
}

fn snapshot_entry(grid: &Vec<Block>, idx: usize, face: Face, dims: Dimensions) -> (r: Option<
    Block,
>)
    requires
        dims_valid(dims),
        grid@.len() == spec_chunk_len(dims),
        idx < spec_chunk_len(dims),
    ensures
        r == spec_snapshot_entry(grid@, idx as int, face, dims),
{
    proof {
        crate::coords::lemma_three_d_in_bounds(idx as int, dims);
        let sc = spec_neighbor(spec_three_d(idx as int, dims), face, dims);
        if sc.is_some() {
            lemma_one_d_in_range(sc.unwrap(), dims);
        }
    }
    match get_neighbor(idx, face, dims) {
        Some(n) => Some(grid[n]),
        None => None,
    }
}

/// Hands out the pending metadata entries of a dirty chunk for mesh
/// re-derivation and clears the dirty mark; a clean chunk is untouched
/// and yields nothing.
pub fn take_update(ch: &mut Chunk) -> (r: Option<Vec<MetaLogEntry>>)
    ensures
        final(ch).cords == old(ch).cords,
        final(ch).grid@ == old(ch).grid@,
        old(ch).dirty ==> r.is_some() && r.unwrap()@ == old(ch).meta_data.log_view()
            && !final(ch).dirty && final(ch).meta_data.log_view().len() == 0
            && final(ch).meta_data.spec_dims() == old(ch).meta_data.spec_dims(),
        !old(ch).dirty ==> r.is_none() && *final(ch) == *old(ch),
{
    if ch.dirty {
        let entries = ch.meta_data.drain();
        ch.dirty = false;
        Some(entries)
    } else {
        None
    }
}

} // verus!
