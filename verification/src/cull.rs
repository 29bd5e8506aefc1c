//! Cross-chunk face culling for freshly spawned chunks. A new chunk's
//! mesh is built before its horizontal neighbors are known, so each of its
//! four side faces starts out fully emitted. Once the neighbor chunk on a
//! side is loaded, every boundary voxel whose touching neighbor voxel
//! covers the shared face gets a cull entry in the metadata log; a side
//! whose neighbor is not loaded yet stays pending and is retried later.

use vstd::prelude::*;

verus! {

use crate::blocks::Block;
use crate::blocks::BlockRegistry;
use crate::chunk::Chunk;
use crate::chunk::ChunkModel;
use crate::chunk::chunk_at;
use crate::chunk::chunk_index;
use crate::chunk::chunk_models;
use crate::chunk::chunks_unique;
use crate::chunk::chunks_wf;
use crate::chunk::find_chunk;
use crate::chunk::spec_mirror_index;
use crate::chunk::spec_neighbor_cords;
use crate::coords::Dimensions;
use crate::coords::dims_valid;
use crate::coords::in_bounds;
use crate::coords::lemma_one_d_in_range;
use crate::coords::spec_chunk_len;
use crate::coords::spec_one_d;
use crate::edit::spec_opposite_mask;
use crate::face::Face;
use crate::metadata::MetaLogEntry;
use crate::metadata::VoxelChange;
use crate::worldpos::CHUNK_COORD_LIMIT;

/// How many voxels lie on a horizontal boundary face: a full column layer
/// along the face's edge.
pub open spec fn face_voxel_count(face: Face, dims: Dimensions) -> int {
    match face {
        Face::Right | Face::Left => dims.1 * dims.2,
        Face::Back | Face::Forward => dims.1 * dims.0,
        Face::Top | Face::Bottom => 0,
    }
}

/// The `k`-th voxel of a horizontal boundary face, in ascending linear
/// index order (altitude-major).
pub open spec fn spec_face_voxel(face: Face, k: int, dims: Dimensions) -> int {
    match face {
        Face::Right => spec_one_d(
            [(dims.0 - 1) as usize, (k / dims.2 as int) as usize, (k % dims.2 as int) as usize],
            dims,
        ),
        Face::Left => spec_one_d(
            [0, (k / dims.2 as int) as usize, (k % dims.2 as int) as usize],
            dims,
        ),
        Face::Back => spec_one_d(
            [(k % dims.0 as int) as usize, (k / dims.0 as int) as usize, (dims.2 - 1) as usize],
            dims,
        ),
        Face::Forward => spec_one_d(
            [(k % dims.0 as int) as usize, (k / dims.0 as int) as usize, 0],
            dims,
        ),
        Face::Top | Face::Bottom => 0,
    }
}

/// The cull entries one face sweep appends from position `k` on: one
/// `CullFaces` entry per boundary voxel whose touching voxel in the
/// neighbor chunk covers the shared face. The entry carries the boundary
/// voxel's own value, and the neighbor's value at the face position of
/// the snapshot.
pub open spec fn spec_cull_entries(
    gs: Seq<Block>,
    ga: Seq<Block>,
    face: Face,
    dims: Dimensions,
    reg: BlockRegistry,
    k: int,
) -> Seq<MetaLogEntry>
    decreases face_voxel_count(face, dims) - k,
{
    if k < 0 || k >= face_voxel_count(face, dims) {
        Seq::empty()
    } else {
        let idx = spec_face_voxel(face, k, dims);
        let adj = ga[spec_mirror_index(idx, face, dims)];
        (if reg.spec_covers(adj) {
            Seq::empty().push(
                MetaLogEntry {
                    change: VoxelChange::CullFaces,
                    voxel_index: idx as usize,
                    voxel: gs[idx],
                    neighbors: spec_opposite_mask(face.spec_opposite(), adj),
                },
            )
        } else {
            Seq::empty()
        }) + spec_cull_entries(gs, ga, face, dims, reg, k + 1)
    }
}

/// The face voxel at position `k` is a boundary voxel of that face.
proof fn lemma_face_voxel(face: Face, k: int, dims: Dimensions)
    requires
        dims_valid(dims),
        face == Face::Right || face == Face::Left || face == Face::Back || face == Face::Forward,
        0 <= k < face_voxel_count(face, dims),
    ensures
        0 <= spec_face_voxel(face, k, dims) < spec_chunk_len(dims),
        crate::chunk::boundary_face(spec_face_voxel(face, k, dims), face, dims),
        0 <= spec_mirror_index(spec_face_voxel(face, k, dims), face, dims) < spec_chunk_len(dims),
{
    let span: int = match face {
        Face::Right | Face::Left => dims.2 as int,
        _ => dims.0 as int,
    };
    vstd::arithmetic::div_mod::lemma_div_pos_is_pos(k, span);
    vstd::arithmetic::div_mod::lemma_mod_bound(k, span);
    assert(k / span < dims.1) by (nonlinear_arith)
        requires
            0 <= k,
            k < dims.1 * span,
            0 < span,
    ;
    let c: [usize; 3] = match face {
        Face::Right => [(dims.0 - 1) as usize, (k / span) as usize, (k % span) as usize],
        Face::Left => [0, (k / span) as usize, (k % span) as usize],
        Face::Back => [(k % span) as usize, (k / span) as usize, (dims.2 - 1) as usize],
        Face::Forward => [(k % span) as usize, (k / span) as usize, 0],
        Face::Top | Face::Bottom => [0, 0, 0],
    };
    assert(in_bounds(c, dims));
    lemma_one_d_in_range(c, dims);
    crate::coords::lemma_three_d_of_one_d(c, dims);
    let idx = spec_face_voxel(face, k, dims);
    assert(idx == spec_one_d(c, dims));
    let m: [usize; 3] = match face {
        Face::Right => [0, c[1], c[2]],
        Face::Left => [(dims.0 - 1) as usize, c[1], c[2]],
        Face::Back => [c[0], c[1], 0],
        Face::Forward => [c[0], c[1], (dims.2 - 1) as usize],
        Face::Top | Face::Bottom => c,
    };
    assert(in_bounds(m, dims));
    lemma_one_d_in_range(m, dims);
    assert(spec_mirror_index(idx, face, dims) == spec_one_d(m, dims));
}

/// Sweeps one horizontal face of the chunk at `ci` against the loaded
/// neighbor at `ni`, appending the cull entries to the metadata log of
/// the chunk at `ci`.
fn cull_one_face(
    chunks: &mut Vec<Chunk>,
    ci: usize,
    ni: usize,
    face: Face,
    registry: &BlockRegistry,
    dims: Dimensions,
)
    requires
        dims_valid(dims),
        chunks_wf(chunk_models(old(chunks)@), dims),
        ci < old(chunks)@.len(),
        ni < old(chunks)@.len(),
        ci != ni,
        face == Face::Right || face == Face::Left || face == Face::Back || face == Face::Forward,
    ensures
        final(chunks)@.len() == old(chunks)@.len(),
        forall|i: int|
            0 <= i < old(chunks)@.len() && i != ci ==> final(chunks)@[i] == old(chunks)@[i],
        final(chunks)@[ci as int].cords == old(chunks)@[ci as int].cords,
        final(chunks)@[ci as int].grid@ == old(chunks)@[ci as int].grid@,
        final(chunks)@[ci as int].dirty == old(chunks)@[ci as int].dirty,
        final(chunks)@[ci as int].meta_data.spec_dims() == old(
            chunks,
        )@[ci as int].meta_data.spec_dims(),
        final(chunks)@[ci as int].meta_data.log_view() == old(
            chunks,
        )@[ci as int].meta_data.log_view() + spec_cull_entries(
            old(chunks)@[ci as int].grid@,
            old(chunks)@[ni as int].grid@,
            face,
            dims,
            *registry,
            0,
        ),
{
    let ghost olds = chunks@;
    let ghost gs = chunks@[ci as int].grid@;
    let ghost ga = chunks@[ni as int].grid@;
    let ghost base = chunks@[ci as int].meta_data.log_view();
    proof {
        assert(chunk_models(olds)[ci as int] == olds[ci as int].model());
        assert(chunk_models(olds)[ni as int] == olds[ni as int].model());
        assert(gs.len() == spec_chunk_len(dims));
        assert(ga.len() == spec_chunk_len(dims));
        assert(base + Seq::<MetaLogEntry>::empty() =~= base);
    }
    let span: usize = match face {
        Face::Right | Face::Left => dims.2,
        _ => dims.0,
    };
    proof {
        assert(dims.1 * span <= spec_chunk_len(dims)) by (nonlinear_arith)
            requires
                spec_chunk_len(dims) == dims.0 * dims.1 * dims.2,
                0 < dims.0 && 0 < dims.1 && 0 < dims.2,
                span == dims.2 || span == dims.0,
        ;
    }
    let count: usize = dims.1 * span;
    proof {
        assert(count == face_voxel_count(face, dims));
    }
    let mut k: usize = 0;
    while k < count
        invariant
            dims_valid(dims),
            face == Face::Right || face == Face::Left || face == Face::Back || face
                == Face::Forward,
            span == (match face {
                Face::Right | Face::Left => dims.2,
                _ => dims.0,
            }),
            count == face_voxel_count(face, dims),
            count <= spec_chunk_len(dims),
            0 <= k <= count,
            ci < olds.len(),
            ni < olds.len(),
            ci != ni,
            chunks@.len() == olds.len(),
            forall|i: int| 0 <= i < olds.len() && i != ci ==> chunks@[i] == olds[i],
            chunks@[ci as int].cords == olds[ci as int].cords,
            chunks@[ci as int].grid@ == gs,
            chunks@[ci as int].dirty == olds[ci as int].dirty,
            chunks@[ci as int].meta_data.spec_dims() == olds[ci as int].meta_data.spec_dims(),
            gs == olds[ci as int].grid@,
            ga == olds[ni as int].grid@,
            gs.len() == spec_chunk_len(dims),
            ga.len() == spec_chunk_len(dims),
            base == olds[ci as int].meta_data.log_view(),
            chunks@[ci as int].meta_data.log_view() + spec_cull_entries(
                gs,
                ga,
                face,
                dims,
                *registry,
                k as int,
            ) == base + spec_cull_entries(gs, ga, face, dims, *registry, 0),
        decreases count - k,
    {
        proof {
            lemma_face_voxel(face, k as int, dims);
            vstd::arithmetic::div_mod::lemma_div_pos_is_pos(k as int, span as int);
            vstd::arithmetic::div_mod::lemma_mod_bound(k as int, span as int);
            assert((k as int) / (span as int) < dims.1) by (nonlinear_arith)
                requires
                    0 <= k as int,
                    (k as int) < (dims.1 as int) * (span as int),
                    0 < span,
            ;
        }
        let y = k / span;
        let t = k % span;
        let c: [usize; 3] = match face {
            Face::Right => [dims.0 - 1, y, t],
            Face::Left => [0, y, t],
            Face::Back => [t, y, dims.2 - 1],
            Face::Forward => [t, y, 0],
            Face::Top | Face::Bottom => [0, 0, 0],
        };
        proof {
            lemma_one_d_in_range(c, dims);
            assert(spec_one_d(c, dims) == spec_face_voxel(face, k as int, dims));
        }
        let idx = crate::coords::one_d_cords(c, dims);
        let mi = crate::chunk::mirror_index(idx, face, dims);
        let adj = chunks[ni].grid[mi];
        let own = chunks[ci].grid[idx];
        let ghost pre_log = chunks@[ci as int].meta_data.log_view();
        if registry.is_covering(&adj, face.opposite()) {
            let mask = crate::edit::opposite_mask(face.opposite(), adj);
            let ch = &mut chunks[ci];
            ch.meta_data.log(VoxelChange::CullFaces, idx, own, mask);
            proof {
                let e = MetaLogEntry {
                    change: VoxelChange::CullFaces,
                    voxel_index: idx,
                    voxel: gs[idx as int],
                    neighbors: spec_opposite_mask(face.spec_opposite(), adj),
                };
                assert(chunks@[ci as int].meta_data.log_view() == pre_log.push(e));
                assert(spec_cull_entries(gs, ga, face, dims, *registry, k as int) == Seq::empty()
                    .push(e) + spec_cull_entries(gs, ga, face, dims, *registry, k as int + 1));
                assert(pre_log.push(e) + spec_cull_entries(gs, ga, face, dims, *registry, k as int
                    + 1) =~= pre_log + (Seq::empty().push(e) + spec_cull_entries(
                    gs,
                    ga,
                    face,
                    dims,
                    *registry,
                    k as int + 1,
                )));
            }
        } else {
            proof {
                assert(spec_cull_entries(gs, ga, face, dims, *registry, k as int) =~= Seq::<
                    MetaLogEntry,
                >::empty() + spec_cull_entries(gs, ga, face, dims, *registry, k as int + 1));
                assert(Seq::<MetaLogEntry>::empty() + spec_cull_entries(
                    gs,
                    ga,
                    face,
                    dims,
                    *registry,
                    k as int + 1,
                ) =~= spec_cull_entries(gs, ga, face, dims, *registry, k as int + 1));
            }
        }
        k = k + 1;
    }
    proof {
        assert(spec_cull_entries(gs, ga, face, dims, *registry, count as int) =~= Seq::<
            MetaLogEntry,
        >::empty());
        assert(chunks@[ci as int].meta_data.log_view() + Seq::<MetaLogEntry>::empty()
            =~= chunks@[ci as int].meta_data.log_view());
    }
}

/// The entries one pending side contributes to the metadata log: none
/// when that side is already culled or its neighbor chunk is not loaded.
pub open spec fn spec_face_contribution(
    models: Seq<ChunkModel>,
    ci: int,
    face: Face,
    culled: [bool; 6],
    dims: Dimensions,
    reg: BlockRegistry,
) -> Seq<MetaLogEntry> {
    let nc = spec_neighbor_cords(models[ci].cords, face);
    if culled[face.spec_index()] || !chunk_at(models, nc) {
        Seq::empty()
    } else {
        spec_cull_entries(
            models[ci].grid,
            models[chunk_index(models, nc)].grid,
            face,
            dims,
            reg,
            0,
        )
    }
}

/// Brings the pending sides of the chunk at `ci` up to date against its
/// loaded neighbors: each side not yet culled whose neighbor chunk is
/// loaded is swept (one cull entry per boundary voxel hidden behind a
/// covering neighbor voxel) and reported culled; a side whose neighbor is
/// still missing is reported still pending. The chunk is marked dirty for
/// mesh re-derivation; the top and bottom sides have no neighbor chunks
/// and keep their given state.
pub fn cull_sides_of_mesh(
    chunks: &mut Vec<Chunk>,
    ci: usize,
    culled: [bool; 6],
    registry: &BlockRegistry,
    dims: Dimensions,
) -> (r: [bool; 6])
    requires
        dims_valid(dims),
        chunks_unique(chunk_models(old(chunks)@)),
        chunks_wf(chunk_models(old(chunks)@), dims),
        ci < old(chunks)@.len(),
        -CHUNK_COORD_LIMIT <= old(chunks)@[ci as int].cords[0] <= CHUNK_COORD_LIMIT,
        -CHUNK_COORD_LIMIT <= old(chunks)@[ci as int].cords[1] <= CHUNK_COORD_LIMIT,
    ensures
        ({
            let models = chunk_models(old(chunks)@);
            let tc = models[ci as int].cords;
            &&& r[0] == culled[0] && r[1] == culled[1]
            &&& r[2] == (culled[2] || chunk_at(models, spec_neighbor_cords(tc, Face::Right)))
            &&& r[3] == (culled[3] || chunk_at(models, spec_neighbor_cords(tc, Face::Left)))
            &&& r[4] == (culled[4] || chunk_at(models, spec_neighbor_cords(tc, Face::Back)))
            &&& r[5] == (culled[5] || chunk_at(models, spec_neighbor_cords(tc, Face::Forward)))
            &&& final(chunks)@.len() == old(chunks)@.len()
            &&& forall|i: int|
                0 <= i < old(chunks)@.len() && i != ci ==> final(chunks)@[i] == old(chunks)@[i]
            &&& final(chunks)@[ci as int].cords == old(chunks)@[ci as int].cords
            &&& final(chunks)@[ci as int].grid@ == old(chunks)@[ci as int].grid@
            &&& final(chunks)@[ci as int].dirty
            &&& final(chunks)@[ci as int].meta_data.log_view() == old(
                chunks,
            )@[ci as int].meta_data.log_view() + spec_face_contribution(
                models,
                ci as int,
                Face::Right,
                culled,
                dims,
                *registry,
            ) + spec_face_contribution(models, ci as int, Face::Left, culled, dims, *registry)
                + spec_face_contribution(models, ci as int, Face::Back, culled, dims, *registry)
                + spec_face_contribution(
                models,
                ci as int,
                Face::Forward,
                culled,
                dims,
                *registry,
            )
        }),
{
    let ghost models = chunk_models(chunks@);
    let ghost base = chunks@[ci as int].meta_data.log_view();
    let tc = chunks[ci].cords;
    proof {
        assert(models[ci as int] == chunks@[ci as int].model());
        assert(models[ci as int].cords == tc);
    }
    let nr = lookup_side(chunks, ci, tc, culled[2], Face::Right);
    let nl = lookup_side(chunks, ci, tc, culled[3], Face::Left);
    let nb = lookup_side(chunks, ci, tc, culled[4], Face::Back);
    let nf = lookup_side(chunks, ci, tc, culled[5], Face::Forward);
    let ghost cr = spec_face_contribution(models, ci as int, Face::Right, culled, dims, *registry);
    let ghost cl = spec_face_contribution(models, ci as int, Face::Left, culled, dims, *registry);
    let ghost cb = spec_face_contribution(models, ci as int, Face::Back, culled, dims, *registry);
    let ghost cf = spec_face_contribution(
        models,
        ci as int,
        Face::Forward,
        culled,
        dims,
        *registry,
    );
    let ghost s0 = chunks@;
    if let Some(ni) = nr {
        cull_one_face(chunks, ci, ni, Face::Right, registry, dims);
    }
    let ghost s1 = chunks@;
    proof {
        lemma_wf_preserved(s0, s1, ci as int, dims);
        assert(chunks@[ci as int].meta_data.log_view() =~= base + cr);
    }
    if let Some(ni) = nl {
        cull_one_face(chunks, ci, ni, Face::Left, registry, dims);
    }
    let ghost s2 = chunks@;
    proof {
        lemma_wf_preserved(s1, s2, ci as int, dims);
        assert(chunks@[ci as int].meta_data.log_view() =~= base + cr + cl);
    }
    if let Some(ni) = nb {
        cull_one_face(chunks, ci, ni, Face::Back, registry, dims);
    }
    let ghost s3 = chunks@;
    proof {
        lemma_wf_preserved(s2, s3, ci as int, dims);
        assert(chunks@[ci as int].meta_data.log_view() =~= base + cr + cl + cb);
    }
    if let Some(ni) = nf {
        cull_one_face(chunks, ci, ni, Face::Forward, registry, dims);
    }
    proof {
        lemma_wf_preserved(s3, chunks@, ci as int, dims);
        assert(chunks@[ci as int].meta_data.log_view() =~= base + cr + cl + cb + cf);
    }
    let ch = &mut chunks[ci];
    ch.dirty = true;
    let r: [bool; 6] = [
        culled[0],
        culled[1],
        culled[2] || nr.is_some(),
        culled[3] || nl.is_some(),
        culled[4] || nb.is_some(),
        culled[5] || nf.is_some(),
    ];
    r
}

/// Looks up the loaded neighbor of one side, unless the side is already
/// culled. Reports the neighbor's position among the loaded chunks.
fn lookup_side(chunks: &Vec<Chunk>, ci: usize, tc: [i32; 2], already: bool, face: Face) -> (r:
    Option<usize>)
    requires
        chunks_unique(chunk_models(chunks@)),
        ci < chunks@.len(),
        chunk_models(chunks@)[ci as int].cords == tc,
        -CHUNK_COORD_LIMIT <= tc[0] <= CHUNK_COORD_LIMIT,
        -CHUNK_COORD_LIMIT <= tc[1] <= CHUNK_COORD_LIMIT,
        face == Face::Right || face == Face::Left || face == Face::Back || face == Face::Forward,
    ensures
        ({
            let models = chunk_models(chunks@);
            let nc = spec_neighbor_cords(tc, face);
            match r {
                Some(ni) => {
                    &&& !already
                    &&& chunk_at(models, nc)
                    &&& ni as int == chunk_index(models, nc)
                    &&& ni < chunks@.len()
                    &&& ni != ci
                    &&& models[ni as int].cords == nc
                },
                None => already || !chunk_at(models, nc),
            }
        }),
{
    if already {
        return None;
    }
    let nc: [i32; 2] = match face {
        Face::Right => [tc[0] + 1, tc[1]],
        Face::Left => [tc[0] - 1, tc[1]],
        Face::Back => [tc[0], tc[1] + 1],
        Face::Forward => [tc[0], tc[1] - 1],
        Face::Top | Face::Bottom => tc,
    };
    proof {
        assert(nc =~= spec_neighbor_cords(tc, face));
    }
    match find_chunk(chunks, nc) {
        None => None,
        Some(ni) => {
            proof {
                let models = chunk_models(chunks@);
                let j = chunk_index(models, nc);
                assert(0 <= j < models.len() && models[j].cords == nc);
                assert(nc[0] != tc[0] || nc[1] != tc[1]);
                if ni as int == ci as int {
                    assert(models[ci as int].cords == tc);
                    assert(false);
                }
            }
            Some(ni)
        },
    }
}

/// Touching only the metadata of one chunk keeps every grid length.
proof fn lemma_wf_preserved(s0: Seq<Chunk>, s1: Seq<Chunk>, ci: int, dims: Dimensions)
    requires
        chunks_wf(chunk_models(s0), dims),
        s1.len() == s0.len(),
        0 <= ci < s0.len(),
        forall|i: int| 0 <= i < s0.len() && i != ci ==> s1[i] == s0[i],
        s1[ci].grid@ == s0[ci].grid@,
    ensures
        chunks_wf(chunk_models(s1), dims),
{
    assert forall|i: int|
        0 <= i < chunk_models(s1).len() implies (#[trigger] chunk_models(s1)[i]).grid.len()
        == spec_chunk_len(dims) by {
        assert(chunk_models(s1)[i] == s1[i].model());
        assert(chunk_models(s0)[i] == s0[i].model());
    }
}

} // verus!
