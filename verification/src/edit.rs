//! The block break/place protocol. An edit event carries the ordered
//! candidate cells from ray targeting; the protocol validates them, applies
//! the first valid edit to the target chunk's grid and metadata, and
//! propagates face-visibility updates to neighbor chunks when the edit
//! touches a horizontal chunk boundary.
//!
//! Validation rules: breaking skips air cells (and cells in chunks that
//! are not loaded nearby) and applies at the first solid cell; placing
//! looks only at the first candidate — placing against an air or missing
//! "onto" reference rejects the whole event, and placing into an occupied
//! cell rejects it too. A placement whose target or "onto" chunk is not
//! loaded is a consistency fault, reported with nothing changed; a
//! boundary neighbor that is not loaded simply receives no propagation.

use vstd::prelude::*;

verus! {

use crate::blocks::AIR;
use crate::blocks::Block;
use crate::blocks::BlockRegistry;
use crate::chunk::Chunk;
use crate::chunk::ChunkModel;
use crate::chunk::boundary_face;
use crate::chunk::chunk_at;
use crate::chunk::chunk_index;
use crate::chunk::chunk_models;
use crate::chunk::chunks_unique;
use crate::chunk::chunks_wf;
use crate::chunk::face_to;
use crate::chunk::find_chunk;
use crate::chunk::lemma_chunk_at;
use crate::chunk::mirror_index;
use crate::chunk::neighbor_snapshot;
use crate::chunk::spec_mirror_index;
use crate::chunk::spec_neighbor_cords;
use crate::chunk::spec_neighbor_snapshot;
use crate::coords::Dimensions;
use crate::coords::dims_valid;
use crate::coords::get_neighbor;
use crate::coords::spec_chunk_len;
use crate::face::Face;
use crate::metadata::MetaLogEntry;
use crate::metadata::VoxelChange;
use crate::worldpos::CHUNK_COORD_LIMIT;

/// One break/place event: the ordered candidate cells (chunk coordinate,
/// linear voxel index, and — for placement — the solid cell the block is
/// placed against), and whether blocks are added or broken.
pub struct BlockChange {
    pub blocks: Vec<([i32; 2], usize, Option<([i32; 2], usize)>)>,
    pub change: VoxelChange,
}

/// What an edit event came to.
#[derive(Clone, Copy, PartialEq, Eq, Debug)]
pub enum EditOutcome {
    /// The edit was applied at this chunk and voxel index.
    Applied([i32; 2], usize),
    /// Placement was rejected: the "onto" reference is missing or air.
    RejectedOntoAir,
    /// Placement was rejected: the target cell already holds a block.
    RejectedOccupied,
    /// No candidate was applicable (breaking found no solid cell, or the
    /// event carried no candidates).
    NoTarget,
    /// Consistency fault: this chunk was needed but is not loaded.
    MissingChunk([i32; 2]),
}

/// A break candidate that is passed over: its chunk is not loaded nearby,
/// or its cell holds air (breaking air is a no-op).
pub open spec fn cand_skipped_broken(
    models: Seq<ChunkModel>,
    cand: ([i32; 2], usize, Option<([i32; 2], usize)>),
) -> bool {
    ||| !chunk_at(models, cand.0)
    ||| models[chunk_index(models, cand.0)].grid[cand.1 as int] == AIR
}

/// The six-entry snapshot carried by a cross-chunk log entry: the edited
/// voxel's pre-edit value, seen through the neighbor's touching face.
pub open spec fn spec_opposite_mask(face: Face, v: Block) -> [Option<Block>; 6] {
    [
        if face.spec_opposite() == Face::Top {
            Some(v)
        } else {
            None
        },
        if face.spec_opposite() == Face::Bottom {
            Some(v)
        } else {
            None
        },
        if face.spec_opposite() == Face::Right {
            Some(v)
        } else {
            None
        },
        if face.spec_opposite() == Face::Left {
            Some(v)
        } else {
            None
        },
        if face.spec_opposite() == Face::Back {
            Some(v)
        } else {
            None
        },
        if face.spec_opposite() == Face::Forward {
            Some(v)
        } else {
            None
        },
    ]
}

/// The target chunk after the edit: the cell updated, one log entry
/// appended (with the pre-edit neighbor snapshot), and the chunk dirty.
pub open spec fn spec_target_after(
    m: ChunkModel,
    change: VoxelChange,
    idx: int,
    logged: Block,
    newv: Block,
    dims: Dimensions,
) -> ChunkModel {
    ChunkModel {
        cords: m.cords,
        grid: m.grid.update(idx, newv),
        log: m.log.push(
            MetaLogEntry {
                change,
                voxel_index: idx as usize,
                voxel: logged,
                neighbors: spec_neighbor_snapshot(m.grid, idx, dims),
            },
        ),
        dirty: true,
    }
}

/// A neighbor chunk after cross-chunk propagation: one log entry for its
/// boundary voxel, and the chunk dirty. Its grid does not change.
pub open spec fn spec_neighbor_after(
    m: ChunkModel,
    kind: VoxelChange,
    nidx: int,
    face: Face,
    vox_pre: Block,
) -> ChunkModel {
    ChunkModel {
        cords: m.cords,
        grid: m.grid,
        log: m.log.push(
            MetaLogEntry {
                change: kind,
                voxel_index: nidx as usize,
                voxel: m.grid[nidx],
                neighbors: spec_opposite_mask(face, vox_pre),
            },
        ),
        dirty: true,
    }
}

/// Whether chunk `i` receives a cross-chunk update from an edit at voxel
/// `idx` of chunk `ti`, and through which face: it must sit across a
/// horizontal boundary the voxel touches, and its touching voxel must
/// cover the shared face.
pub open spec fn cull_applies(
    models: Seq<ChunkModel>,
    ti: int,
    idx: int,
    i: int,
    dims: Dimensions,
    reg: BlockRegistry,
) -> Option<Face> {
    match face_to(models[ti].cords, models[i].cords) {
        Some(f) => if boundary_face(idx, f, dims) && reg.spec_covers(
            models[i].grid[spec_mirror_index(idx, f, dims)],
        ) {
            Some(f)
        } else {
            None
        },
        None => None,
    }
}

/// The whole world of loaded chunks after an applied edit: the target
/// transformed, each covering neighbor across a touched boundary given its
/// log entry, every other chunk untouched.
pub open spec fn spec_after_edit(
    models: Seq<ChunkModel>,
    ti: int,
    idx: int,
    change: VoxelChange,
    logged: Block,
    newv: Block,
    kind: VoxelChange,
    dims: Dimensions,
    reg: BlockRegistry,
) -> Seq<ChunkModel> {
    Seq::new(
        models.len(),
        |i: int|
            if i == ti {
                spec_target_after(models[ti], change, idx, logged, newv, dims)
            } else {
                match cull_applies(models, ti, idx, i, dims, reg) {
                    Some(f) => spec_neighbor_after(
                        models[i],
                        kind,
                        spec_mirror_index(idx, f, dims),
                        f,
                        models[ti].grid[idx],
                    ),
                    None => models[i],
                }
            },
    )
}

/// Every candidate of an event is structurally valid: indices inside the
/// chunk, coordinates within the accepted range.
pub open spec fn event_wf(e: BlockChange, dims: Dimensions) -> bool {
    forall|j: int| 0 <= j < e.blocks@.len() ==> cand_wf(#[trigger] e.blocks@[j], dims)
}

/// Builds the cross-chunk snapshot mask for one face.
pub fn opposite_mask(face: Face, v: Block) -> (r: [Option<Block>; 6])
    ensures
        r == spec_opposite_mask(face, v),
{
    let opp = face.opposite();
    let r: [Option<Block>; 6] = [
        if matches!(opp, Face::Top) {
            Some(v)
        } else {
            None
        },
        if matches!(opp, Face::Bottom) {
            Some(v)
        } else {
            None
        },
        if matches!(opp, Face::Right) {
            Some(v)
        } else {
            None
        },
        if matches!(opp, Face::Left) {
            Some(v)
        } else {
            None
        },
        if matches!(opp, Face::Back) {
            Some(v)
        } else {
            None
        },
        if matches!(opp, Face::Forward) {
            Some(v)
        } else {
            None
        },
    ];
    proof {
        assert(r =~= spec_opposite_mask(face, v));
    }
    r
}

/// Applies the edit to the target chunk itself.
fn edit_target(
    ch: &mut Chunk,
    change: VoxelChange,
    idx: usize,
    logged: Block,
    newv: Block,
    dims: Dimensions,
)
    requires
        dims_valid(dims),
        old(ch).wf(dims),
        idx < spec_chunk_len(dims),
    ensures
        final(ch).wf(dims),
        final(ch).model() == spec_target_after(
            old(ch).model(),
            change,
            idx as int,
            logged,
            newv,
            dims,
        ),
{
    let snapshot = neighbor_snapshot(&ch.grid, idx, dims);
    ch.meta_data.log(change, idx, logged, snapshot);
    ch.grid[idx] = newv;
    ch.dirty = true;
}

/// Appends the cross-chunk log entry to a neighbor chunk.
fn cull_neighbor(ch: &mut Chunk, kind: VoxelChange, nidx: usize, face: Face, vox_pre: Block)
    requires
        old(ch).grid@.len() > nidx,
    ensures
        final(ch).model() == spec_neighbor_after(
            old(ch).model(),
            kind,
            nidx as int,
            face,
            vox_pre,
        ),
        final(ch).grid@.len() == old(ch).grid@.len(),
{
    let nvox = ch.grid[nidx];
    let mask = opposite_mask(face, vox_pre);
    ch.meta_data.log(kind, nidx, nvox, mask);
    ch.dirty = true;
}

/// The cross-chunk lookup for one horizontal face of the edited voxel:
/// nothing to do when the voxel does not touch that boundary, the
/// neighbor chunk is not loaded, or the neighbor's touching voxel does
/// not cover the shared face; the neighbor's index, mirrored voxel index
/// and touching voxel otherwise.
fn cross_for_face(
    chunks: &Vec<Chunk>,
    registry: &BlockRegistry,
    dims: Dimensions,
    tc: [i32; 2],
    idx: usize,
    face: Face,
) -> (r: Option<(usize, usize, Block)>)
    requires
        dims_valid(dims),
        chunks_unique(chunk_models(chunks@)),
        chunks_wf(chunk_models(chunks@), dims),
        idx < spec_chunk_len(dims),
        -CHUNK_COORD_LIMIT <= tc[0] <= CHUNK_COORD_LIMIT,
        -CHUNK_COORD_LIMIT <= tc[1] <= CHUNK_COORD_LIMIT,
        face == Face::Right || face == Face::Left || face == Face::Back || face == Face::Forward,
    ensures
        ({
            let models = chunk_models(chunks@);
            let nc = spec_neighbor_cords(tc, face);
            let m = spec_mirror_index(idx as int, face, dims);
            match r {
                None => !boundary_face(idx as int, face, dims) || !chunk_at(models, nc) || (
                chunk_at(models, nc) && !registry.spec_covers(
                    models[chunk_index(models, nc)].grid[m],
                )),
                Some((ni, mi, nvox)) => {
                    &&& boundary_face(idx as int, face, dims)
                    &&& chunk_at(models, nc)
                    &&& ni as int == chunk_index(models, nc)
                    &&& ni < chunks@.len()
                    &&& mi == m
                    &&& 0 <= m < spec_chunk_len(dims)
                    &&& nvox == models[ni as int].grid[m]
                    &&& registry.spec_covers(nvox)
                },
            }
        }),
{
    if get_neighbor(idx, face, dims).is_some() {
        return None;
    }
    let nc: [i32; 2] = match face {
        Face::Right => [tc[0] + 1, tc[1]],
        Face::Left => [tc[0] - 1, tc[1]],
        Face::Back => [tc[0], tc[1] + 1],
        Face::Forward => [tc[0], tc[1] - 1],
        Face::Top | Face::Bottom => tc,
    };
    proof {
        assert(nc =~= spec_neighbor_cords(tc, face));
    }
    match find_chunk(chunks, nc) {
        None => None,
        Some(ni) => {
            let m = mirror_index(idx, face, dims);
            proof {
                let models = chunk_models(chunks@);
                let j = chunk_index(models, nc);
                assert(0 <= j < models.len() && models[j].cords == nc);
                assert(chunk_models(chunks@)[ni as int] == chunks@[ni as int].model());
                assert(chunk_models(chunks@)[ni as int].grid.len() == spec_chunk_len(dims));
            }
            let nvox = chunks[ni].grid[m];
            if registry.is_covering(&nvox, face.opposite()) {
                Some((ni, m, nvox))
            } else {
                None
            }
        },
    }
}

/// Applies a validated edit at voxel `idx` of the chunk at position `ti`:
/// updates the target chunk and appends the cross-chunk entry to the
/// covering neighbor across each touched boundary that is loaded.
#[verifier::rlimit(60)]
fn apply_edit(
    chunks: &mut Vec<Chunk>,
    ti: usize,
    idx: usize,
    change: VoxelChange,
    logged: Block,
    newv: Block,
    kind: VoxelChange,
    registry: &BlockRegistry,
    dims: Dimensions,
)
    requires
        dims_valid(dims),
        chunks_unique(chunk_models(old(chunks)@)),
        chunks_wf(chunk_models(old(chunks)@), dims),
        ti < old(chunks)@.len(),
        idx < spec_chunk_len(dims),
        -CHUNK_COORD_LIMIT <= old(chunks)@[ti as int].cords[0] <= CHUNK_COORD_LIMIT,
        -CHUNK_COORD_LIMIT <= old(chunks)@[ti as int].cords[1] <= CHUNK_COORD_LIMIT,
    ensures
        chunk_models(final(chunks)@) == spec_after_edit(
            chunk_models(old(chunks)@),
            ti as int,
            idx as int,
            change,
            logged,
            newv,
            kind,
            dims,
            *registry,
        ),
{
    let ghost models0 = chunk_models(chunks@);
    let tc = chunks[ti].cords;
    proof {
        assert(models0[ti as int] == chunks@[ti as int].model());
        assert(models0[ti as int].grid.len() == spec_chunk_len(dims));
    }
    let vox_pre = chunks[ti].grid[idx];
    let cright = cross_for_face(chunks, registry, dims, tc, idx, Face::Right);
    let cleft = cross_for_face(chunks, registry, dims, tc, idx, Face::Left);
    let cback = cross_for_face(chunks, registry, dims, tc, idx, Face::Back);
    let cforward = cross_for_face(chunks, registry, dims, tc, idx, Face::Forward);
    proof {
        lemma_neighbor_cords_distinct(tc);
        if cright.is_some() {
            let j = chunk_index(models0, spec_neighbor_cords(tc, Face::Right));
            assert(0 <= j < models0.len() && models0[j].cords == spec_neighbor_cords(
                tc,
                Face::Right,
            ));
        }
        if cleft.is_some() {
            let j = chunk_index(models0, spec_neighbor_cords(tc, Face::Left));
            assert(0 <= j < models0.len() && models0[j].cords == spec_neighbor_cords(
                tc,
                Face::Left,
            ));
        }
        if cback.is_some() {
            let j = chunk_index(models0, spec_neighbor_cords(tc, Face::Back));
            assert(0 <= j < models0.len() && models0[j].cords == spec_neighbor_cords(
                tc,
                Face::Back,
            ));
        }
        if cforward.is_some() {
            let j = chunk_index(models0, spec_neighbor_cords(tc, Face::Forward));
            assert(0 <= j < models0.len() && models0[j].cords == spec_neighbor_cords(
                tc,
                Face::Forward,
            ));
        }
    }
    let ch = &mut chunks[ti];
    edit_target(ch, change, idx, logged, newv, dims);
    proof {
        assert(chunks@[ti as int].model() == spec_target_after(
            models0[ti as int],
            change,
            idx as int,
            logged,
            newv,
            dims,
        ));
    }
    if let Some((ni, mi, nvox)) = cright {
        let nch = &mut chunks[ni];
        cull_neighbor(nch, kind, mi, Face::Right, vox_pre);
    }
    if let Some((ni, mi, nvox)) = cleft {
        let nch = &mut chunks[ni];
        cull_neighbor(nch, kind, mi, Face::Left, vox_pre);
    }
    if let Some((ni, mi, nvox)) = cback {
        let nch = &mut chunks[ni];
        cull_neighbor(nch, kind, mi, Face::Back, vox_pre);
    }
    if let Some((ni, mi, nvox)) = cforward {
        let nch = &mut chunks[ni];
        cull_neighbor(nch, kind, mi, Face::Forward, vox_pre);
    }
    proof {
        let after = spec_after_edit(
            models0,
            ti as int,
            idx as int,
            change,
            logged,
            newv,
            kind,
            dims,
            *registry,
        );
        assert forall|i: int| 0 <= i < models0.len() implies chunk_models(chunks@)[i] == after[i] by {
            assert(chunk_models(chunks@)[i] == chunks@[i].model());
            lemma_edit_cases(
                models0,
                ti as int,
                idx as int,
                i,
                dims,
                *registry,
                tc,
                cright,
                cleft,
                cback,
                cforward,
            );
            if i == ti {
            } else {
                match cull_applies(models0, ti as int, idx as int, i, dims, *registry) {
                    Some(f) => {
                        assert(chunks@[i].model() == spec_neighbor_after(
                            models0[i],
                            kind,
                            spec_mirror_index(idx as int, f, dims),
                            f,
                            models0[ti as int].grid[idx as int],
                        ));
                    },
                    None => {
                        assert(chunks@[i].model() == models0[i]);
                    },
                }
            }
        }
        assert(chunk_models(chunks@) =~= after);
    }
}

/// The four horizontal neighbor coordinates of a chunk are pairwise
/// distinct and differ from the chunk itself.
proof fn lemma_neighbor_cords_distinct(tc: [i32; 2])
    requires
        -CHUNK_COORD_LIMIT <= tc[0] <= CHUNK_COORD_LIMIT,
        -CHUNK_COORD_LIMIT <= tc[1] <= CHUNK_COORD_LIMIT,
    ensures
        spec_neighbor_cords(tc, Face::Right) != tc,
        spec_neighbor_cords(tc, Face::Left) != tc,
        spec_neighbor_cords(tc, Face::Back) != tc,
        spec_neighbor_cords(tc, Face::Forward) != tc,
        spec_neighbor_cords(tc, Face::Right) != spec_neighbor_cords(tc, Face::Left),
        spec_neighbor_cords(tc, Face::Right) != spec_neighbor_cords(tc, Face::Back),
        spec_neighbor_cords(tc, Face::Right) != spec_neighbor_cords(tc, Face::Forward),
        spec_neighbor_cords(tc, Face::Left) != spec_neighbor_cords(tc, Face::Back),
        spec_neighbor_cords(tc, Face::Left) != spec_neighbor_cords(tc, Face::Forward),
        spec_neighbor_cords(tc, Face::Back) != spec_neighbor_cords(tc, Face::Forward),
        face_to(tc, spec_neighbor_cords(tc, Face::Right)) == Some(Face::Right),
        face_to(tc, spec_neighbor_cords(tc, Face::Left)) == Some(Face::Left),
        face_to(tc, spec_neighbor_cords(tc, Face::Back)) == Some(Face::Back),
        face_to(tc, spec_neighbor_cords(tc, Face::Forward)) == Some(Face::Forward),
{
    let cr = spec_neighbor_cords(tc, Face::Right);
    let cl = spec_neighbor_cords(tc, Face::Left);
    let cb = spec_neighbor_cords(tc, Face::Back);
    let cf = spec_neighbor_cords(tc, Face::Forward);
    assert(cr[0] == tc[0] + 1 && cr[1] == tc[1]);
    assert(cl[0] == tc[0] - 1 && cl[1] == tc[1]);
    assert(cb[0] == tc[0] && cb[1] == tc[1] + 1);
    assert(cf[0] == tc[0] && cf[1] == tc[1] - 1);
}

/// Case analysis for the post-edit state of one chunk position: the
/// cross-chunk lookups name exactly the chunks that `cull_applies` picks.
proof fn lemma_edit_cases(
    models0: Seq<ChunkModel>,
    ti: int,
    idx: int,
    i: int,
    dims: Dimensions,
    reg: BlockRegistry,
    tc: [i32; 2],
    cright: Option<(usize, usize, Block)>,
    cleft: Option<(usize, usize, Block)>,
    cback: Option<(usize, usize, Block)>,
    cforward: Option<(usize, usize, Block)>,
)
    requires
        chunks_unique(models0),
        0 <= ti < models0.len(),
        0 <= i < models0.len(),
        models0[ti].cords == tc,
        -CHUNK_COORD_LIMIT <= tc[0] <= CHUNK_COORD_LIMIT,
        -CHUNK_COORD_LIMIT <= tc[1] <= CHUNK_COORD_LIMIT,
        cross_face_ok(models0, tc, idx, dims, reg, Face::Right, cright),
        cross_face_ok(models0, tc, idx, dims, reg, Face::Left, cleft),
        cross_face_ok(models0, tc, idx, dims, reg, Face::Back, cback),
        cross_face_ok(models0, tc, idx, dims, reg, Face::Forward, cforward),
    ensures
        i != ti ==> match cull_applies(models0, ti, idx, i, dims, reg) {
            Some(f) => {
                &&& (f == Face::Right ==> cright == Some(
                    (i as usize, spec_mirror_index(idx, f, dims) as usize, models0[i].grid[spec_mirror_index(idx, f, dims)]),
                ))
                &&& (f == Face::Left ==> cleft == Some(
                    (i as usize, spec_mirror_index(idx, f, dims) as usize, models0[i].grid[spec_mirror_index(idx, f, dims)]),
                ))
                &&& (f == Face::Back ==> cback == Some(
                    (i as usize, spec_mirror_index(idx, f, dims) as usize, models0[i].grid[spec_mirror_index(idx, f, dims)]),
                ))
                &&& (f == Face::Forward ==> cforward == Some(
                    (i as usize, spec_mirror_index(idx, f, dims) as usize, models0[i].grid[spec_mirror_index(idx, f, dims)]),
                ))
                &&& (f == Face::Right || f == Face::Left || f == Face::Back || f == Face::Forward)
            },
            None => {
                &&& (cright.is_some() ==> cright.unwrap().0 != i)
                &&& (cleft.is_some() ==> cleft.unwrap().0 != i)
                &&& (cback.is_some() ==> cback.unwrap().0 != i)
                &&& (cforward.is_some() ==> cforward.unwrap().0 != i)
            },
        },
{
    lemma_neighbor_cords_distinct(tc);
    if i != ti {
        match cull_applies(models0, ti, idx, i, dims, reg) {
            Some(f) => {
                let nc = spec_neighbor_cords(tc, f);
                assert(face_to(tc, models0[i].cords) == Some(f));
                assert(models0[i].cords == nc);
                lemma_chunk_at(models0, nc, i);
            },
            None => {
                if cright.is_some() && cright.unwrap().0 == i {
                    lemma_chunk_at(models0, spec_neighbor_cords(tc, Face::Right), i);
                }
                if cleft.is_some() && cleft.unwrap().0 == i {
                    lemma_chunk_at(models0, spec_neighbor_cords(tc, Face::Left), i);
                }
                if cback.is_some() && cback.unwrap().0 == i {
                    lemma_chunk_at(models0, spec_neighbor_cords(tc, Face::Back), i);
                }
                if cforward.is_some() && cforward.unwrap().0 == i {
                    lemma_chunk_at(models0, spec_neighbor_cords(tc, Face::Forward), i);
                }
            },
        }
    }
}

/// What `cross_for_face` reports for one face, as a predicate.
pub open spec fn cross_face_ok(
    models: Seq<ChunkModel>,
    tc: [i32; 2],
    idx: int,
    dims: Dimensions,
    reg: BlockRegistry,
    face: Face,
    o: Option<(usize, usize, Block)>,
) -> bool {
    let nc = spec_neighbor_cords(tc, face);
    let m = spec_mirror_index(idx, face, dims);
    match o {
        None => !boundary_face(idx, face, dims) || !chunk_at(models, nc) || (chunk_at(models, nc)
            && !reg.spec_covers(models[chunk_index(models, nc)].grid[m])),
        Some((ni, mi, nvox)) => {
            &&& boundary_face(idx, face, dims)
            &&& chunk_at(models, nc)
            &&& ni as int == chunk_index(models, nc)
            &&& ni < models.len()
            &&& mi == m
            &&& 0 <= m < spec_chunk_len(dims)
            &&& nvox == models[ni as int].grid[m]
            &&& reg.spec_covers(nvox)
        },
    }
}

/// Handles one break/place event against the loaded chunks, applying at
/// most one edit and reporting exactly what happened.
///
/// Breaking walks the candidates in order, skips cells that hold air or
/// whose chunk is not loaded, and applies at the first solid cell; when
/// none qualifies nothing changes. Placing looks only at the first
/// candidate: a missing or air "onto" reference rejects the event, an
/// occupied target cell rejects it, and otherwise the placed block is
/// `new_block`. Either way, a needed chunk that is not loaded is reported
/// as a fault with nothing changed.
pub fn handle_block_break_place(
    chunks: &mut Vec<Chunk>,
    registry: &BlockRegistry,
    event: &BlockChange,
    new_block: Block,
    dims: Dimensions,
) -> (r: EditOutcome)
    requires
        dims_valid(dims),
        chunks_unique(chunk_models(old(chunks)@)),
        chunks_wf(chunk_models(old(chunks)@), dims),
        event.change == VoxelChange::Added || event.change == VoxelChange::Broken,
        event_wf(*event, dims),
    ensures
        event.change == VoxelChange::Broken ==> (r is Applied || r is NoTarget),
        ({
            let models = chunk_models(old(chunks)@);
            let cands = event.blocks@;
            match r {
                EditOutcome::NoTarget => {
                    &&& final(chunks)@ == old(chunks)@
                    &&& event.change == VoxelChange::Broken ==> forall|j: int|
                        0 <= j < cands.len() ==> cand_skipped_broken(models, #[trigger] cands[j])
                    &&& event.change == VoxelChange::Added ==> cands.len() == 0
                },
                EditOutcome::RejectedOntoAir => {
                    &&& final(chunks)@ == old(chunks)@
                    &&& event.change == VoxelChange::Added
                    &&& cands.len() > 0
                    &&& match cands[0].2 {
                        None => true,
                        Some(onto) => chunk_at(models, onto.0) && models[chunk_index(
                            models,
                            onto.0,
                        )].grid[onto.1 as int] == AIR,
                    }
                },
                EditOutcome::RejectedOccupied => {
                    &&& final(chunks)@ == old(chunks)@
                    &&& event.change == VoxelChange::Added
                    &&& cands.len() > 0
                    &&& cands[0].2.is_some()
                    &&& chunk_at(models, cands[0].0)
                    &&& models[chunk_index(models, cands[0].0)].grid[cands[0].1 as int] != AIR
                },
                EditOutcome::MissingChunk(mc) => {
                    &&& final(chunks)@ == old(chunks)@
                    &&& !chunk_at(models, mc)
                    &&& event.change == VoxelChange::Added
                    &&& cands.len() > 0
                    &&& cands[0].2.is_some()
                    &&& (mc == cands[0].2.unwrap().0 || mc == cands[0].0)
                    &&& (!chunk_at(models, cands[0].2.unwrap().0) ==> mc == cands[0].2.unwrap().0)
                    &&& (chunk_at(models, cands[0].2.unwrap().0) ==> mc == cands[0].0 && models[
                        chunk_index(models, cands[0].2.unwrap().0)
                    ].grid[cands[0].2.unwrap().1 as int] != AIR)
                },
                EditOutcome::Applied(c, idx) => {
                    &&& chunk_at(models, c)
                    &&& idx < spec_chunk_len(dims)
                    &&& (event.change == VoxelChange::Added ==> {
                        let ti = chunk_index(models, c);
                        &&& cands.len() > 0
                        &&& c == cands[0].0
                        &&& idx == cands[0].1
                        &&& cands[0].2.is_some()
                        &&& models[ti].grid[idx as int] == AIR
                        &&& chunk_models(final(chunks)@) == spec_after_edit(
                            models,
                            ti,
                            idx as int,
                            VoxelChange::Added,
                            new_block,
                            new_block,
                            VoxelChange::CullFaces,
                            dims,
                            *registry,
                        )
                    })
                    &&& (event.change == VoxelChange::Broken ==> {
                        let ti = chunk_index(models, c);
                        &&& models[ti].grid[idx as int] != AIR
                        &&& (exists|j: int|
                            0 <= j < cands.len() && (#[trigger] cands[j]).0 == c && cands[j].1
                                == idx && (forall|j2: int|
                                0 <= j2 < j ==> cand_skipped_broken(models, #[trigger] cands[j2])))
                        &&& chunk_models(final(chunks)@) == spec_after_edit(
                            models,
                            ti,
                            idx as int,
                            VoxelChange::Broken,
                            models[ti].grid[idx as int],
                            AIR,
                            VoxelChange::AddFaces,
                            dims,
                            *registry,
                        )
                    })
                },
            }
        }),
{
    let ghost models = chunk_models(chunks@);
    if matches!(event.change, VoxelChange::Added) {
        if event.blocks.len() == 0 {
            return EditOutcome::NoTarget;
        }
        let (c, idx, onto) = event.blocks[0];
        match onto {
            None => EditOutcome::RejectedOntoAir,
            Some((oc, oidx)) => {
                match find_chunk(chunks, oc) {
                    None => EditOutcome::MissingChunk(oc),
                    Some(oi) => {
                        proof {
                            assert(models[oi as int] == chunks@[oi as int].model());
                            assert(models[oi as int].grid.len() == spec_chunk_len(dims));
                        }
                        let onto_vox = chunks[oi].grid[oidx];
                        if onto_vox == AIR {
                            return EditOutcome::RejectedOntoAir;
                        }
                        match find_chunk(chunks, c) {
                            None => EditOutcome::MissingChunk(c),
                            Some(ti) => {
                                proof {
                                    assert(models[ti as int] == chunks@[ti as int].model());
                                    assert(models[ti as int].grid.len() == spec_chunk_len(dims));
                                    assert(models[ti as int].cords == c);
                                }
                                let vox = chunks[ti].grid[idx];
                                if vox != AIR {
                                    return EditOutcome::RejectedOccupied;
                                }
                                apply_edit(
                                    chunks,
                                    ti,
                                    idx,
                                    VoxelChange::Added,
                                    new_block,
                                    new_block,
                                    VoxelChange::CullFaces,
                                    registry,
                                    dims,
                                );
                                EditOutcome::Applied(c, idx)
                            },
                        }
                    },
                }
            },
        }
    } else {
        let n = event.blocks.len();
        let mut j: usize = 0;
        while j < n
            invariant
                dims_valid(dims),
                chunks@ == old(chunks)@,
                models == chunk_models(old(chunks)@),
                chunks_unique(models),
                chunks_wf(models, dims),
                event.change == VoxelChange::Broken,
                event_wf(*event, dims),
                n == event.blocks@.len(),
                0 <= j <= n,
                forall|j2: int|
                    0 <= j2 < j ==> cand_skipped_broken(models, #[trigger] event.blocks@[j2]),
            decreases n - j,
        {
            let (c, idx, onto) = event.blocks[j];
            match find_chunk(chunks, c) {
                None => {
                    // The candidate's chunk is not loaded nearby: pass it
                    // over, as breaking may still hit a later crossing.
                },
                Some(ti) => {
                    proof {
                        assert(models[ti as int] == chunks@[ti as int].model());
                        assert(models[ti as int].grid.len() == spec_chunk_len(dims));
                        assert(models[ti as int].cords == c);
                    }
                    let vox = chunks[ti].grid[idx];
                    if vox != AIR {
                        apply_edit(
                            chunks,
                            ti,
                            idx,
                            VoxelChange::Broken,
                            vox,
                            AIR,
                            VoxelChange::AddFaces,
                            registry,
                            dims,
                        );
                        return EditOutcome::Applied(c, idx);
                    }
                },
            }
            j = j + 1;
        }
        EditOutcome::NoTarget
    }
}

/// A crossing the candidate builders accept: its local cell inside the
/// chunk box and its chunk coordinate within the accepted world range.
pub open spec fn crossing_usable(c: crate::target::Crossing, dims: Dimensions) -> bool {
    &&& crate::coords::in_bounds(c.1, dims)
    &&& -CHUNK_COORD_LIMIT < c.0[0] < CHUNK_COORD_LIMIT
    &&& -CHUNK_COORD_LIMIT < c.0[1] < CHUNK_COORD_LIMIT
}

/// The break candidates of a cast: every usable crossing, in ray order,
/// as (chunk, linear index, no "onto" reference).
pub open spec fn spec_break_candidates(crossings: Seq<crate::target::Crossing>, dims: Dimensions) -> Seq<
    ([i32; 2], usize, Option<([i32; 2], usize)>),
>
    decreases crossings.len(),
{
    if crossings.len() == 0 {
        Seq::empty()
    } else {
        let c = crossings[0];
        (if crossing_usable(c, dims) {
            Seq::empty().push(
                (c.0, crate::coords::spec_one_d(c.1, dims) as usize, None::<([i32; 2], usize)>),
            )
        } else {
            Seq::empty()
        }) + spec_break_candidates(crossings.drop_first(), dims)
    }
}

/// The placement candidate one usable crossing yields: the cell on the
/// near side of the entered face, which may sit in the neighbor chunk
/// when the crossing lies on a horizontal chunk boundary; crossings at
/// the world's top or bottom build limit yield none.
pub open spec fn spec_place_candidate(c: crate::target::Crossing, dims: Dimensions) -> Option<
    ([i32; 2], usize, Option<([i32; 2], usize)>),
> {
    let tmp = crate::coords::spec_one_d(c.1, dims);
    match crate::coords::spec_neighbor(c.1, c.2, dims) {
        Some(n) => Some((c.0, crate::coords::spec_one_d(n, dims) as usize, Some((c.0, tmp as usize)))),
        None => match c.2 {
            Face::Top | Face::Bottom => None,
            _ => Some(
                (
                    spec_neighbor_cords(c.0, c.2),
                    spec_mirror_index(tmp, c.2, dims) as usize,
                    Some((c.0, tmp as usize)),
                ),
            ),
        },
    }
}

/// The placement candidates of a cast: from every usable crossing after
/// the first, the cell adjacent to it through the entered face, with the
/// crossing's own cell as the "onto" reference.
pub open spec fn spec_place_candidates(crossings: Seq<crate::target::Crossing>, dims: Dimensions) -> Seq<
    ([i32; 2], usize, Option<([i32; 2], usize)>),
>
    decreases crossings.len(),
{
    if crossings.len() == 0 {
        Seq::empty()
    } else {
        let c = crossings[0];
        (if crossing_usable(c, dims) {
            match spec_place_candidate(c, dims) {
                Some(cand) => Seq::empty().push(cand),
                None => Seq::empty(),
            }
        } else {
            Seq::empty()
        }) + spec_place_candidates(crossings.drop_first(), dims)
    }
}

/// Every break candidate is structurally valid.
pub proof fn lemma_break_candidates_wf(crossings: Seq<crate::target::Crossing>, dims: Dimensions)
    requires
        dims_valid(dims),
    ensures
        forall|j: int|
            0 <= j < spec_break_candidates(crossings, dims).len() ==> cand_wf(
                #[trigger] spec_break_candidates(crossings, dims)[j],
                dims,
            ),
    decreases crossings.len(),
{
    let result = spec_break_candidates(crossings, dims);
    if crossings.len() > 0 {
        let c = crossings[0];
        lemma_break_candidates_wf(crossings.drop_first(), dims);
        if crossing_usable(c, dims) {
            crate::coords::lemma_one_d_in_range(c.1, dims);
        }
        let head: Seq<([i32; 2], usize, Option<([i32; 2], usize)>)> = if crossing_usable(
            c,
            dims,
        ) {
            Seq::empty().push(
                (c.0, crate::coords::spec_one_d(c.1, dims) as usize, None::<([i32; 2], usize)>),
            )
        } else {
            Seq::empty()
        };
        let tail = spec_break_candidates(crossings.drop_first(), dims);
        assert forall|j: int| 0 <= j < result.len() implies cand_wf(#[trigger] result[j], dims) by {
            if j < head.len() {
                assert(result[j] == head[j]);
            } else {
                assert(result[j] == tail[j - head.len()]);
            }
        }
    }
}

/// Every placement candidate is structurally valid.
pub proof fn lemma_place_candidates_wf(crossings: Seq<crate::target::Crossing>, dims: Dimensions)
    requires
        dims_valid(dims),
    ensures
        forall|j: int|
            0 <= j < spec_place_candidates(crossings, dims).len() ==> cand_wf(
                #[trigger] spec_place_candidates(crossings, dims)[j],
                dims,
            ),
    decreases crossings.len(),
{
    let result = spec_place_candidates(crossings, dims);
    if crossings.len() > 0 {
        let c = crossings[0];
        lemma_place_candidates_wf(crossings.drop_first(), dims);
        if crossing_usable(c, dims) {
            crate::coords::lemma_one_d_in_range(c.1, dims);
            match crate::coords::spec_neighbor(c.1, c.2, dims) {
                Some(n) => {
                    crate::coords::lemma_neighbor_at_boundary(c.1, c.2, dims);
                    crate::coords::lemma_one_d_in_range(n, dims);
                },
                None => {
                    match c.2 {
                        Face::Top | Face::Bottom => {},
                        _ => {
                            crate::coords::lemma_three_d_in_bounds(
                                crate::coords::spec_one_d(c.1, dims),
                                dims,
                            );
                            crate::coords::lemma_three_d_of_one_d(c.1, dims);
                            lemma_mirror_in_range(crate::coords::spec_one_d(c.1, dims), c.2, dims);
                        },
                    }
                },
            }
        }
        let head: Seq<([i32; 2], usize, Option<([i32; 2], usize)>)> = if crossing_usable(
            c,
            dims,
        ) {
            match spec_place_candidate(c, dims) {
                Some(cand) => Seq::empty().push(cand),
                None => Seq::empty(),
            }
        } else {
            Seq::empty()
        };
        let tail = spec_place_candidates(crossings.drop_first(), dims);
        assert forall|j: int| 0 <= j < result.len() implies cand_wf(#[trigger] result[j], dims) by {
            if j < head.len() {
                assert(result[j] == head[j]);
            } else {
                assert(result[j] == tail[j - head.len()]);
            }
        }
    }
}

/// One structurally valid candidate.
pub open spec fn cand_wf(
    cand: ([i32; 2], usize, Option<([i32; 2], usize)>),
    dims: Dimensions,
) -> bool {
    &&& cand.1 < spec_chunk_len(dims)
    &&& -CHUNK_COORD_LIMIT <= cand.0[0] <= CHUNK_COORD_LIMIT
    &&& -CHUNK_COORD_LIMIT <= cand.0[1] <= CHUNK_COORD_LIMIT
    &&& match cand.2 {
        Some(onto) => onto.1 < spec_chunk_len(dims),
        None => true,
    }
}

/// The mirrored index of a boundary voxel is in range.
proof fn lemma_mirror_in_range(idx: int, face: Face, dims: Dimensions)
    requires
        dims_valid(dims),
        0 <= idx < spec_chunk_len(dims),
        face == Face::Right || face == Face::Left || face == Face::Back || face == Face::Forward,
    ensures
        0 <= spec_mirror_index(idx, face, dims) < spec_chunk_len(dims),
{
    crate::coords::lemma_three_d_in_bounds(idx, dims);
    let c = crate::coords::spec_three_d(idx, dims);
    let m: [usize; 3] = match face {
        Face::Right => [0, c[1], c[2]],
        Face::Left => [(dims.0 - 1) as usize, c[1], c[2]],
        Face::Back => [c[0], c[1], 0],
        Face::Forward => [c[0], c[1], (dims.2 - 1) as usize],
        Face::Top | Face::Bottom => c,
    };
    assert(crate::coords::in_bounds(m, dims));
    crate::coords::lemma_one_d_in_range(m, dims);
    assert(spec_mirror_index(idx, face, dims) == crate::coords::spec_one_d(m, dims));
}

/// Builds the break event of a cast: one candidate per usable crossing,
/// in ray order.
pub fn break_event_from_crossings(crossings: &Vec<crate::target::Crossing>, dims: Dimensions) -> (r:
    BlockChange)
    requires
        dims_valid(dims),
    ensures
        r.change == VoxelChange::Broken,
        r.blocks@ == spec_break_candidates(crossings@, dims),
        event_wf(r, dims),
{
    let mut blocks: Vec<([i32; 2], usize, Option<([i32; 2], usize)>)> = Vec::new();
    let n = crossings.len();
    let mut i: usize = 0;
    proof {
        assert(crossings@.skip(0) =~= crossings@);
        assert(Seq::<([i32; 2], usize, Option<([i32; 2], usize)>)>::empty()
            + spec_break_candidates(crossings@, dims) =~= spec_break_candidates(crossings@, dims));
    }
    while i < n
        invariant
            dims_valid(dims),
            n == crossings@.len(),
            0 <= i <= n,
            blocks@ + spec_break_candidates(crossings@.skip(i as int), dims)
                == spec_break_candidates(crossings@, dims),
        decreases n - i,
    {
        let (cc, local, face) = crossings[i];
        let ghost rest = crossings@.skip(i as int);
        proof {
            assert(rest[0] == crossings@[i as int]);
            assert(rest.drop_first() =~= crossings@.skip(i as int + 1));
        }
        let usable = local[0] < dims.0 && local[1] < dims.1 && local[2] < dims.2 && cc[0]
            < CHUNK_COORD_LIMIT && cc[0] > -CHUNK_COORD_LIMIT && cc[1] < CHUNK_COORD_LIMIT
            && cc[1] > -CHUNK_COORD_LIMIT;
        if usable {
            let ghost pre = blocks@;
            let idx = crate::coords::one_d_cords(local, dims);
            blocks.push((cc, idx, None));
            proof {
                assert(pre + (Seq::empty().push((cc, idx, None::<([i32; 2], usize)>))
                    + spec_break_candidates(crossings@.skip(i as int + 1), dims)) =~= blocks@
                    + spec_break_candidates(crossings@.skip(i as int + 1), dims));
            }
        } else {
            proof {
                assert(Seq::<([i32; 2], usize, Option<([i32; 2], usize)>)>::empty()
                    + spec_break_candidates(crossings@.skip(i as int + 1), dims)
                    =~= spec_break_candidates(crossings@.skip(i as int + 1), dims));
            }
        }
        i = i + 1;
    }
    proof {
        assert(crossings@.skip(n as int) =~= Seq::<crate::target::Crossing>::empty());
        assert(blocks@ + Seq::<([i32; 2], usize, Option<([i32; 2], usize)>)>::empty() =~= blocks@);
        lemma_break_candidates_wf(crossings@, dims);
    }
    let r = BlockChange { blocks, change: VoxelChange::Broken };
    r
}

/// Builds the placement event of a cast: for each usable crossing after
/// the first, the cell adjacent through its entered face, carrying the
/// crossing's own cell as the "onto" reference.
pub fn place_event_from_crossings(crossings: &Vec<crate::target::Crossing>, dims: Dimensions) -> (r:
    BlockChange)
    requires
        dims_valid(dims),
    ensures
        r.change == VoxelChange::Added,
        r.blocks@ == spec_place_tail(crossings@, dims),
        event_wf(r, dims),
{
    let mut blocks: Vec<([i32; 2], usize, Option<([i32; 2], usize)>)> = Vec::new();
    let n = crossings.len();
    if n == 0 {
        return BlockChange { blocks, change: VoxelChange::Added };
    }
    let mut i: usize = 1;
    proof {
        assert(crossings@.skip(1) =~= crossings@.drop_first());
        assert(Seq::<([i32; 2], usize, Option<([i32; 2], usize)>)>::empty()
            + spec_place_candidates(crossings@.skip(1), dims) =~= spec_place_candidates(
            crossings@.skip(1),
            dims,
        ));
    }
    while i < n
        invariant
            dims_valid(dims),
            n == crossings@.len(),
            1 <= i <= n,
            blocks@ + spec_place_candidates(crossings@.skip(i as int), dims)
                == spec_place_candidates(crossings@.skip(1), dims),
        decreases n - i,
    {
        let (cc, local, face) = crossings[i];
        let ghost rest = crossings@.skip(i as int);
        proof {
            assert(rest[0] == crossings@[i as int]);
            assert(rest.drop_first() =~= crossings@.skip(i as int + 1));
        }
        let usable = local[0] < dims.0 && local[1] < dims.1 && local[2] < dims.2 && cc[0]
            < CHUNK_COORD_LIMIT && cc[0] > -CHUNK_COORD_LIMIT && cc[1] < CHUNK_COORD_LIMIT
            && cc[1] > -CHUNK_COORD_LIMIT;
        let ghost pre = blocks@;
        if usable {
            let tmp = crate::coords::one_d_cords(local, dims);
            proof {
                crate::coords::lemma_three_d_of_one_d(local, dims);
            }
            match get_neighbor(tmp, face, dims) {
                Some(nidx) => {
                    blocks.push((cc, nidx, Some((cc, tmp))));
                    proof {
                        lemma_one_push(
                            pre,
                            blocks@,
                            (cc, nidx, Some((cc, tmp))),
                            crossings@,
                            i as int,
                            dims,
                        );
                    }
                },
                None => {
                    match face {
                        Face::Top | Face::Bottom => {
                            // At the world's vertical build limit: no cell
                            // to place into.
                            proof {
                                lemma_no_push(pre, crossings@, i as int, dims);
                            }
                        },
                        _ => {
                            proof {
                                crate::coords::lemma_three_d_of_one_d(local, dims);
                            }
                            let nc: [i32; 2] = match face {
                                Face::Right => [cc[0] + 1, cc[1]],
                                Face::Left => [cc[0] - 1, cc[1]],
                                Face::Back => [cc[0], cc[1] + 1],
                                Face::Forward => [cc[0], cc[1] - 1],
                                Face::Top | Face::Bottom => cc,
                            };
                            let mi = mirror_index(tmp, face, dims);
                            blocks.push((nc, mi, Some((cc, tmp))));
                            proof {
                                assert(nc =~= spec_neighbor_cords(cc, face));
                                lemma_one_push(
                                    pre,
                                    blocks@,
                                    (nc, mi, Some((cc, tmp))),
                                    crossings@,
                                    i as int,
                                    dims,
                                );
                            }
                        },
                    }
                },
            }
        } else {
            proof {
                lemma_no_push(pre, crossings@, i as int, dims);
            }
        }
        i = i + 1;
    }
    proof {
        assert(crossings@.skip(n as int) =~= Seq::<crate::target::Crossing>::empty());
        assert(blocks@ + Seq::<([i32; 2], usize, Option<([i32; 2], usize)>)>::empty() =~= blocks@);
        lemma_place_candidates_wf(crossings@.skip(1), dims);
    }
    let r = BlockChange { blocks, change: VoxelChange::Added };
    r
}

/// The placement candidates of a cast, `spec_place_candidates` of all
/// crossings after the first (an empty cast yields none).
pub open spec fn spec_place_tail(crossings: Seq<crate::target::Crossing>, dims: Dimensions) -> Seq<
    ([i32; 2], usize, Option<([i32; 2], usize)>),
> {
    if crossings.len() == 0 {
        Seq::empty()
    } else {
        spec_place_candidates(crossings.drop_first(), dims)
    }
}

/// Sequence bookkeeping for a step of the placement builder that adds one
/// candidate.
proof fn lemma_one_push(
    pre: Seq<([i32; 2], usize, Option<([i32; 2], usize)>)>,
    post: Seq<([i32; 2], usize, Option<([i32; 2], usize)>)>,
    cand: ([i32; 2], usize, Option<([i32; 2], usize)>),
    crossings: Seq<crate::target::Crossing>,
    i: int,
    dims: Dimensions,
)
    requires
        0 <= i < crossings.len(),
        post == pre.push(cand),
        crossing_usable(crossings[i], dims),
        spec_place_candidate(crossings[i], dims) == Some(cand),
    ensures
        post + spec_place_candidates(crossings.skip(i + 1), dims) == pre + spec_place_candidates(
            crossings.skip(i),
            dims,
        ),
{
    let rest = crossings.skip(i);
    assert(rest[0] == crossings[i]);
    assert(rest.drop_first() =~= crossings.skip(i + 1));
    assert(spec_place_candidates(rest, dims) == Seq::empty().push(cand) + spec_place_candidates(
        crossings.skip(i + 1),
        dims,
    ));
    assert(post + spec_place_candidates(crossings.skip(i + 1), dims) =~= pre + (Seq::empty().push(
        cand,
    ) + spec_place_candidates(crossings.skip(i + 1), dims)));
}

/// Sequence bookkeeping for a step of the placement builder that adds
/// nothing.
proof fn lemma_no_push(
    pre: Seq<([i32; 2], usize, Option<([i32; 2], usize)>)>,
    crossings: Seq<crate::target::Crossing>,
    i: int,
    dims: Dimensions,
)
    requires
        0 <= i < crossings.len(),
        !crossing_usable(crossings[i], dims) || spec_place_candidate(crossings[i], dims).is_none(),
    ensures
        pre + spec_place_candidates(crossings.skip(i + 1), dims) == pre + spec_place_candidates(
            crossings.skip(i),
            dims,
        ),
{
    let rest = crossings.skip(i);
    assert(rest[0] == crossings[i]);
    assert(rest.drop_first() =~= crossings.skip(i + 1));
    assert(spec_place_candidates(rest, dims) == Seq::<
        ([i32; 2], usize, Option<([i32; 2], usize)>),
    >::empty() + spec_place_candidates(crossings.skip(i + 1), dims));
    assert(Seq::<([i32; 2], usize, Option<([i32; 2], usize)>)>::empty() + spec_place_candidates(
        crossings.skip(i + 1),
        dims,
    ) =~= spec_place_candidates(crossings.skip(i + 1), dims));
}

} // verus!
