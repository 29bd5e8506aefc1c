//! Mesh metadata: the incremental log that lets the mesher update a
//! chunk's renderable mesh without a full rebuild. The edit protocol
//! appends one entry per change; the mesh re-derivation step consumes the
//! accumulated entries and clears the log.

use vstd::prelude::*;

verus! {

use crate::blocks::Block;
use crate::coords::Dimensions;

/// The kind of change a log entry records.
#[derive(Clone, Copy, PartialEq, Eq, Structural, Debug)]
pub enum VoxelChange {
    /// A block was placed at the entry's voxel.
    Added,
    /// A block was removed from the entry's voxel.
    Broken,
    /// Faces of the entry's voxel became hidden behind a new neighbor.
    CullFaces,
    /// Faces of the entry's voxel became visible again.
    AddFaces,
}

/// One recorded change: the kind, the voxel's linear index, the voxel
/// value the mesher should use, and a snapshot of the six same-chunk
/// neighbor values (`None` where the neighbor lies outside the chunk),
/// indexed by face numbering.
#[derive(Clone, Copy, PartialEq, Eq, Debug)]
pub struct MetaLogEntry {
    pub change: VoxelChange,
    pub voxel_index: usize,
    pub voxel: Block,
    pub neighbors: [Option<Block>; 6],
}

/// A chunk's mesh metadata: its dimensions and the pending change log.
pub struct MeshMetadata {
    dims: Dimensions,
    log: Vec<MetaLogEntry>,
}

impl MeshMetadata {
    /// The chunk dimensions this metadata was built for.
    pub closed spec fn spec_dims(self) -> Dimensions {
        self.dims
    }

    /// The pending change log, oldest first.
    pub closed spec fn log_view(self) -> Seq<MetaLogEntry> {
        self.log@
    }

    /// Fresh metadata with an empty change log.
    pub fn new(dims: Dimensions) -> (r: MeshMetadata)
        ensures
            r.spec_dims() == dims,
            r.log_view().len() == 0,
    {
        MeshMetadata { dims, log: Vec::new() }
    }

    /// Records one change.
    pub fn log(
        &mut self,
        change: VoxelChange,
        voxel_index: usize,
        voxel: Block,
        neighbors: [Option<Block>; 6],
    )
        ensures
            final(self).spec_dims() == old(self).spec_dims(),
            final(self).log_view() == old(self).log_view().push(
                MetaLogEntry { change, voxel_index, voxel, neighbors },
            ),
    {
        self.log.push(MetaLogEntry { change, voxel_index, voxel, neighbors });
    }

    /// Hands the accumulated entries to the mesh re-derivation step and
    /// clears the log.
    pub fn drain(&mut self) -> (r: Vec<MetaLogEntry>)
        ensures
            final(self).spec_dims() == old(self).spec_dims(),
            final(self).log_view().len() == 0,
            r@ == old(self).log_view(),
    {
        let mut out: Vec<MetaLogEntry> = Vec::new();
        core::mem::swap(&mut out, &mut self.log);
        out
    }

    /// How many entries are pending.
    pub fn len(&self) -> (r: usize)
        ensures
            r == self.log_view().len(),
    {
        self.log.len()
    }

    /// The entry at one position of the log.
    pub fn entry_at(&self, i: usize) -> (r: MetaLogEntry)
        requires
            i < self.log_view().len(),
        ensures
            r == self.log_view()[i as int],
    {
        self.log[i]
    }
}

} // verus!
