//! Block kinds and the block registry: per-face texture-atlas tiles and the
//! "covers its face" predicate that face culling relies on.
//!
//! The registry is immutable after construction and meant to be shared
//! read-only; air never covers, and see-through kinds (leaves, glass) never
//! cover either, so they do not suppress a neighbor's opposing face.

use vstd::prelude::*;

verus! {

use crate::face::Face;

/// A voxel type identifier.
pub type Block = u16;

pub const AIR: Block = 0;

pub const DIRT: Block = 1;

pub const GRASS: Block = 2;

pub const STONE: Block = 3;

pub const BRICKS: Block = 4;

pub const LOG: Block = 5;

pub const WOOD: Block = 6;

pub const LEAVES: Block = 7;

pub const GLASS: Block = 8;

pub const GLOWSTONE: Block = 9;

/// The number of block kinds the registry describes.
pub const BLOCK_KINDS: usize = 10;

/// A tile of the texture atlas, as a column and row.
#[derive(Clone, Copy, PartialEq, Eq, Structural, Debug)]
pub struct AtlasTile {
    pub col: u32,
    pub row: u32,
}

/// The atlas tile of each of a block's six faces.
#[derive(Clone, Copy, PartialEq, Eq, Structural, Debug)]
pub struct FaceTiles {
    pub top: AtlasTile,
    pub bottom: AtlasTile,
    pub right: AtlasTile,
    pub left: AtlasTile,
    pub back: AtlasTile,
    pub forward: AtlasTile,
}

impl FaceTiles {
    /// All six faces mapped to the same tile.
    pub fn uniform(tile: AtlasTile) -> (r: FaceTiles)
        ensures
            r == (FaceTiles {
                top: tile,
                bottom: tile,
                right: tile,
                left: tile,
                back: tile,
                forward: tile,
            }),
    {
        FaceTiles { top: tile, bottom: tile, right: tile, left: tile, back: tile, forward: tile }
    }

    pub open spec fn spec_tile(self, face: Face) -> AtlasTile {
        match face {
            Face::Top => self.top,
            Face::Bottom => self.bottom,
            Face::Right => self.right,
            Face::Left => self.left,
            Face::Back => self.back,
            Face::Forward => self.forward,
        }
    }

    pub fn tile(&self, face: Face) -> (r: AtlasTile)
        ensures
            r == self.spec_tile(face),
    {
        match face {
            Face::Top => self.top,
            Face::Bottom => self.bottom,
            Face::Right => self.right,
            Face::Left => self.left,
            Face::Back => self.back,
            Face::Forward => self.forward,
        }
    }
}

/// Immutable lookup from block kind to its face tiles and covering flag.
pub struct BlockRegistry {
    tiles: Vec<FaceTiles>,
    covering: Vec<bool>,
}

impl BlockRegistry {
    /// One entry per block kind, and air never covers.
    pub closed spec fn wf(self) -> bool {
        &&& self.tiles@.len() == self.covering@.len()
        &&& self.covering@.len() > 0
        &&& !self.covering@[AIR as int]
    }

    /// Whether a block of this kind fully occludes the given face of a
    /// neighboring voxel. Unknown kinds never cover.
    pub closed spec fn spec_covers(self, voxel: Block) -> bool {
        voxel < self.covering@.len() && self.covering@[voxel as int]
    }

    pub closed spec fn num_kinds(self) -> int {
        self.covering@.len() as int
    }

    /// The face tiles of a described block kind.
    pub closed spec fn spec_tiles(self, voxel: Block) -> FaceTiles {
        self.tiles@[voxel as int]
    }

    /// The face tiles the standard registry assigns to a block kind:
    /// most kinds wear one tile on all six faces; grass and logs
    /// distinguish their tops, bottoms and sides.
    pub open spec fn standard_tiles(b: Block) -> FaceTiles {
        if b == GRASS {
            FaceTiles {
                top: AtlasTile { col: 0, row: 0 },
                bottom: AtlasTile { col: 2, row: 0 },
                right: AtlasTile { col: 1, row: 0 },
                left: AtlasTile { col: 1, row: 0 },
                back: AtlasTile { col: 1, row: 0 },
                forward: AtlasTile { col: 1, row: 0 },
            }
        } else if b == LOG {
            FaceTiles {
                top: AtlasTile { col: 5, row: 0 },
                bottom: AtlasTile { col: 5, row: 0 },
                right: AtlasTile { col: 6, row: 0 },
                left: AtlasTile { col: 6, row: 0 },
                back: AtlasTile { col: 6, row: 0 },
                forward: AtlasTile { col: 6, row: 0 },
            }
        } else {
            let col: u32 = if b == AIR {
                0
            } else if b == DIRT {
                2
            } else if b == STONE {
                3
            } else if b == BRICKS {
                4
            } else if b == WOOD {
                7
            } else if b == LEAVES {
                8
            } else if b == GLASS {
                9
            } else {
                10
            };
            FaceTiles {
                top: AtlasTile { col, row: 0 },
                bottom: AtlasTile { col, row: 0 },
                right: AtlasTile { col, row: 0 },
                left: AtlasTile { col, row: 0 },
                back: AtlasTile { col, row: 0 },
                forward: AtlasTile { col, row: 0 },
            }
        }
    }

    /// The registry of the standard block kinds: the fixed atlas layout,
    /// with air, leaves and glass the only non-covering kinds.
    pub fn standard() -> (r: BlockRegistry)
        ensures
            r.wf(),
            r.num_kinds() == BLOCK_KINDS,
            forall|b: Block|
                b < BLOCK_KINDS ==> (r.spec_covers(b) <==> (b != AIR && b != LEAVES && b
                    != GLASS)),
            forall|b: Block| b >= BLOCK_KINDS ==> !r.spec_covers(b),
            forall|b: Block|
                b < BLOCK_KINDS ==> #[trigger] r.spec_tiles(b) == BlockRegistry::standard_tiles(
                    b,
                ),
    {
        let mut tiles: Vec<FaceTiles> = Vec::new();
        let mut covering: Vec<bool> = Vec::new();
        // Air renders nothing; its tile entry is never used.
        tiles.push(FaceTiles::uniform(AtlasTile { col: 0, row: 0 }));
        covering.push(false);
        // Dirt.
        tiles.push(FaceTiles::uniform(AtlasTile { col: 2, row: 0 }));
        covering.push(true);
        // Grass: its own top, dirt underneath, grass-edged sides.
        let side = AtlasTile { col: 1, row: 0 };
        tiles.push(
            FaceTiles {
                top: AtlasTile { col: 0, row: 0 },
                bottom: AtlasTile { col: 2, row: 0 },
                right: side,
                left: side,
                back: side,
                forward: side,
            },
        );
        covering.push(true);
        // Stone.
        tiles.push(FaceTiles::uniform(AtlasTile { col: 3, row: 0 }));
        covering.push(true);
        // Bricks.
        tiles.push(FaceTiles::uniform(AtlasTile { col: 4, row: 0 }));
        covering.push(true);
        // Log: ring ends on top and bottom, bark on the sides.
        let bark = AtlasTile { col: 6, row: 0 };
        tiles.push(
            FaceTiles {
                top: AtlasTile { col: 5, row: 0 },
                bottom: AtlasTile { col: 5, row: 0 },
                right: bark,
                left: bark,
                back: bark,
                forward: bark,
            },
        );
        covering.push(true);
        // Wood planks.
        tiles.push(FaceTiles::uniform(AtlasTile { col: 7, row: 0 }));
        covering.push(true);
        // Leaves: see-through, never covers.
        tiles.push(FaceTiles::uniform(AtlasTile { col: 8, row: 0 }));
        covering.push(false);
        // Glass: see-through, never covers.
        tiles.push(FaceTiles::uniform(AtlasTile { col: 9, row: 0 }));
        covering.push(false);
        // Glowstone.
        tiles.push(FaceTiles::uniform(AtlasTile { col: 10, row: 0 }));
        covering.push(true);
        BlockRegistry { tiles, covering }
    }

    /// Whether `voxel` occludes the neighbor it touches through `side`.
    pub fn is_covering(&self, voxel: &Block, side: Face) -> (r: bool)
        ensures
            r == self.spec_covers(*voxel),
    {
        let v = *voxel as usize;
        v < self.covering.len() && self.covering[v]
    }

    /// The atlas tile of one face of a block kind; `None` for kinds the
    /// registry does not describe.
    pub fn atlas_tile(&self, voxel: Block, side: Face) -> (r: Option<AtlasTile>)
        requires
            self.wf(),
        ensures
            voxel < self.num_kinds() ==> r == Some(self.spec_tiles(voxel).spec_tile(side)),
            voxel >= self.num_kinds() ==> r.is_none(),
    {
        let v = voxel as usize;
        if v < self.tiles.len() {
            Some(self.tiles[v].tile(side))
        } else {
            None
        }
    }
}

} // verus!
