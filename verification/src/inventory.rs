//! The player's block inventory: the placeable block kinds and which one
//! is in hand. The selection always stays within the item list.

use vstd::prelude::*;

verus! {

use crate::blocks::BRICKS;
use crate::blocks::Block;
use crate::blocks::DIRT;
use crate::blocks::GLASS;
use crate::blocks::GLOWSTONE;
use crate::blocks::GRASS;
use crate::blocks::LEAVES;
use crate::blocks::LOG;
use crate::blocks::STONE;
use crate::blocks::WOOD;

/// The inventory: the placeable kinds, and the index of the one in hand.
pub struct Inventory {
    current: usize,
    items: Vec<Block>,
}

impl Inventory {
    /// The selection is always a valid item position.
    pub closed spec fn wf(self) -> bool {
        self.items@.len() > 0 && self.current < self.items@.len()
    }

    pub closed spec fn spec_items(self) -> Seq<Block> {
        self.items@
    }

    pub closed spec fn spec_current(self) -> int {
        self.current as int
    }

    /// The block in hand.
    pub fn current_block(&self) -> (r: Block)
        requires
            self.wf(),
        ensures
            r == self.spec_items()[self.spec_current()],
    {
        self.items[self.current]
    }

    /// Selects the item at `slot`, wrapping past the end of the list.
    pub fn select(&mut self, slot: usize)
        requires
            old(self).wf(),
        ensures
            final(self).wf(),
            final(self).spec_items() == old(self).spec_items(),
            final(self).spec_current() == slot as int % old(self).spec_items().len() as int,
    {
        self.current = slot % self.items.len();
    }

    /// Steps the selection to the next item, wrapping around.
    pub fn next_item(&mut self)
        requires
            old(self).wf(),
        ensures
            final(self).wf(),
            final(self).spec_items() == old(self).spec_items(),
            final(self).spec_current() == (old(self).spec_current() + 1) % old(
                self,
            ).spec_items().len() as int,
    {
        let n = self.items.len();
        if self.current + 1 < n {
            self.current = self.current + 1;
        } else {
            self.current = 0;
        }
        proof {
            if old(self).current + 1 < n {
                vstd::arithmetic::div_mod::lemma_small_mod((old(self).current + 1) as nat, n as nat);
            } else {
                assert((old(self).spec_current() + 1) % n as int == 0) by {
                    assert(old(self).current + 1 == n);
                    assert(n as int % n as int == 0) by (nonlinear_arith)
                        requires
                            0 < n,
                    ;
                }
            }
        }
    }
}

impl Default for Inventory {
    /// The standard inventory: every placeable kind, grass in hand.
    fn default() -> (r: Inventory)
        ensures
            r.wf(),
            r.spec_current() == 0,
            r.spec_items() == seq![GRASS, DIRT, STONE, BRICKS, LOG, WOOD, LEAVES, GLASS, GLOWSTONE],
    {
        let mut items: Vec<Block> = Vec::new();
        items.push(GRASS);
        items.push(DIRT);
        items.push(STONE);
        items.push(BRICKS);
        items.push(LOG);
        items.push(WOOD);
        items.push(LEAVES);
        items.push(GLASS);
        items.push(GLOWSTONE);
        proof {
            assert(items@ =~= seq![GRASS, DIRT, STONE, BRICKS, LOG, WOOD, LEAVES, GLASS, GLOWSTONE]);
        }
        Inventory { current: 0, items }
    }
}

} // verus!
