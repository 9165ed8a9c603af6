//! Chunks: vertical columns of sections with a height map and a load
//! status.
//!
//! A chunk is identified by its 2D chunk coordinate and owns an ordered
//! sequence of sections from lowest to highest. Height queries scan the
//! column on demand, so they always reflect the latest write. The load
//! status walks `Unloaded -> Loading -> Loaded -> Unloading`; the world
//! map drives the transitions.

use vstd::prelude::*;
use crate::section::ChunkSection;
use crate::section::SECTION_EDGE;
use crate::section::AIR;
use crate::section::block_index;
use crate::view_diff::ChunkPos;

verus! {

/// Lifecycle state of a chunk in the world map.
#[derive(Clone, Copy, Debug, PartialEq, Eq, Structural)]
pub enum ChunkStatus {
    Unloaded,
    Loading,
    Loaded,
    Unloading,
}

/// A vertical column of sections.
pub struct Chunk {
    pos: ChunkPos,
    status: ChunkStatus,
    sections: Vec<ChunkSection>,
}

impl Chunk {
    /// The chunk coordinate.
    pub closed spec fn spec_pos(&self) -> ChunkPos {
        self.pos
    }

    /// The load status.
    pub closed spec fn spec_status(&self) -> ChunkStatus {
        self.status
    }

    /// The sections, lowest first.
    pub closed spec fn spec_sections(&self) -> Seq<ChunkSection> {
        self.sections@
    }

    /// Height of the column in blocks.
    pub open spec fn spec_block_height(&self) -> nat {
        self.spec_sections().len() * 16
    }

    pub closed spec fn wf(&self) -> bool {
        &&& 1 <= self.sections@.len() <= 24
        &&& forall|s: int| 0 <= s < self.sections@.len() ==> (#[trigger] self.sections@[s]).wf()
    }

    /// The block at a column-local coordinate (`y` counted from the
    /// bottom of the column).
    pub open spec fn spec_block_at(&self, x: nat, y: nat, z: nat) -> u16 {
        self.spec_sections()[(y / 16) as int].spec_block_at(x, (y % 16) as nat, z)
    }

    /// A fresh all-air chunk entering the map in the `Loading` state.
    pub fn new(pos: ChunkPos, section_count: usize, initial_biome: u16) -> (r: Chunk)
        requires
            1 <= section_count <= 24,
            initial_biome < 0x40,
        ensures
            r.wf(),
            r.spec_pos() == pos,
            r.spec_status() == ChunkStatus::Loading,
            r.spec_sections().len() == section_count,
            forall|x: nat, y: nat, z: nat|
                x < 16 && y < r.spec_block_height() && z < 16 ==> #[trigger] r.spec_block_at(
                    x,
                    y,
                    z,
                ) == AIR,
    {
        let mut sections: Vec<ChunkSection> = Vec::new();
        let mut i: usize = 0;
        while i < section_count
            invariant
                i <= section_count,
                initial_biome < 0x40,
                sections@.len() == i,
                forall|s: int| 0 <= s < i ==> (#[trigger] sections@[s]).wf(),
                forall|s: int, j: int|
                    0 <= s < i && 0 <= j < 4096 ==> (#[trigger] sections@[s].spec_blocks()[j])
                        == AIR,
            decreases section_count - i,
        {
            sections.push(ChunkSection::new(AIR, initial_biome));
            i = i + 1;
        }
        let r = Chunk { pos, status: ChunkStatus::Loading, sections };
        proof {
            assert forall|x: nat, y: nat, z: nat|
                x < 16 && y < r.spec_block_height() && z < 16 implies #[trigger] r.spec_block_at(
                x,
                y,
                z,
            ) == AIR by {
                assert(y / 16 < r.spec_sections().len()) by (nonlinear_arith)
                    requires
                        y < r.spec_sections().len() * 16,
                ;
                assert(y % 16 < 16);
                assert(block_index(x, (y % 16) as nat, z) < 4096) by (nonlinear_arith)
                    requires
                        x < 16,
                        (y % 16) < 16,
                        z < 16,
                ;
            }
        }
        r
    }

    /// Marks the chunk's data available.
    pub fn mark_loaded(&mut self)
        requires
            old(self).spec_status() == ChunkStatus::Loading,
        ensures
            final(self).spec_status() == ChunkStatus::Loaded,
            final(self).spec_pos() == old(self).spec_pos(),
            final(self).spec_sections() == old(self).spec_sections(),
            final(self).wf() == old(self).wf(),
    {
        self.status = ChunkStatus::Loaded;
    }

    /// Marks the chunk as leaving the map once untracked.
    pub fn mark_unloading(&mut self)
        requires
            old(self).spec_status() == ChunkStatus::Loaded,
        ensures
            final(self).spec_status() == ChunkStatus::Unloading,
            final(self).spec_pos() == old(self).spec_pos(),
            final(self).spec_sections() == old(self).spec_sections(),
            final(self).wf() == old(self).wf(),
    {
        self.status = ChunkStatus::Unloading;
    }

    /// The load status.
    pub fn status(&self) -> (r: ChunkStatus)
        ensures
            r == self.spec_status(),
    {
        self.status
    }

    /// The chunk coordinate.
    pub fn pos(&self) -> (r: ChunkPos)
        ensures
            r == self.spec_pos(),
    {
        self.pos
    }

    /// Number of sections.
    pub fn section_count(&self) -> (r: usize)
        ensures
            r == self.spec_sections().len(),
    {
        self.sections.len()
    }

    /// Borrows a section by vertical index.
    pub fn section(&self, s: usize) -> (r: &ChunkSection)
        requires
            self.wf(),
            s < self.spec_sections().len(),
        ensures
            *r == self.spec_sections()[s as int],
            r.wf(),
    {
        &self.sections[s]
    }

    /// Reads a block by column-local coordinates.
    pub fn get_block(&self, x: usize, y: usize, z: usize) -> (r: u16)
        requires
            self.wf(),
            x < SECTION_EDGE,
            z < SECTION_EDGE,
            y < self.spec_block_height(),
        ensures
            r == self.spec_block_at(x as nat, y as nat, z as nat),
    {
        proof {
            assert(y / 16 < self.sections@.len()) by (nonlinear_arith)
                requires
                    y < self.sections@.len() * 16,
            ;
        }
        let s = y / 16;
        let ly = y % 16;
        self.sections[s].get_block(x, ly, z)
    }

    /// Writes a block by column-local coordinates; sections above and
    /// below, biomes and light are untouched.
    pub fn set_block(&mut self, x: usize, y: usize, z: usize, value: u16)
        requires
            old(self).wf(),
            x < SECTION_EDGE,
            z < SECTION_EDGE,
            y < old(self).spec_block_height(),
            value < 0x8000,
        ensures
            final(self).wf(),
            final(self).spec_pos() == old(self).spec_pos(),
            final(self).spec_status() == old(self).spec_status(),
            final(self).spec_sections().len() == old(self).spec_sections().len(),
            final(self).spec_block_at(x as nat, y as nat, z as nat) == value,
            forall|x2: nat, y2: nat, z2: nat|
                x2 < 16 && y2 < old(self).spec_block_height() && z2 < 16 && !(x2 == x && y2 == y
                    && z2 == z) ==> #[trigger] final(self).spec_block_at(x2, y2, z2)
                    == old(self).spec_block_at(x2, y2, z2),
            forall|s: int|
                0 <= s < old(self).spec_sections().len()
                    ==> (#[trigger] final(self).spec_sections()[s]).spec_biomes()
                    == old(self).spec_sections()[s].spec_biomes(),
    {
        proof {
            assert(y / 16 < self.sections@.len()) by (nonlinear_arith)
                requires
                    y < self.sections@.len() * 16,
            ;
        }
        let s = y / 16;
        let ly = y % 16;
        self.sections[s].set_block(x, ly, z, value);
        proof {
            old(self).sections@[s as int].lemma_wf_lens();
            assert(self.sections@.len() == old(self).sections@.len());
            assert(forall|t: int|
                0 <= t < self.sections@.len() && t != s ==> self.sections@[t] == old(
                    self,
                ).sections@[t]);
            assert(self.sections@[s as int].spec_blocks() == old(
                self,
            ).sections@[s as int].spec_blocks().update(
                block_index(x as nat, ly as nat, z as nat) as int,
                value,
            ));
            assert(block_index(x as nat, ly as nat, z as nat) < 4096) by (nonlinear_arith)
                requires
                    x < 16,
                    ly < 16,
                    z < 16,
            ;
            assert forall|x2: nat, y2: nat, z2: nat|
                x2 < 16 && y2 < old(self).spec_block_height() && z2 < 16 && !(x2 == x && y2 == y
                    && z2 == z) implies #[trigger] self.spec_block_at(x2, y2, z2) == old(
                self,
            ).spec_block_at(x2, y2, z2) by {
                assert(y2 / 16 < self.sections@.len()) by (nonlinear_arith)
                    requires
                        y2 < self.sections@.len() * 16,
                ;
                old(self).sections@[(y2 / 16) as int].lemma_wf_lens();
                assert(block_index(x2, (y2 % 16) as nat, z2) < 4096) by (nonlinear_arith)
                    requires
                        x2 < 16,
                        (y2 % 16) < 16,
                        z2 < 16,
                ;
                if y2 / 16 == y / 16 {
                    // same section: a different cell of the same container
                    assert(block_index(x2, (y2 % 16) as nat, z2) != block_index(
                        x as nat,
                        (y % 16) as nat,
                        z as nat,
                    )) by (nonlinear_arith)
                        requires
                            x2 < 16,
                            z2 < 16,
                            (y2 % 16) < 16,
                            x < 16,
                            z < 16,
                            (y % 16) < 16,
                            y2 / 16 == y / 16,
                            !(x2 == x && y2 == y && z2 == z),
                            y2 == (y2 / 16) * 16 + (y2 % 16),
                            y == (y / 16) * 16 + (y % 16),
                    ;
                } else {
                }
            }
        }
    }

    /// One above the topmost non-air block of a column, scanning from
    /// `y` downward.
    pub open spec fn height_from(&self, x: nat, z: nat, y: nat) -> nat
        decreases y,
    {
        if y == 0 {
            0
        } else if self.spec_block_at(x, (y - 1) as nat, z) != AIR {
            y
        } else {
            self.height_from(x, z, (y - 1) as nat)
        }
    }

    /// One above the topmost non-air block of a column.
    pub open spec fn spec_height(&self, x: nat, z: nat) -> nat {
        self.height_from(x, z, self.spec_block_height())
    }

    /// Height-map query: one above the topmost non-air block of the
    /// column, or 0 for an all-air column. Computed against the current
    /// blocks, so it always reflects the latest write.
    pub fn height(&self, x: usize, z: usize) -> (r: usize)
        requires
            self.wf(),
            x < SECTION_EDGE,
            z < SECTION_EDGE,
        ensures
            r == self.spec_height(x as nat, z as nat),
    {
        let mut y: usize = self.sections.len() * 16;
        while y > 0
            invariant
                self.wf(),
                x < SECTION_EDGE,
                z < SECTION_EDGE,
                y <= self.spec_block_height(),
                self.spec_height(x as nat, z as nat) == self.height_from(x as nat, z as nat, y as nat),
            decreases y,
        {
            if self.get_block(x, y - 1, z) != AIR {
                return y;
            }
            y = y - 1;
        }
        0
    }

    /// The height map of the whole chunk, one entry per column, in
    /// row-major `z * 16 + x` order.
    pub fn height_map(&self) -> (r: Vec<usize>)
        requires
            self.wf(),
        ensures
            r@.len() == 256,
            forall|x: nat, z: nat|
                x < 16 && z < 16 ==> r@[(z * 16 + x) as int] == self.spec_height(x, z),
    {
        let mut r: Vec<usize> = Vec::new();
        let mut z: usize = 0;
        while z < 16
            invariant
                self.wf(),
                z <= 16,
                r@.len() == z * 16,
                forall|x2: nat, z2: nat|
                    x2 < 16 && z2 < z ==> r@[(z2 * 16 + x2) as int] == self.spec_height(x2, z2),
            decreases 16 - z,
        {
            let mut x: usize = 0;
            while x < 16
                invariant
                    self.wf(),
                    z < 16,
                    x <= 16,
                    r@.len() == z * 16 + x,
                    forall|x2: nat, z2: nat|
                        x2 < 16 && z2 < z ==> r@[(z2 * 16 + x2) as int] == self.spec_height(x2, z2),
                    forall|x2: nat|
                        x2 < x ==> r@[(z * 16 + x2) as int] == self.spec_height(x2, z as nat),
                decreases 16 - x,
            {
                r.push(self.height(x, z));
                x = x + 1;
            }
            z = z + 1;
        }
        r
    }
}

} // verus!
