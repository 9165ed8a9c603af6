//! Chunk sections: fixed-size cubic volumes of voxel state.
//!
//! A section bundles one block container (16x16x16), one biome container
//! at coarser granularity (4x4x4), and raw light data. Local coordinates
//! translate to container indices by a fixed row-major formula.
//!
//! The container width policy (minimum and threshold widths for the
//! indirect encoding, full registry width for the direct one) is pinned
//! here per the target wire format.

use vstd::prelude::*;
use vstd::arithmetic::power2::pow2;
use crate::palette::PalettedContainer;

verus! {

/// Edge length of a section, in blocks.
pub const SECTION_EDGE: usize = 16;

/// Blocks per section.
pub const SECTION_VOLUME: usize = 4096;

/// Biome cells per section (4x4x4 granularity).
pub const BIOME_VOLUME: usize = 64;

/// Bytes of half-byte light data per section.
pub const LIGHT_BYTES: usize = 2048;

/// The block value that counts as empty for height queries.
pub const AIR: u16 = 0;

/// Width policy for block containers.
pub const BLOCK_MIN_BITS: usize = 4;

pub const BLOCK_THRESHOLD_BITS: usize = 8;

pub const BLOCK_DIRECT_BITS: usize = 15;

/// Width policy for biome containers.
pub const BIOME_MIN_BITS: usize = 1;

pub const BIOME_THRESHOLD_BITS: usize = 3;

pub const BIOME_DIRECT_BITS: usize = 6;

/// Row-major index of a local block coordinate.
pub open spec fn block_index(x: nat, y: nat, z: nat) -> nat {
    y * 256 + z * 16 + x
}

/// Row-major index of a local biome cell coordinate.
pub open spec fn biome_index(x: nat, y: nat, z: nat) -> nat {
    y * 16 + z * 4 + x
}

/// A 16x16x16 volume of blocks with biomes and light.
pub struct ChunkSection {
    blocks: PalettedContainer,
    biomes: PalettedContainer,
    sky_light: Vec<u8>,
    block_light: Vec<u8>,
}

impl ChunkSection {
    /// The block entries, in row-major index order.
    pub closed spec fn spec_blocks(&self) -> Seq<u16> {
        self.blocks@
    }

    /// The biome entries, in row-major index order.
    pub closed spec fn spec_biomes(&self) -> Seq<u16> {
        self.biomes@
    }

    pub closed spec fn spec_sky_light(&self) -> Seq<u8> {
        self.sky_light@
    }

    pub closed spec fn spec_block_light(&self) -> Seq<u8> {
        self.block_light@
    }

    /// The block at a local coordinate.
    pub open spec fn spec_block_at(&self, x: nat, y: nat, z: nat) -> u16 {
        self.spec_blocks()[block_index(x, y, z) as int]
    }

    /// The biome of a local cell.
    pub open spec fn spec_biome_at(&self, x: nat, y: nat, z: nat) -> u16 {
        self.spec_biomes()[biome_index(x, y, z) as int]
    }

    /// Both containers carry the pinned width policy and full volumes.
    pub closed spec fn wf(&self) -> bool {
        &&& self.blocks.wf()
        &&& self.blocks@.len() == SECTION_VOLUME
        &&& self.biomes@.len() == BIOME_VOLUME
        &&& self.blocks.spec_volume() == SECTION_VOLUME
        &&& self.blocks.spec_min_bits() == BLOCK_MIN_BITS
        &&& self.blocks.spec_threshold_bits() == BLOCK_THRESHOLD_BITS
        &&& self.blocks.spec_direct_bits() == BLOCK_DIRECT_BITS
        &&& self.biomes.wf()
        &&& self.biomes.spec_volume() == BIOME_VOLUME
        &&& self.biomes.spec_min_bits() == BIOME_MIN_BITS
        &&& self.biomes.spec_threshold_bits() == BIOME_THRESHOLD_BITS
        &&& self.biomes.spec_direct_bits() == BIOME_DIRECT_BITS
        &&& self.sky_light@.len() == LIGHT_BYTES
        &&& self.block_light@.len() == LIGHT_BYTES
    }

    /// The containers of a well-formed section hold their full volumes.
    pub proof fn lemma_wf_lens(&self)
        requires
            self.wf(),
        ensures
            self.spec_blocks().len() == SECTION_VOLUME,
            self.spec_biomes().len() == BIOME_VOLUME,
            self.spec_sky_light().len() == LIGHT_BYTES,
            self.spec_block_light().len() == LIGHT_BYTES,
    {
    }

    /// A section holding one block value, one biome and dark light.
    pub fn new(initial_block: u16, initial_biome: u16) -> (r: ChunkSection)
        requires
            initial_block < 0x8000,
            initial_biome < 0x40,
        ensures
            r.wf(),
            r.spec_blocks().len() == SECTION_VOLUME,
            forall|i: int| 0 <= i < SECTION_VOLUME ==> r.spec_blocks()[i] == initial_block,
            r.spec_biomes().len() == BIOME_VOLUME,
            forall|i: int| 0 <= i < BIOME_VOLUME ==> r.spec_biomes()[i] == initial_biome,
            forall|i: int| 0 <= i < LIGHT_BYTES ==> r.spec_sky_light()[i] == 0,
            forall|i: int| 0 <= i < LIGHT_BYTES ==> r.spec_block_light()[i] == 0,
    {
        proof {
            vstd::arithmetic::power2::lemma2_to64();
        }
        let blocks = PalettedContainer::new(
            SECTION_VOLUME,
            BLOCK_MIN_BITS,
            BLOCK_THRESHOLD_BITS,
            BLOCK_DIRECT_BITS,
            initial_block,
        );
        let biomes = PalettedContainer::new(
            BIOME_VOLUME,
            BIOME_MIN_BITS,
            BIOME_THRESHOLD_BITS,
            BIOME_DIRECT_BITS,
            initial_biome,
        );
        let sky_light = crate::bits::zero_bytes(LIGHT_BYTES);
        let block_light = crate::bits::zero_bytes(LIGHT_BYTES);
        ChunkSection { blocks, biomes, sky_light, block_light }
    }

    /// Reads the block at a local coordinate.
    pub fn get_block(&self, x: usize, y: usize, z: usize) -> (r: u16)
        requires
            self.wf(),
            x < SECTION_EDGE,
            y < SECTION_EDGE,
            z < SECTION_EDGE,
        ensures
            r == self.spec_block_at(x as nat, y as nat, z as nat),
    {
        let index = y * 256 + z * 16 + x;
        match self.blocks.get(index) {
            Ok(v) => v,
            Err(_) => {
                proof {
                    assert(false);
                }
                0
            },
        }
    }

    /// Writes the block at a local coordinate, leaving biomes and light
    /// untouched.
    pub fn set_block(&mut self, x: usize, y: usize, z: usize, value: u16)
        requires
            old(self).wf(),
            x < SECTION_EDGE,
            y < SECTION_EDGE,
            z < SECTION_EDGE,
            value < 0x8000,
        ensures
            final(self).wf(),
            final(self).spec_blocks() == old(self).spec_blocks().update(
                block_index(x as nat, y as nat, z as nat) as int,
                value,
            ),
            final(self).spec_biomes() == old(self).spec_biomes(),
            final(self).spec_sky_light() == old(self).spec_sky_light(),
            final(self).spec_block_light() == old(self).spec_block_light(),
    {
        proof {
            vstd::arithmetic::power2::lemma2_to64();
        }
        let index = y * 256 + z * 16 + x;
        let r = self.blocks.set(index, value);
        proof {
            assert(r is Ok);
        }
    }

    /// Reads the biome of a local cell.
    pub fn get_biome(&self, x: usize, y: usize, z: usize) -> (r: u16)
        requires
            self.wf(),
            x < 4,
            y < 4,
            z < 4,
        ensures
            r == self.spec_biome_at(x as nat, y as nat, z as nat),
    {
        let index = y * 16 + z * 4 + x;
        match self.biomes.get(index) {
            Ok(v) => v,
            Err(_) => {
                proof {
                    assert(false);
                }
                0
            },
        }
    }

    /// Writes the biome of a local cell.
    pub fn set_biome(&mut self, x: usize, y: usize, z: usize, value: u16)
        requires
            old(self).wf(),
            x < 4,
            y < 4,
            z < 4,
            value < 0x40,
        ensures
            final(self).wf(),
            final(self).spec_biomes() == old(self).spec_biomes().update(
                biome_index(x as nat, y as nat, z as nat) as int,
                value,
            ),
            final(self).spec_blocks() == old(self).spec_blocks(),
            final(self).spec_sky_light() == old(self).spec_sky_light(),
            final(self).spec_block_light() == old(self).spec_block_light(),
    {
        proof {
            vstd::arithmetic::power2::lemma2_to64();
        }
        let index = y * 16 + z * 4 + x;
        let r = self.biomes.set(index, value);
        proof {
            assert(r is Ok);
        }
    }

    /// The strategy of the block container, for inspection.
    pub fn block_strategy(&self) -> (r: crate::palette::Strategy)
        ensures
            r == self.spec_block_strategy(),
    {
        self.blocks.strategy()
    }

    /// The strategy the block container currently uses.
    pub closed spec fn spec_block_strategy(&self) -> crate::palette::Strategy {
        self.blocks.spec_strategy()
    }

    /// Wire encoding of the section: block container, biome container,
    /// then the raw light arrays.
    pub closed spec fn spec_wire(&self) -> Seq<u8> {
        self.blocks.spec_wire() + self.biomes.spec_wire() + self.sky_light@ + self.block_light@
    }

    /// Writes the wire encoding, appending to the sink.
    pub fn serialize_for_wire(&self, out: &mut crate::buffer::WriteBuffer)
        requires
            self.wf(),
        ensures
            final(out)@ == old(out)@ + self.spec_wire(),
    {
        self.blocks.serialize_for_wire(out);
        self.biomes.serialize_for_wire(out);
        out.write_all(&self.sky_light);
        out.write_all(&self.block_light);
        proof {
            assert(out@ =~= old(out)@ + self.spec_wire());
        }
    }

    /// All block entries, in index order.
    pub fn block_values(&self) -> (r: Vec<u16>)
        requires
            self.wf(),
        ensures
            r@ == self.spec_blocks(),
    {
        self.blocks.values()
    }
}

} // verus!
