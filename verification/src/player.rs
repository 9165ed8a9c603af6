//! Participants: the proto player join sequence and the per-tick view
//! pass of a joined player.
//!
//! A proto player is a connection that has not yet joined a world. The
//! join sequence assembles, into one buffer flushed as a single
//! contiguous write by the connection layer, the world-join declaration,
//! the server-brand notice and the view-position establishment, in that
//! order; the view position triggers the first view diff with no
//! previous region. A join fails atomically when the target chunk is not
//! yet `Loaded`: no player value exists and nothing is observable.

use vstd::prelude::*;
use crate::buffer::WriteBuffer;
use crate::buffer::i32_le;
use crate::view_diff::ChunkPos;
use crate::view_diff::Region;
use crate::view_diff::ViewShape;
use crate::view_diff::ViewDiff;
use crate::view_diff::region_wf;
use crate::view_diff::in_region;
use crate::view_diff::in_prev;
use crate::view_diff::compute_view_diff;
use crate::world::World;
use crate::chunk::Chunk;
use crate::chunk::ChunkStatus;
use crate::section::ChunkSection;
use crate::CoreError;

verus! {

/// Wire bytes of the world-join declaration packet.
pub open spec fn join_packet_bytes(entity_id: i32, hardcore: bool) -> Seq<u8> {
    seq![
        0x26u8,
        if hardcore {
            1u8
        } else {
            0u8
        },
    ] + i32_le(entity_id)
}

/// Wire bytes of the server-brand notice.
pub open spec fn brand_packet_bytes() -> Seq<u8> {
    seq![0x18u8, 4u8, 0x63u8, 0x6fu8, 0x72u8, 0x65u8]
}

/// Wire bytes of the view-position establishment packet.
pub open spec fn view_position_bytes(cx: i32, cz: i32) -> Seq<u8> {
    seq![0x48u8] + i32_le(cx) + i32_le(cz)
}

/// Wire bytes of one chunk unload notice.
pub open spec fn unload_packet_bytes(p: ChunkPos) -> Seq<u8> {
    seq![0x1au8] + i32_le(p.x) + i32_le(p.z)
}

/// Unload notices for a whole list, in list order.
pub open spec fn unload_notices_bytes(s: Seq<ChunkPos>) -> Seq<u8>
    decreases s.len(),
{
    if s.len() == 0 {
        Seq::empty()
    } else {
        unload_notices_bytes(s.drop_last()) + unload_packet_bytes(s.last())
    }
}

/// Wire bytes of the sections of a chunk, lowest first.
pub open spec fn sections_bytes(ss: Seq<ChunkSection>) -> Seq<u8>
    decreases ss.len(),
{
    if ss.len() == 0 {
        Seq::empty()
    } else {
        sections_bytes(ss.drop_last()) + ss.last().spec_wire()
    }
}

/// Wire bytes of a chunk data packet: tag, coordinate, sections.
pub open spec fn chunk_packet_bytes(c: Chunk) -> Seq<u8> {
    seq![0x22u8] + i32_le(c.spec_pos().x) + i32_le(c.spec_pos().z) + sections_bytes(
        c.spec_sections(),
    )
}

/// The chunk coordinate holding a block coordinate: floor division by
/// the section edge.
pub open spec fn chunk_coord_of(block: int) -> int {
    block / 16
}

/// The chunk position holding a block position.
pub open spec fn chunk_pos_of_block(bx: i32, bz: i32) -> ChunkPos {
    ChunkPos { x: chunk_coord_of(bx as int) as i32, z: chunk_coord_of(bz as int) as i32 }
}

/// Floor division of a block coordinate by the section edge.
pub fn floor_div_16(v: i32) -> (r: i32)
    ensures
        r as int == chunk_coord_of(v as int),
        -0x8000000 <= r <= 0x8000000,
{
    let w: i64 = v as i64;
    if w >= 0 {
        (w / 16) as i32
    } else {
        let m: i64 = (-w + 15) / 16;
        proof {
            vstd::arithmetic::div_mod::lemma_fundamental_div_mod(-w + 15, 16);
            vstd::arithmetic::div_mod::lemma_fundamental_div_mod_converse(
                w as int,
                16,
                -m as int,
                (w + 16 * m) as int,
            );
        }
        (-m) as i32
    }
}

/// A connection that has not yet joined a world.
pub struct ProtoPlayer {
    pub entity_id: i32,
    pub hardcore: bool,
    pub write_buffer: WriteBuffer,
}

impl ProtoPlayer {
    /// A fresh proto player with an empty outbound buffer.
    pub fn new(entity_id: i32) -> (r: ProtoPlayer)
        ensures
            r.entity_id == entity_id,
            !r.hardcore,
            r.write_buffer@ == Seq::<u8>::empty(),
    {
        ProtoPlayer { entity_id, hardcore: false, write_buffer: WriteBuffer::new() }
    }

    /// Runs the join sequence. On success the returned player's pending
    /// buffer holds, after whatever the proto buffer already held, the
    /// join declaration, the brand notice and the view position as one
    /// contiguous run in that order, before any other packet; the first
    /// view diff (no previous region) yields the whole initial region to
    /// load and nothing to unload. The join fails atomically with
    /// `ChunkUnavailable` exactly when the chunk under the position is
    /// not `Loaded`: no player state exists then.
    pub fn create_player(
        self,
        world: &World,
        block_x: i32,
        block_z: i32,
        radius: i32,
        shape: ViewShape,
    ) -> (r: Result<Player, CoreError>)
        requires
            world.wf(),
            0 <= radius <= 0x8000,
        ensures
            r is Ok <==> (world.has_chunk(chunk_pos_of_block(block_x, block_z))
                && world.status_at(chunk_pos_of_block(block_x, block_z)) == ChunkStatus::Loaded),
            r is Err ==> r == Err::<Player, CoreError>(CoreError::ChunkUnavailable),
            r is Ok ==> (r->Ok_0).wf() && (r->Ok_0).spec_entity_id() == self.entity_id && (
            r->Ok_0).spec_hardcore() == self.hardcore && (r->Ok_0).spec_view() == (Region {
                center: chunk_pos_of_block(block_x, block_z),
                radius,
                shape,
            }) && (r->Ok_0).spec_pending() == self.write_buffer@ + join_packet_bytes(
                self.entity_id,
                self.hardcore,
            ) + brand_packet_bytes() + view_position_bytes(
                chunk_pos_of_block(block_x, block_z).x,
                chunk_pos_of_block(block_x, block_z).z,
            ),
            r is Ok ==> (forall|p: ChunkPos|
                (r->Ok_0).spec_initial_to_load().contains(p) <==> in_region(
                    (r->Ok_0).spec_view(),
                    p,
                )) && (r->Ok_0).spec_initial_to_load().no_duplicates(),
    {
        let cx = floor_div_16(block_x);
        let cz = floor_div_16(block_z);
        let center = ChunkPos { x: cx, z: cz };
        let loaded = match world.status_of(center) {
            Some(ChunkStatus::Loaded) => true,
            _ => false,
        };
        if !loaded {
            return Err(CoreError::ChunkUnavailable);
        }
        let mut buf = self.write_buffer;
        // world-join declaration
        buf.write_u8(0x26);
        buf.write_u8(
            if self.hardcore {
                1
            } else {
                0
            },
        );
        buf.write_i32_le(self.entity_id);
        // server-brand notice
        buf.write_u8(0x18);
        buf.write_u8(4);
        buf.write_u8(0x63);
        buf.write_u8(0x6f);
        buf.write_u8(0x72);
        buf.write_u8(0x65);
        // view-position establishment
        buf.write_u8(0x48);
        buf.write_i32_le(cx);
        buf.write_i32_le(cz);
        let region = Region { center, radius, shape };
        let none_prev: Option<Region> = None;
        let diff = compute_view_diff(&none_prev, &region);
        proof {
            assert(buf@ =~= self.write_buffer@ + join_packet_bytes(self.entity_id, self.hardcore)
                + brand_packet_bytes() + view_position_bytes(center.x, center.z));
        }
        Ok(
            Player {
                entity_id: self.entity_id,
                hardcore: self.hardcore,
                view: region,
                pending: buf,
                initial_to_load: diff.to_load,
            },
        )
    }
}

/// A participant that has completed the join sequence.
pub struct Player {
    pub entity_id: i32,
    pub hardcore: bool,
    view: Region,
    pending: WriteBuffer,
    initial_to_load: Vec<ChunkPos>,
}

impl Player {
    /// The joined participant's entity id.
    pub closed spec fn spec_entity_id(&self) -> i32 {
        self.entity_id
    }

    /// Whether the participant joined in hardcore mode.
    pub closed spec fn spec_hardcore(&self) -> bool {
        self.hardcore
    }
}

impl Player {
    /// The tracked observation region: its members are exactly the
    /// chunk coordinates this participant is tracking.
    pub closed spec fn spec_view(&self) -> Region {
        self.view
    }

    /// Outbound bytes not yet flushed by the connection layer.
    pub closed spec fn spec_pending(&self) -> Seq<u8> {
        self.pending@
    }

    /// The chunks the first view diff asked to load.
    pub closed spec fn spec_initial_to_load(&self) -> Seq<ChunkPos> {
        self.initial_to_load@
    }

    pub open spec fn wf(&self) -> bool {
        region_wf(self.spec_view())
    }

    /// The tracked region.
    pub fn view(&self) -> (r: Region)
        ensures
            r == self.spec_view(),
    {
        self.view
    }

    /// Borrows the chunks the first view diff asked to load.
    pub fn initial_chunks(&self) -> (r: &Vec<ChunkPos>)
        ensures
            r@ == self.spec_initial_to_load(),
    {
        &self.initial_to_load
    }

    /// Borrows the outbound bytes for the connection layer to flush.
    pub fn pending_bytes(&self) -> (r: &Vec<u8>)
        ensures
            r@ == self.spec_pending(),
    {
        self.pending.get_written()
    }

    /// Per-tick view pass: computes the minimal diff from the tracked
    /// region to `new_view`, records `new_view` as tracked, and queues
    /// one unload notice per chunk that left the view, in diff order.
    /// Data packets for entered chunks are queued separately by
    /// `send_chunk`, so nothing is ever unloaded before it was loaded
    /// within one pass (the outputs are disjoint).
    #[verifier::loop_isolation(false)]
    pub fn update_view(&mut self, new_view: Region) -> (d: ViewDiff)
        requires
            old(self).wf(),
            region_wf(new_view),
        ensures
            final(self).wf(),
            final(self).spec_entity_id() == old(self).spec_entity_id(),
            final(self).spec_hardcore() == old(self).spec_hardcore(),
            final(self).spec_view() == new_view,
            forall|p: ChunkPos|
                d.to_load@.contains(p) <==> (in_region(new_view, p) && !in_region(
                    old(self).spec_view(),
                    p,
                )),
            forall|p: ChunkPos|
                #[trigger] d.to_unload@.contains(p) == (in_region(old(self).spec_view(), p)
                    && !in_region(new_view, p)),
            d.to_load@.no_duplicates(),
            d.to_unload@.no_duplicates(),
            final(self).spec_pending() == old(self).spec_pending() + unload_notices_bytes(
                d.to_unload@,
            ),
    {
        let prev: Option<Region> = Some(self.view);
        let d = compute_view_diff(&prev, &new_view);
        proof {
            assert forall|p: ChunkPos|
                d.to_load@.contains(p) <==> (in_region(new_view, p) && !in_region(
                    old(self).spec_view(),
                    p,
                )) by {
                assert(d.to_load@.contains(p) <==> (in_region(new_view, p) && !in_prev(prev, p)));
            }
        }
        self.view = new_view;
        let mut i: usize = 0;
        proof {
            assert(self.pending@ =~= old(self).spec_pending() + unload_notices_bytes(
                d.to_unload@.take(0),
            ));
        }
        while i < d.to_unload.len()
            invariant
                i <= d.to_unload@.len(),
                region_wf(new_view),
                self.pending@ == old(self).spec_pending() + unload_notices_bytes(
                    d.to_unload@.take(i as int),
                ),
                self.view == new_view,
                self.entity_id == old(self).entity_id,
                self.hardcore == old(self).hardcore,
                self.initial_to_load@ == old(self).initial_to_load@,
            decreases d.to_unload@.len() - i,
        {
            let p = d.to_unload[i];
            self.pending.write_u8(0x1a);
            self.pending.write_i32_le(p.x);
            self.pending.write_i32_le(p.z);
            proof {
                assert(d.to_unload@.take(i + 1).drop_last() =~= d.to_unload@.take(i as int));
                assert(d.to_unload@.take(i + 1).last() == d.to_unload@[i as int]);
                assert(self.pending@ =~= old(self).spec_pending() + unload_notices_bytes(
                    d.to_unload@.take(i + 1),
                ));
            }
            i = i + 1;
        }
        proof {
            assert(d.to_unload@.take(d.to_unload@.len() as int) =~= d.to_unload@);
            assert forall|p: ChunkPos|
                #[trigger] d.to_unload@.contains(p) == (in_region(old(self).spec_view(), p)
                    && !in_region(new_view, p)) by {
                assert(d.to_unload@.contains(p) <==> (in_prev(prev, p) && !in_region(new_view, p)));
            }
        }
        d
    }

    /// Serializes one chunk's data packet into the pending buffer.
    /// Succeeds exactly when the chunk is `Loaded`; a chunk still
    /// `Loading` (or absent, or on its way out) defers with
    /// `ChunkUnavailable` and the caller retries next tick — sections of
    /// a not-yet-loaded chunk are never serialized.
    #[verifier::loop_isolation(false)]
    pub fn send_chunk(&mut self, world: &World, p: ChunkPos) -> (r: Result<(), CoreError>)
        requires
            old(self).wf(),
            world.wf(),
        ensures
            final(self).wf(),
            final(self).spec_entity_id() == old(self).spec_entity_id(),
            final(self).spec_hardcore() == old(self).spec_hardcore(),
            final(self).spec_view() == old(self).spec_view(),
            r is Ok <==> (world.has_chunk(p) && world.status_at(p) == ChunkStatus::Loaded),
            r is Ok ==> final(self).spec_pending() == old(self).spec_pending()
                + chunk_packet_bytes(world.chunk_at(p)),
            r is Err ==> r == Err::<(), CoreError>(CoreError::ChunkUnavailable)
                && final(self).spec_pending() == old(self).spec_pending(),
    {
        let c = match world.get_chunk(p) {
            Some(c) => c,
            None => {
                return Err(CoreError::ChunkUnavailable);
            },
        };
        let loaded = match c.status() {
            ChunkStatus::Loaded => true,
            _ => false,
        };
        if !loaded {
            return Err(CoreError::ChunkUnavailable);
        }
        let cp = c.pos();
        self.pending.write_u8(0x22);
        self.pending.write_i32_le(cp.x);
        self.pending.write_i32_le(cp.z);
        let ghost head = old(self).spec_pending() + seq![0x22u8] + i32_le(cp.x) + i32_le(cp.z);
        proof {
            assert(self.pending@ =~= head);
        }
        let n = c.section_count();
        let mut i: usize = 0;
        proof {
            assert(self.pending@ =~= head + sections_bytes(c.spec_sections().take(0)));
        }
        while i < n
            invariant
                world.wf(),
                world.has_chunk(p),
                world.status_at(p) == ChunkStatus::Loaded,
                *c == world.chunk_at(p),
                c.wf(),
                head == old(self).spec_pending() + seq![0x22u8] + i32_le(
                    world.chunk_at(p).spec_pos().x,
                ) + i32_le(world.chunk_at(p).spec_pos().z),
                n == c.spec_sections().len(),
                i <= n,
                self.pending@ == head + sections_bytes(c.spec_sections().take(i as int)),
                self.view == old(self).view,
                self.entity_id == old(self).entity_id,
                self.hardcore == old(self).hardcore,
            decreases n - i,
        {
            let sec = c.section(i);
            sec.serialize_for_wire(&mut self.pending);
            proof {
                assert(c.spec_sections().take(i + 1).drop_last() =~= c.spec_sections().take(
                    i as int,
                ));
                assert(c.spec_sections().take(i + 1).last() == c.spec_sections()[i as int]);
                assert(self.pending@ =~= head + sections_bytes(c.spec_sections().take(i + 1)));
            }
            i = i + 1;
        }
        proof {
            assert(c.spec_sections().take(c.spec_sections().len() as int) =~= c.spec_sections());
            assert(self.pending@ =~= old(self).spec_pending() + chunk_packet_bytes(
                world.chunk_at(p),
            ));
        }
        Ok(())
    }

    /// Hands the pending bytes out for flushing and empties the buffer.
    #[verifier::loop_isolation(false)]
    pub fn take_pending(&mut self) -> (r: Vec<u8>)
        ensures
            r@ == old(self).spec_pending(),
            final(self).spec_pending() == Seq::<u8>::empty(),
            final(self).spec_view() == old(self).spec_view(),
            final(self).spec_entity_id() == old(self).spec_entity_id(),
            final(self).wf() == old(self).wf(),
    {
        let mut out: Vec<u8> = Vec::new();
        let written = self.pending.get_written();
        let mut i: usize = 0;
        while i < written.len()
            invariant
                i <= written@.len(),
                written@ == self.pending@,
                out@ == self.pending@.take(i as int),
                self == old(self),
            decreases written@.len() - i,
        {
            out.push(written[i]);
            proof {
                assert(out@ =~= self.pending@.take(i + 1));
            }
            i = i + 1;
        }
        self.pending = WriteBuffer::new();
        proof {
            assert(out@ =~= old(self).spec_pending());
        }
        out
    }
}


/// Bytes of the chunk data packets one view pass appends: one packet
/// per entered coordinate already `Loaded`, in diff order; entered
/// chunks absent or still loading contribute nothing yet.
pub open spec fn load_packets_bytes(w: World, s: Seq<ChunkPos>) -> Seq<u8>
    decreases s.len(),
{
    if s.len() == 0 {
        Seq::empty()
    } else {
        load_packets_bytes(w, s.drop_last()) + (if w.has_chunk(s.last()) && w.status_at(s.last())
            == ChunkStatus::Loaded {
            chunk_packet_bytes(w.chunk_at(s.last()))
        } else {
            Seq::empty()
        })
    }
}

/// One full per-tick view pass for a participant: records the new
/// region, queues one unload notice per chunk that left the view, asks
/// the world to start loading entered chunks that are absent, and
/// serializes the entered chunks that are already loaded. Entered
/// chunks still loading send nothing yet: a later pass retries them, so
/// a not-yet-loaded chunk is never serialized and the pass never blocks
/// on the external chunk source.
#[verifier::loop_isolation(false)]
pub fn run_view_pass(world: &mut World, player: &mut Player, new_view: Region) -> (d: ViewDiff)
    requires
        old(world).wf(),
        old(player).wf(),
        region_wf(new_view),
    ensures
        final(world).wf(),
        final(player).wf(),
        final(world).spec_section_count() == old(world).spec_section_count(),
        final(player).spec_view() == new_view,
        final(player).spec_entity_id() == old(player).spec_entity_id(),
        forall|p: ChunkPos|
            d.to_load@.contains(p) <==> (in_region(new_view, p) && !in_region(
                old(player).spec_view(),
                p,
            )),
        forall|p: ChunkPos|
            #[trigger] d.to_unload@.contains(p) == (in_region(old(player).spec_view(), p)
                && !in_region(new_view, p)),
        forall|p: ChunkPos| d.to_load@.contains(p) ==> final(world).has_chunk(p),
        forall|p: ChunkPos|
            old(world).has_chunk(p) ==> final(world).has_chunk(p) && final(world).chunk_at(p)
                == old(world).chunk_at(p),
        final(player).spec_pending() == old(player).spec_pending() + unload_notices_bytes(
            d.to_unload@,
        ) + load_packets_bytes(*final(world), d.to_load@),
{
    let d = player.update_view(new_view);
    world.request_chunks(&d.to_load);
    let ghost base = player.pending@;
    let mut i: usize = 0;
    proof {
        assert(player.pending@ =~= base + load_packets_bytes(*world, d.to_load@.take(0)));
    }
    while i < d.to_load.len()
        invariant
            world.wf(),
            player.wf(),
            i <= d.to_load@.len(),
            player.pending@ == base + load_packets_bytes(*world, d.to_load@.take(i as int)),
            player.view == new_view,
            player.entity_id == old(player).entity_id,
            player.hardcore == old(player).hardcore,
        decreases d.to_load@.len() - i,
    {
        let p = d.to_load[i];
        let r = player.send_chunk(world, p);
        proof {
            assert(d.to_load@.take(i + 1).drop_last() =~= d.to_load@.take(i as int));
            assert(d.to_load@.take(i + 1).last() == d.to_load@[i as int]);
            assert(player.pending@ =~= base + load_packets_bytes(*world, d.to_load@.take(i + 1)));
        }
        i = i + 1;
    }
    proof {
        assert(d.to_load@.take(d.to_load@.len() as int) =~= d.to_load@);
    }
    d
}

} // verus!
