//! The authoritative chunk map of a world.
//!
//! Chunks are owned exclusively by the map and looked up by coordinate;
//! participants reference chunks by coordinate only, never by holding
//! one. An absent coordinate is an `Unloaded` chunk; a present chunk is
//! `Loading`, `Loaded` or `Unloading`. The external chunk source fills a
//! `Loading` chunk in or fails it, so no chunk is left `Loading` forever.

use vstd::prelude::*;
use crate::chunk::Chunk;
use crate::chunk::ChunkStatus;
use crate::view_diff::ChunkPos;

verus! {

/// Chunk positions in the sequence are pairwise distinct.
pub open spec fn positions_unique(cs: Seq<Chunk>) -> bool {
    forall|i: int, j: int|
        0 <= i < cs.len() && 0 <= j < cs.len() && i != j ==> (#[trigger] cs[i]).spec_pos() != (
        #[trigger] cs[j]).spec_pos()
}

/// The chunk map of one world.
pub struct World {
    chunks: Vec<Chunk>,
    section_count: usize,
}

impl World {
    /// The chunks, in insertion-dependent order.
    pub closed spec fn spec_chunks(&self) -> Seq<Chunk> {
        self.chunks@
    }

    /// Sections per chunk in this world.
    pub closed spec fn spec_section_count(&self) -> nat {
        self.section_count as nat
    }

    /// Whether the map holds a chunk at `p`.
    pub open spec fn has_chunk(&self, p: ChunkPos) -> bool {
        exists|i: int|
            0 <= i < self.spec_chunks().len() && (#[trigger] self.spec_chunks()[i]).spec_pos() == p
    }

    /// The chunk at `p`; meaningful only when `has_chunk(p)`.
    pub open spec fn chunk_at(&self, p: ChunkPos) -> Chunk {
        self.spec_chunks()[choose|i: int|
            0 <= i < self.spec_chunks().len() && (#[trigger] self.spec_chunks()[i]).spec_pos()
                == p]
    }

    /// The status at `p`; meaningful only when `has_chunk(p)`.
    pub open spec fn status_at(&self, p: ChunkPos) -> ChunkStatus {
        self.chunk_at(p).spec_status()
    }

    pub closed spec fn wf(&self) -> bool {
        &&& 1 <= self.section_count <= 24
        &&& positions_unique(self.chunks@)
        &&& forall|i: int| 0 <= i < self.chunks@.len() ==> (#[trigger] self.chunks@[i]).wf()
        &&& forall|i: int|
            0 <= i < self.chunks@.len() ==> (#[trigger] self.chunks@[i]).spec_status()
                != ChunkStatus::Unloaded
        &&& forall|i: int|
            0 <= i < self.chunks@.len() ==> (#[trigger] self.chunks@[i]).spec_sections().len()
                == self.section_count
    }

    /// Any indexed chunk is the one `chunk_at` names for its position.
    proof fn lemma_at_index(&self, i: int)
        requires
            positions_unique(self.spec_chunks()),
            0 <= i < self.spec_chunks().len(),
        ensures
            self.has_chunk(self.spec_chunks()[i].spec_pos()),
            self.chunk_at(self.spec_chunks()[i].spec_pos()) == self.spec_chunks()[i],
    {
        let p = self.spec_chunks()[i].spec_pos();
        assert(self.has_chunk(p));
        let j = choose|j: int|
            0 <= j < self.spec_chunks().len() && (#[trigger] self.spec_chunks()[j]).spec_pos()
                == p;
        assert(j == i);
    }

    /// An empty world map.
    pub fn new(section_count: usize) -> (r: World)
        requires
            1 <= section_count <= 24,
        ensures
            r.wf(),
            r.spec_section_count() == section_count,
            forall|p: ChunkPos| !r.has_chunk(p),
    {
        World { chunks: Vec::new(), section_count }
    }

    /// Index of the chunk at `p`, if present.
    fn find(&self, p: ChunkPos) -> (r: Option<usize>)
        requires
            self.wf(),
        ensures
            match r {
                Some(i) => i < self.spec_chunks().len() && self.spec_chunks()[i as int].spec_pos()
                    == p && self.has_chunk(p) && self.chunk_at(p) == self.spec_chunks()[i as int],
                None => !self.has_chunk(p),
            },
    {
        let mut i: usize = 0;
        while i < self.chunks.len()
            invariant
                self.wf(),
                i <= self.chunks@.len(),
                forall|k: int| 0 <= k < i ==> (#[trigger] self.chunks@[k]).spec_pos() != p,
            decreases self.chunks@.len() - i,
        {
            let cp = self.chunks[i].pos();
            if cp.x == p.x && cp.z == p.z {
                proof {
                    self.lemma_at_index(i as int);
                }
                return Some(i);
            }
            i = i + 1;
        }
        None
    }

    /// The status of the chunk at `p`, or `None` while it is unloaded
    /// (absent from the map).
    pub fn status_of(&self, p: ChunkPos) -> (r: Option<ChunkStatus>)
        requires
            self.wf(),
        ensures
            match r {
                Some(s) => self.has_chunk(p) && s == self.status_at(p),
                None => !self.has_chunk(p),
            },
    {
        match self.find(p) {
            Some(i) => Some(self.chunks[i].status()),
            None => None,
        }
    }

    /// Borrows the chunk at `p`.
    pub fn get_chunk(&self, p: ChunkPos) -> (r: Option<&Chunk>)
        requires
            self.wf(),
        ensures
            match r {
                Some(c) => self.has_chunk(p) && *c == self.chunk_at(p) && c.wf()
                    && c.spec_sections().len() == self.spec_section_count(),
                None => !self.has_chunk(p),
            },
    {
        match self.find(p) {
            Some(i) => Some(&self.chunks[i]),
            None => None,
        }
    }

    /// Everything outside `p` is as it was.
    pub open spec fn others_unchanged(&self, other: &World, p: ChunkPos) -> bool {
        forall|q: ChunkPos|
            q != p ==> (#[trigger] self.has_chunk(q)) == other.has_chunk(q) && (self.has_chunk(q)
                ==> self.chunk_at(q) == other.chunk_at(q))
    }

    /// Starts loading an absent chunk: it enters the map all-air in the
    /// `Loading` state, to be filled in by the external chunk source.
    pub fn begin_loading(&mut self, p: ChunkPos) -> (r: Result<(), crate::CoreError>)
        requires
            old(self).wf(),
        ensures
            final(self).wf(),
            final(self).spec_section_count() == old(self).spec_section_count(),
            r is Ok <==> !old(self).has_chunk(p),
            r is Err ==> *final(self) == *old(self) && r == Err::<(), crate::CoreError>(
                crate::CoreError::ChunkUnavailable,
            ),
            r is Ok ==> final(self).has_chunk(p) && final(self).status_at(p)
                == ChunkStatus::Loading && final(self).others_unchanged(old(self), p),
    {
        match self.find(p) {
            Some(_) => Err(crate::CoreError::ChunkUnavailable),
            None => {
                let c = Chunk::new(p, self.section_count, 0);
                let ghost pre = self.chunks@;
                self.chunks.push(c);
                proof {
                    assert forall|i: int, j: int|
                        0 <= i < self.chunks@.len() && 0 <= j < self.chunks@.len() && i
                            != j implies (#[trigger] self.chunks@[i]).spec_pos() != (
                    #[trigger] self.chunks@[j]).spec_pos() by {
                        if i < pre.len() && j < pre.len() {
                        } else if i < pre.len() {
                            if pre[i].spec_pos() == p {
                                assert(old(self).spec_chunks()[i].spec_pos() == p);
                                assert(old(self).has_chunk(p));
                            }
                        } else if j < pre.len() {
                            if pre[j].spec_pos() == p {
                                assert(old(self).spec_chunks()[j].spec_pos() == p);
                                assert(old(self).has_chunk(p));
                            }
                        }
                    }
                    self.lemma_at_index(pre.len() as int);
                    assert forall|q: ChunkPos| q != p implies (#[trigger] self.has_chunk(q))
                        == old(self).has_chunk(q) && (self.has_chunk(q) ==> self.chunk_at(q) == old(
                        self,
                    ).chunk_at(q)) by {
                        if old(self).has_chunk(q) {
                            let i = choose|i: int|
                                0 <= i < pre.len() && (#[trigger] pre[i]).spec_pos() == q;
                            self.lemma_at_index(i);
                            old(self).lemma_at_index(i);
                        } else {
                            if self.has_chunk(q) {
                                let i = choose|i: int|
                                    0 <= i < self.chunks@.len() && (
                                    #[trigger] self.chunks@[i]).spec_pos() == q;
                                if i < pre.len() {
                                    assert(old(self).spec_chunks()[i].spec_pos() == q);
                                    assert(old(self).has_chunk(q));
                                }
                                assert(i == pre.len());
                            }
                        }
                    }
                }
                Ok(())
            },
        }
    }

    /// Requests every listed coordinate: a chunk absent from the map
    /// starts loading; one already present, in whatever state, is left
    /// exactly as it is.
    pub fn request_chunks(&mut self, coords: &Vec<ChunkPos>)
        requires
            old(self).wf(),
        ensures
            final(self).wf(),
            final(self).spec_section_count() == old(self).spec_section_count(),
            forall|q: ChunkPos| coords@.contains(q) ==> final(self).has_chunk(q),
            forall|q: ChunkPos|
                old(self).has_chunk(q) ==> final(self).has_chunk(q) && final(self).chunk_at(q)
                    == old(self).chunk_at(q),
            forall|q: ChunkPos|
                !old(self).has_chunk(q) && final(self).has_chunk(q) ==> coords@.contains(q)
                    && final(self).status_at(q) == ChunkStatus::Loading,
    {
        let mut i: usize = 0;
        while i < coords.len()
            invariant
                self.wf(),
                self.spec_section_count() == old(self).spec_section_count(),
                i <= coords@.len(),
                forall|q: ChunkPos| coords@.take(i as int).contains(q) ==> self.has_chunk(q),
                forall|q: ChunkPos|
                    old(self).has_chunk(q) ==> self.has_chunk(q) && self.chunk_at(q) == old(
                        self,
                    ).chunk_at(q),
                forall|q: ChunkPos|
                    !old(self).has_chunk(q) && self.has_chunk(q) ==> coords@.contains(q)
                        && self.status_at(q) == ChunkStatus::Loading,
            decreases coords@.len() - i,
        {
            let p = coords[i];
            let ghost mid = *self;
            let r = self.begin_loading(p);
            proof {
                assert(coords@.contains(p));
                if r is Err {
                    assert(*self == mid);
                }
                assert forall|q: ChunkPos| coords@.take(i + 1).contains(q) implies self.has_chunk(
                    q,
                ) by {
                    if q != p {
                        assert(coords@.take(i as int).contains(q)) by {
                            let k = choose|k: int|
                                0 <= k < i + 1 && #[trigger] coords@.take(i + 1)[k] == q;
                            if k < i {
                                assert(coords@.take(i as int)[k] == q);
                            }
                        }
                        assert(mid.has_chunk(q));
                    }
                }
            }
            i = i + 1;
        }
        proof {
            assert(coords@.take(coords@.len() as int) =~= coords@);
        }
    }

    /// Replaces a `Loading` chunk with a fully populated `Loaded` one
    /// handed over by the external chunk source.
    pub fn supply_chunk(&mut self, c: Chunk) -> (r: Result<(), crate::CoreError>)
        requires
            old(self).wf(),
            c.wf(),
            c.spec_status() == ChunkStatus::Loaded,
            c.spec_sections().len() == old(self).spec_section_count(),
        ensures
            final(self).wf(),
            final(self).spec_section_count() == old(self).spec_section_count(),
            r is Ok <==> (old(self).has_chunk(c.spec_pos()) && old(self).status_at(c.spec_pos())
                == ChunkStatus::Loading),
            r is Err ==> *final(self) == *old(self) && r == Err::<(), crate::CoreError>(
                crate::CoreError::ChunkUnavailable,
            ),
            r is Ok ==> final(self).has_chunk(c.spec_pos()) && final(self).chunk_at(c.spec_pos())
                == c && final(self).others_unchanged(old(self), c.spec_pos()),
    {
        let p = c.pos();
        match self.find(p) {
            Some(i) => {
                if matches!(self.chunks[i].status(), ChunkStatus::Loading) {
                    let ghost pre = self.chunks@;
                    self.chunks[i] = c;
                    proof {
                        assert forall|a: int, b: int|
                            0 <= a < self.chunks@.len() && 0 <= b < self.chunks@.len() && a
                                != b implies (#[trigger] self.chunks@[a]).spec_pos() != (
                        #[trigger] self.chunks@[b]).spec_pos() by {
                            assert(pre[a].spec_pos() != pre[b].spec_pos());
                        }
                        self.lemma_at_index(i as int);
                        assert forall|q: ChunkPos| q != p implies (#[trigger] self.has_chunk(q))
                            == old(self).has_chunk(q) && (self.has_chunk(q) ==> self.chunk_at(q)
                            == old(self).chunk_at(q)) by {
                            if old(self).has_chunk(q) {
                                let a = choose|a: int|
                                    0 <= a < pre.len() && (#[trigger] pre[a]).spec_pos() == q;
                                assert(a != i);
                                self.lemma_at_index(a);
                                old(self).lemma_at_index(a);
                            } else {
                                if self.has_chunk(q) {
                                    let a = choose|a: int|
                                        0 <= a < self.chunks@.len() && (
                                        #[trigger] self.chunks@[a]).spec_pos() == q;
                                    assert(a == i);
                                }
                            }
                        }
                    }
                    Ok(())
                } else {
                    Err(crate::CoreError::ChunkUnavailable)
                }
            },
            None => Err(crate::CoreError::ChunkUnavailable),
        }
    }

    /// Drops a chunk whose load failed (`GenerationFailed` or
    /// `StorageUnavailable` from the source): it leaves the map instead
    /// of sitting in `Loading` forever; the caller may retry later.
    pub fn fail_loading(&mut self, p: ChunkPos) -> (r: Result<(), crate::CoreError>)
        requires
            old(self).wf(),
        ensures
            final(self).wf(),
            final(self).spec_section_count() == old(self).spec_section_count(),
            r is Ok <==> (old(self).has_chunk(p) && old(self).status_at(p) == ChunkStatus::Loading),
            r is Err ==> *final(self) == *old(self) && r == Err::<(), crate::CoreError>(
                crate::CoreError::ChunkUnavailable,
            ),
            r is Ok ==> !final(self).has_chunk(p) && final(self).others_unchanged(old(self), p),
    {
        self.remove_with_status(p, ChunkStatus::Loading)
    }

    /// Marks a `Loaded` chunk that no participant tracks any more.
    pub fn begin_unloading(&mut self, p: ChunkPos) -> (r: Result<(), crate::CoreError>)
        requires
            old(self).wf(),
        ensures
            final(self).wf(),
            final(self).spec_section_count() == old(self).spec_section_count(),
            r is Ok <==> (old(self).has_chunk(p) && old(self).status_at(p) == ChunkStatus::Loaded),
            r is Err ==> *final(self) == *old(self) && r == Err::<(), crate::CoreError>(
                crate::CoreError::ChunkUnavailable,
            ),
            r is Ok ==> final(self).has_chunk(p) && final(self).status_at(p)
                == ChunkStatus::Unloading && final(self).chunk_at(p).spec_sections() == old(
                self,
            ).chunk_at(p).spec_sections() && final(self).others_unchanged(old(self), p),
    {
        match self.find(p) {
            Some(i) => {
                if matches!(self.chunks[i].status(), ChunkStatus::Loaded) {
                    let ghost pre = self.chunks@;
                    self.chunks[i].mark_unloading();
                    proof {
                        assert forall|a: int, b: int|
                            0 <= a < self.chunks@.len() && 0 <= b < self.chunks@.len() && a
                                != b implies (#[trigger] self.chunks@[a]).spec_pos() != (
                        #[trigger] self.chunks@[b]).spec_pos() by {
                            assert(pre[a].spec_pos() != pre[b].spec_pos());
                        }
                        self.lemma_at_index(i as int);
                        assert forall|q: ChunkPos| q != p implies (#[trigger] self.has_chunk(q))
                            == old(self).has_chunk(q) && (self.has_chunk(q) ==> self.chunk_at(q)
                            == old(self).chunk_at(q)) by {
                            if old(self).has_chunk(q) {
                                let a = choose|a: int|
                                    0 <= a < pre.len() && (#[trigger] pre[a]).spec_pos() == q;
                                assert(a != i);
                                self.lemma_at_index(a);
                                old(self).lemma_at_index(a);
                            } else {
                                if self.has_chunk(q) {
                                    let a = choose|a: int|
                                        0 <= a < self.chunks@.len() && (
                                        #[trigger] self.chunks@[a]).spec_pos() == q;
                                    assert(a == i);
                                }
                            }
                        }
                    }
                    Ok(())
                } else {
                    Err(crate::CoreError::ChunkUnavailable)
                }
            },
            None => Err(crate::CoreError::ChunkUnavailable),
        }
    }

    /// Evicts an `Unloading` chunk from the map; it is `Unloaded` (absent)
    /// afterwards. The orchestration calls this only for chunks no
    /// participant's tracked set references.
    pub fn evict(&mut self, p: ChunkPos) -> (r: Result<(), crate::CoreError>)
        requires
            old(self).wf(),
        ensures
            final(self).wf(),
            final(self).spec_section_count() == old(self).spec_section_count(),
            r is Ok <==> (old(self).has_chunk(p) && old(self).status_at(p)
                == ChunkStatus::Unloading),
            r is Err ==> *final(self) == *old(self) && r == Err::<(), crate::CoreError>(
                crate::CoreError::ChunkUnavailable,
            ),
            r is Ok ==> !final(self).has_chunk(p) && final(self).others_unchanged(old(self), p),
    {
        self.remove_with_status(p, ChunkStatus::Unloading)
    }

    /// Removes the chunk at `p` when it carries the expected status.
    fn remove_with_status(&mut self, p: ChunkPos, expect: ChunkStatus) -> (r: Result<
        (),
        crate::CoreError,
    >)
        requires
            old(self).wf(),
        ensures
            final(self).wf(),
            final(self).spec_section_count() == old(self).spec_section_count(),
            r is Ok <==> (old(self).has_chunk(p) && old(self).status_at(p) == expect),
            r is Err ==> *final(self) == *old(self) && r == Err::<(), crate::CoreError>(
                crate::CoreError::ChunkUnavailable,
            ),
            r is Ok ==> !final(self).has_chunk(p) && final(self).others_unchanged(old(self), p),
    {
        match self.find(p) {
            Some(i) => {
                let st = self.chunks[i].status();
                let matches_expect = match (st, expect) {
                    (ChunkStatus::Unloaded, ChunkStatus::Unloaded) => true,
                    (ChunkStatus::Loading, ChunkStatus::Loading) => true,
                    (ChunkStatus::Loaded, ChunkStatus::Loaded) => true,
                    (ChunkStatus::Unloading, ChunkStatus::Unloading) => true,
                    _ => false,
                };
                if matches_expect {
                    let ghost pre = self.chunks@;
                    self.chunks.swap_remove(i);
                    proof {
                        let n = pre.len() - 1;
                        // the new sequence holds pre's entries except index i,
                        // with the last entry moved into slot i
                        assert forall|a: int, b: int|
                            0 <= a < self.chunks@.len() && 0 <= b < self.chunks@.len() && a
                                != b implies (#[trigger] self.chunks@[a]).spec_pos() != (
                        #[trigger] self.chunks@[b]).spec_pos() by {
                            let pa: int = if a == i as int {
                                n
                            } else {
                                a
                            };
                            let pb: int = if b == i as int {
                                n
                            } else {
                                b
                            };
                            assert(self.chunks@[a] == pre[pa] && self.chunks@[b] == pre[pb]);
                            assert(pre[pa].spec_pos() != pre[pb].spec_pos());
                        }
                        assert forall|q: ChunkPos| q != p implies (#[trigger] self.has_chunk(q))
                            == old(self).has_chunk(q) && (self.has_chunk(q) ==> self.chunk_at(q)
                            == old(self).chunk_at(q)) by {
                            if old(self).has_chunk(q) {
                                let a = choose|a: int|
                                    0 <= a < pre.len() && (#[trigger] pre[a]).spec_pos() == q;
                                assert(a != i as int);
                                let na: int = if a == n {
                                    i as int
                                } else {
                                    a
                                };
                                if a != n || n != i as int {
                                    assert(self.chunks@[na] == pre[a]);
                                    self.lemma_at_index(na);
                                    old(self).lemma_at_index(a);
                                }
                            } else {
                                if self.has_chunk(q) {
                                    let a = choose|a: int|
                                        0 <= a < self.chunks@.len() && (
                                        #[trigger] self.chunks@[a]).spec_pos() == q;
                                    let pa: int = if a == i as int {
                                        n
                                    } else {
                                        a
                                    };
                                    assert(pre[pa].spec_pos() == q);
                                }
                            }
                        }
                        if self.has_chunk(p) {
                            let a = choose|a: int|
                                0 <= a < self.chunks@.len() && (
                                #[trigger] self.chunks@[a]).spec_pos() == p;
                            let pa: int = if a == i as int {
                                n
                            } else {
                                a
                            };
                            assert(pre[pa].spec_pos() == p);
                            assert(pa != i as int);
                            old(self).lemma_at_index(pa);
                            old(self).lemma_at_index(i as int);
                        }
                    }
                    Ok(())
                } else {
                    Err(crate::CoreError::ChunkUnavailable)
                }
            },
            None => Err(crate::CoreError::ChunkUnavailable),
        }
    }
}

} // verus!
