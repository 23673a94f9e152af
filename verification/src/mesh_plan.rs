use vstd::prelude::*;
use vstd::std_specs::iter::IteratorSpec;
use crate::voxel::BlockType;
use crate::math::IVec3;
use crate::chunk::{ChunkBuffer, ChunkLightBuffer};
use crate::world::{WorldManager, ChunkEntry, chunk_key, chunk_key_of, chunk_pos_of_key};
use crate::mesh_input::{ChunkMeshInputData, near_index};
use crate::streaming::stream_pos_ok;

verus! {

broadcast use vstd::std_specs::hash::group_hash_axioms;

/// The `k`-th of the 8 chunks around a chunk in the same layer that must have settled light
/// before the chunk is meshed: `dx` from -1 to 1, then `dz` from -1 to 1, without the chunk.
pub open spec fn ring_pos(cp: IVec3, k: int) -> IVec3 {
    let j = if k < 4 { k } else { k + 1 };
    IVec3 { x: (cp.x + j / 3 - 1) as i32, y: cp.y, z: (cp.z + j % 3 - 1) as i32 }
}

/// Whether a neighbouring chunk holds back meshing: it is being generated, or it is loaded
/// without settled light. Chunks that are neither loaded nor being generated do not.
pub open spec fn holds_back(w: WorldManager, n: IVec3) -> bool {
    if w.chunks@.contains_key(chunk_key(n)) {
        !w.chunks@[chunk_key(n)].is_lighting_ready
    } else {
        w.loading_chunks@.contains(chunk_key(n))
    }
}

/// Whether a chunk may be meshed now: its light is settled and none of the eight chunks around
/// it in its layer holds meshing back.
pub open spec fn ready_for_mesh(w: WorldManager, cp: IVec3) -> bool {
    &&& w.entry_at(cp) matches Some(e) && e.is_lighting_ready
    &&& forall|k: int| 0 <= k < 8 ==> !holds_back(w, #[trigger] ring_pos(cp, k))
}

/// The `s`-th of the 27 chunks around and including `cp`: `dx`, then `dy`, then `dz` from -1 to 1.
pub open spec fn cube_pos(cp: IVec3, s: int) -> IVec3 {
    IVec3 { x: (cp.x + s / 9 - 1) as i32, y: (cp.y + (s / 3) % 3 - 1) as i32, z: (cp.z + s % 3 - 1) as i32 }
}

/// Whether the chunk in slot `s` around `cp` leaves the mesh empty: a loaded chunk of nothing
/// but air and no fluid, or a chunk that is not loaded and lies at or above height 64.
pub open spec fn slot_empty(w: WorldManager, cp: IVec3, s: int) -> bool {
    let n = cube_pos(cp, s);
    match w.entry_at(n) {
        Some(e) => {
            &&& forall|i: int| 0 <= i < 32768 ==> e.buffer.blocks@[i] == BlockType::Air
            &&& e.fluid_buffer matches Some(f) ==> forall|i: int| 0 <= i < f@.len() ==> f@[i] == 0u8
        },
        None => n.y * 32 >= 64,
    }
}

/// The mesh input gathered for `cp` holds, in slot `s`, copies of what is loaded there: blocks,
/// fluid, and light when it is settled; the surface heights are still to be added.
pub open spec fn gathered(w: WorldManager, cp: IVec3, d: ChunkMeshInputData) -> bool {
    &&& d.chunk_pos == cp
    &&& d.blocks@.len() == 27
    &&& d.fluids@.len() == 27
    &&& d.lights@.len() == 27
    &&& d.surface_heights is None
    &&& forall|s: int|
        0 <= s < 27 ==> match w.entry_at(#[trigger] cube_pos(cp, s)) {
            Some(e) => {
                &&& d.blocks@[s] matches Some(b) && b.blocks@ == e.buffer.blocks@
                &&& (d.fluids@[s] matches Some(f) ==> e.fluid_buffer matches Some(g) && f@ == g@)
                &&& (d.fluids@[s] is None <==> e.fluid_buffer is None)
                &&& if e.is_lighting_ready {
                    d.lights@[s] matches Some(l) && l.light_data@ == e.light_buffer.light_data@
                } else {
                    d.lights@[s] is None
                }
            },
            None => d.blocks@[s] is None && d.fluids@[s] is None && d.lights@[s] is None,
        }
}

impl WorldManager {
    /// Takes every chunk position out of the meshing queue and returns them, each once.
    pub fn drain_dirty_chunks(&mut self) -> (r: Vec<IVec3>)
        requires
            old(self).wf(),
        ensures
            final(self).wf(),
            final(self).dirty_chunks_for_meshing@ == Set::<u128>::empty(),
            r@.no_duplicates(),
            forall|p: IVec3| r@.contains(p) <==> old(self).dirty_chunks_for_meshing@.contains(chunk_key(p)),
            final(self).chunks == old(self).chunks,
            final(self).loading_chunks == old(self).loading_chunks,
            final(self).vacuum_chunks == old(self).vacuum_chunks,
            final(self).heightmap_cache == old(self).heightmap_cache,
            final(self).fluid_queue == old(self).fluid_queue,
            final(self).world_type == old(self).world_type,
            final(self).seed == old(self).seed,
    {
        let mut r: Vec<IVec3> = Vec::new();
        let ghost ks = vstd::std_specs::hash::spec_hash_keys_iter(&self.dirty_chunks_for_meshing).remaining().unref();
        proof {
            vstd::std_specs::hash::axiom_spec_hash_keys_iter(&self.dirty_chunks_for_meshing);
        }
        for k in it: self.dirty_chunks_for_meshing.iter()
            invariant
                it.seq() == vstd::std_specs::hash::spec_hash_keys_iter(&self.dirty_chunks_for_meshing).remaining(),
                ks == it.seq().unref(),
                ks.to_set() == self.dirty_chunks_for_meshing@,
                ks.no_duplicates(),
                0 <= it.index() <= ks.len(),
                r@.no_duplicates(),
                forall|p: IVec3| r@.contains(p) <==> ks.take(it.index()).contains(chunk_key(p)),
        {
            let key = *k;
            proof {
                assert(key == ks[it.index()]);
                assert(ks.take(it.index() + 1) =~= ks.take(it.index()).push(key));
            }
            if key < 0x1_0000_0000_0000_0000_0000_0000 {
                let p = chunk_pos_of_key(key);
                let ghost r0 = r@;
                proof {
                    assert(!r0.contains(p)) by {
                        if r0.contains(p) {
                            let t = choose|t: int| 0 <= t < ks.take(it.index()).len() && ks.take(it.index())[t] == chunk_key(p);
                            assert(ks[t] == key);
                        }
                    }
                }
                r.push(p);
                proof {
                    assert forall|a: int, b: int| 0 <= a < r@.len() && 0 <= b < r@.len() && a != b implies r@[a] != r@[b] by {
                        if a < r0.len() && b < r0.len() {
                            assert(r@[a] == r0[a] && r@[b] == r0[b]);
                        } else if a < r0.len() {
                            assert(r@[a] == r0[a]);
                            assert(r0.contains(r0[a]));
                        } else {
                            assert(r@[b] == r0[b]);
                            assert(r0.contains(r0[b]));
                        }
                    }
                    assert forall|q: IVec3| r@.contains(q) <==> ks.take(it.index() + 1).contains(chunk_key(q)) by {
                        crate::world::lemma_chunk_key_injective(q, p);
                        crate::streaming::lemma_push_contains(ks.take(it.index()), key, chunk_key(q));
                        crate::streaming::lemma_push_contains(r0, p, q);
                    }
                }
            } else {
                proof {
                    assert forall|q: IVec3| r@.contains(q) <==> ks.take(it.index() + 1).contains(chunk_key(q)) by {
                        assert(chunk_key(q) < 0x1_0000_0000_0000_0000_0000_0000);
                        crate::streaming::lemma_push_contains(ks.take(it.index()), key, chunk_key(q));
                    }
                }
            }
        }
        proof {
            assert(ks.take(ks.len() as int) =~= ks);
            assert forall|p: IVec3| r@.contains(p) <==> old(self).dirty_chunks_for_meshing@.contains(chunk_key(p)) by {
                assert(ks.to_set().contains(chunk_key(p)) == ks.contains(chunk_key(p)));
            }
        }
        self.dirty_chunks_for_meshing.clear();
        r
    }

    /// Queues a chunk position for meshing.
    pub fn requeue_for_meshing(&mut self, chunk_pos: IVec3)
        ensures
            final(self).dirty_chunks_for_meshing@ == old(self).dirty_chunks_for_meshing@.insert(chunk_key(chunk_pos)),
            final(self).chunks == old(self).chunks,
            final(self).loading_chunks == old(self).loading_chunks,
            final(self).vacuum_chunks == old(self).vacuum_chunks,
            final(self).heightmap_cache == old(self).heightmap_cache,
            final(self).fluid_queue == old(self).fluid_queue,
            final(self).world_type == old(self).world_type,
            final(self).seed == old(self).seed,
    {
        self.dirty_chunks_for_meshing.insert(chunk_key_of(chunk_pos));
    }

    /// Whether a chunk may be meshed now: its light is settled, and none of the eight chunks
    /// around it in its layer is being generated or loaded without settled light.
    pub fn is_ready_for_mesh(&self, chunk_pos: IVec3) -> (r: bool)
        requires
            stream_pos_ok(chunk_pos),
        ensures
            r == ready_for_mesh(*self, chunk_pos),
    {
        if !self.is_chunk_lighting_ready(chunk_pos) {
            return false;
        }
        let mut k: usize = 0;
        while k < 8
            invariant
                stream_pos_ok(chunk_pos),
                k <= 8,
                forall|kk: int| 0 <= kk < k ==> !holds_back(*self, #[trigger] ring_pos(chunk_pos, kk)),
            decreases 8 - k,
        {
            let j: i32 = if k < 4 { k as i32 } else { k as i32 + 1 };
            let n_pos = IVec3 { x: chunk_pos.x + j / 3 - 1, y: chunk_pos.y, z: chunk_pos.z + j % 3 - 1 };
            proof {
                assert(n_pos == ring_pos(chunk_pos, k as int));
            }
            let nkey = chunk_key_of(n_pos);
            match self.chunks.get(&nkey) {
                None => {
                    if self.loading_chunks.contains(&nkey) {
                        return false;
                    }
                },
                Some(e) => {
                    if !e.is_lighting_ready {
                        return false;
                    }
                },
            }
            k = k + 1;
        }
        true
    }

    /// Copies what meshing the chunk at `chunk_pos` needs from the 27 chunks around and
    /// including it (blocks, fluid, and light where it is settled), and whether the mesh would
    /// be empty: every one of them is a loaded chunk of only air and no fluid, or a chunk that
    /// is not loaded at or above height 64.
    #[verifier::rlimit(40)]
    pub fn gather_mesh_input(&self, chunk_pos: IVec3) -> (r: (ChunkMeshInputData, bool))
        requires
            self.wf(),
            stream_pos_ok(chunk_pos),
        ensures
            gathered(*self, chunk_pos, r.0),
            r.1 == (forall|s: int| 0 <= s < 27 ==> #[trigger] slot_empty(*self, chunk_pos, s)),
    {
        let mut blocks: Vec<Option<ChunkBuffer>> = Vec::new();
        let mut fluids: Vec<Option<Vec<u8>>> = Vec::new();
        let mut lights: Vec<Option<ChunkLightBuffer>> = Vec::new();
        let mut is_completely_empty = true;
        let mut s: usize = 0;
        while s < 27
            invariant
                self.wf(),
                stream_pos_ok(chunk_pos),
                s <= 27,
                blocks@.len() == s,
                fluids@.len() == s,
                lights@.len() == s,
                is_completely_empty == (forall|ss: int| 0 <= ss < s ==> #[trigger] slot_empty(*self, chunk_pos, ss)),
                forall|ss: int|
                    0 <= ss < s ==> match self.entry_at(#[trigger] cube_pos(chunk_pos, ss)) {
                        Some(e) => {
                            &&& blocks@[ss] matches Some(b) && b.blocks@ == e.buffer.blocks@
                            &&& (fluids@[ss] matches Some(f) ==> e.fluid_buffer matches Some(g) && f@ == g@)
                            &&& (fluids@[ss] is None <==> e.fluid_buffer is None)
                            &&& if e.is_lighting_ready {
                                lights@[ss] matches Some(l) && l.light_data@ == e.light_buffer.light_data@
                            } else {
                                lights@[ss] is None
                            }
                        },
                        None => blocks@[ss] is None && fluids@[ss] is None && lights@[ss] is None,
                    },
            decreases 27 - s,
        {
            let si = s as i32;
            let n_pos = IVec3 {
                x: chunk_pos.x + si / 9 - 1,
                y: chunk_pos.y + (si / 3) % 3 - 1,
                z: chunk_pos.z + si % 3 - 1,
            };
            proof {
                assert(n_pos == cube_pos(chunk_pos, s as int));
            }
            let ghost b0 = blocks@;
            let ghost f0 = fluids@;
            let ghost l0 = lights@;
            let ghost e0 = is_completely_empty;
            match self.get_chunk_ref(n_pos) {
                Some(entry) => {
                    proof {
                        assert(self.chunks@.contains_key(chunk_key(n_pos)));
                    }
                    blocks.push(Some(entry.buffer.copy()));
                    let fb = match &entry.fluid_buffer {
                        Some(f) => {
                            let c = f.clone();
                            proof {
                                assert(c@ =~= f@);
                            }
                            Some(c)
                        },
                        None => None,
                    };
                    let has_fluid = match &fb {
                        Some(f) => !crate::chunk::all_zero(f),
                        None => false,
                    };
                    fluids.push(fb);
                    if entry.is_lighting_ready {
                        lights.push(Some(entry.light_buffer.copy()));
                    } else {
                        lights.push(None);
                    }
                    if !entry.buffer.is_pure_air() || has_fluid {
                        is_completely_empty = false;
                    }
                },
                None => {
                    blocks.push(None);
                    fluids.push(None);
                    lights.push(None);
                    if (n_pos.y as i64) * 32 < 64 {
                        is_completely_empty = false;
                    }
                },
            }
            proof {
                assert forall|ss: int|
                    0 <= ss < s + 1 implies match self.entry_at(#[trigger] cube_pos(chunk_pos, ss)) {
                        Some(e) => {
                            &&& blocks@[ss] matches Some(b) && b.blocks@ == e.buffer.blocks@
                            &&& (fluids@[ss] matches Some(f) ==> e.fluid_buffer matches Some(g) && f@ == g@)
                            &&& (fluids@[ss] is None <==> e.fluid_buffer is None)
                            &&& if e.is_lighting_ready {
                                lights@[ss] matches Some(l) && l.light_data@ == e.light_buffer.light_data@
                            } else {
                                lights@[ss] is None
                            }
                        },
                        None => blocks@[ss] is None && fluids@[ss] is None && lights@[ss] is None,
                    } by {
                    if ss < s {
                        assert(blocks@[ss] == b0[ss]);
                        assert(fluids@[ss] == f0[ss]);
                        assert(lights@[ss] == l0[ss]);
                    }
                }
                assert(is_completely_empty == (e0 && slot_empty(*self, chunk_pos, s as int)));
                assert(is_completely_empty == (forall|ss: int| 0 <= ss < s + 1 ==> #[trigger] slot_empty(*self, chunk_pos, ss))) by {
                    if is_completely_empty {
                        assert forall|ss: int| 0 <= ss < s + 1 implies #[trigger] slot_empty(*self, chunk_pos, ss) by {
                            if ss < s {
                                assert(slot_empty(*self, chunk_pos, ss));
                            }
                        }
                    }
                }
            }
            s = s + 1;
        }
        (
            ChunkMeshInputData { chunk_pos, blocks, fluids, lights, surface_heights: None },
            is_completely_empty,
        )
    }
}

/// How many finished chunk meshes a frame has sent to the GPU, against its budget.
pub struct UploadBudget {
    pub uploaded: usize,
    pub max_per_frame: usize,
}

impl UploadBudget {
    /// A frame's budget before any mesh is sent.
    pub fn new(max_per_frame: usize) -> (r: UploadBudget)
        ensures
            r.uploaded == 0,
            r.max_per_frame == max_per_frame,
    {
        UploadBudget { uploaded: 0, max_per_frame }
    }

    /// Whether the frame may still send a mesh: fewer than its maximum have gone.
    pub fn has_room(&self) -> (r: bool)
        ensures
            r == (self.uploaded < self.max_per_frame),
    {
        self.uploaded < self.max_per_frame
    }

    /// Counts one mesh sent.
    pub fn record_upload(&mut self)
        requires
            old(self).uploaded < old(self).max_per_frame,
        ensures
            final(self).uploaded == old(self).uploaded + 1,
            final(self).max_per_frame == old(self).max_per_frame,
    {
        self.uploaded = self.uploaded + 1;
    }
}

} // verus!
