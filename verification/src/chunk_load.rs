use vstd::prelude::*;
use crate::voxel::BlockType;
use crate::math::IVec3;
use crate::chunk::{ChunkData, ChunkLightBuffer, sky_of};
use crate::world::{
    WorldManager, ChunkEntry, chunk_key, chunk_key_of, column_key, column_key_of, chunk_of,
    local_index, in_world, chunk_pos_bounded, lemma_pos_decomp, lemma_chunk_key_injective,
};
use crate::world_light::{
    gnbr, gopposite, pos_ok, present, globally_stable, neighbor_pos,
    propagate_sky_light_global, lemma_gnbr_symmetric,
};
use crate::streaming::{stream_pos_ok, fitted_fluid, fit_fluid};
use std::collections::VecDeque;

verus! {

broadcast use vstd::std_specs::hash::group_hash_axioms;

/// Direction (as in `gnbr`) from a chunk to its `f`-th linked neighbour: -X, +X, -Y, +Y, -Z,
/// +Z.
pub open spec fn link_dir(f: int) -> int {
    if f % 2 == 0 {
        f + 1
    } else {
        f - 1
    }
}

/// The `f`-th linked neighbour of a chunk.
pub open spec fn linked_chunk(cp: IVec3, f: int) -> IVec3 {
    gnbr(cp, link_dir(f))
}

/// Voxel `c` of the layer of chunk `cp` that touches its `f`-th linked neighbour, in the order
/// the layer is scanned (the outer of its two free axes first, in Y, Z, X order).
pub open spec fn border_pos(cp: IVec3, f: int, c: int) -> IVec3 {
    let a = c / 32;
    let b = c % 32;
    let (x, y, z) = if f == 0 {
        (0, a, b)
    } else if f == 1 {
        (31, a, b)
    } else if f == 2 {
        (b, 0, a)
    } else if f == 3 {
        (b, 31, a)
    } else if f == 4 {
        (b, a, 0)
    } else {
        (b, a, 31)
    };
    IVec3 { x: (cp.x * 32 + x) as i32, y: (cp.y * 32 + y) as i32, z: (cp.z * 32 + z) as i32 }
}

/// Whether light should spread from `a` to its neighbour `b`: `a` is lit above 1, `b` is air
/// more than one level darker.
pub open spec fn wants_light(w: WorldManager, a: IVec3, b: IVec3) -> bool {
    w.light_at(a) > 1 && w.light_at(b) + 1 < w.light_at(a) && w.block_at(b) == BlockType::Air
}

/// Whether `q` is a position the light seeding across the borders of `cp` queues: the lit side
/// of a pair of voxels facing each other across the border with a loaded linked neighbour, where
/// light drops by more than one level into air.
pub open spec fn border_seed(w: WorldManager, cp: IVec3, q: IVec3) -> bool {
    exists|f: int, c: int|
        0 <= f < 6 && 0 <= c < 1024 && w.chunks@.contains_key(chunk_key(linked_chunk(cp, f))) && {
            let p = #[trigger] border_pos(cp, f, c);
            let n = gnbr(p, link_dir(f));
            (q == p && wants_light(w, p, n)) || (q == n && wants_light(w, n, p))
        }
}

/// Light does not drop by more than one level from air voxel `a` into loaded air voxel `b`.
pub open spec fn light_settled(w: WorldManager, a: IVec3, b: IVec3) -> bool {
    (w.block_at(a) == BlockType::Air && w.light_at(a) > 1 && w.block_at(b) == BlockType::Air
        && present(w, b) && in_world(b)) ==> w.light_at(b) + 1 >= w.light_at(a)
}

/// Light is settled both ways across every pair of voxels that face each other across the
/// border between the chunk at `cp` and its loaded linked neighbours.
pub open spec fn borders_settled(w: WorldManager, cp: IVec3) -> bool {
    forall|f: int, c: int|
        0 <= f < 6 && 0 <= c < 1024 && w.chunks@.contains_key(chunk_key(linked_chunk(cp, f))) ==> {
            let p = #[trigger] border_pos(cp, f, c);
            let n = gnbr(p, link_dir(f));
            &&& light_settled(w, p, n)
            &&& light_settled(w, n, p)
        }
}


/// Border voxels of a chunk whose position streaming accepts, and their neighbours across the
/// border, have representable neighbours.
proof fn lemma_border_pos_ok(cp: IVec3, f: int, c: int)
    requires
        stream_pos_ok(cp),
        0 <= f < 6,
        0 <= c < 1024,
    ensures
        pos_ok(border_pos(cp, f, c)),
        pos_ok(gnbr(border_pos(cp, f, c), link_dir(f))),
        0 <= link_dir(f) < 6,
{
    assert(0 <= c / 32 < 32 && 0 <= c % 32 < 32) by (nonlinear_arith)
        requires 0 <= c < 1024;
}

/// After light was spread from a set of queued positions that includes every voxel that wanted
/// to light its neighbour, light is settled from each voxel into that neighbour.
proof fn lemma_settled_after_spread(
    w1: WorldManager,
    w2: WorldManager,
    q: Seq<IVec3>,
    a: IVec3,
    d: int,
)
    requires
        0 <= d < 6,
        pos_ok(a),
        wants_light(w1, a, gnbr(a, d)) ==> q.contains(a),
        forall|p: IVec3| #[trigger] w2.light_at(p) >= w1.light_at(p),
        forall|p: IVec3|
            (q.contains(p) || #[trigger] w2.light_at(p) != w1.light_at(p)) ==> globally_stable(w2, p),
        forall|p: IVec3| #[trigger] w2.block_at(p) == w1.block_at(p),
    ensures
        light_settled(w2, a, gnbr(a, d)),
{
    let b = gnbr(a, d);
    assert(w2.light_at(a) >= w1.light_at(a));
    assert(w2.light_at(b) >= w1.light_at(b));
    assert(w2.block_at(b) == w1.block_at(b));
    assert(w2.block_at(a) == w1.block_at(a));
    if q.contains(a) || w2.light_at(a) != w1.light_at(a) {
        assert(globally_stable(w2, a));
    }
}

impl WorldManager {
    /// Positions from which light must spread once the chunk at `chunk_pos` has joined its loaded
    /// linked neighbours: scanning every pair of voxels facing each other across those borders,
    /// the lit side of each pair where light drops by more than one level into air.
    pub fn border_light_seeds(&self, chunk_pos: IVec3) -> (q: VecDeque<IVec3>)
        requires
            self.wf(),
            stream_pos_ok(chunk_pos),
        ensures
            forall|f: int, c: int|
                0 <= f < 6 && 0 <= c < 1024 && self.chunks@.contains_key(
                    chunk_key(linked_chunk(chunk_pos, f)),
                ) ==> {
                    let p = #[trigger] border_pos(chunk_pos, f, c);
                    let n = gnbr(p, link_dir(f));
                    &&& wants_light(*self, p, n) ==> q@.contains(p)
                    &&& wants_light(*self, n, p) ==> q@.contains(n)
                },
            forall|i: int| 0 <= i < q@.len() ==> border_seed(*self, chunk_pos, #[trigger] q@[i]),
    {
        let mut queue: VecDeque<IVec3> = VecDeque::new();
        let mut f: usize = 0;
        while f < 6
            invariant
                self.wf(),
                stream_pos_ok(chunk_pos),
                f <= 6,
                forall|ff: int, c: int|
                    0 <= ff < f && 0 <= c < 1024 && self.chunks@.contains_key(
                        chunk_key(linked_chunk(chunk_pos, ff)),
                    ) ==> {
                        let p = #[trigger] border_pos(chunk_pos, ff, c);
                        let n = gnbr(p, link_dir(ff));
                        &&& wants_light(*self, p, n) ==> queue@.contains(p)
                        &&& wants_light(*self, n, p) ==> queue@.contains(n)
                    },
                forall|i: int| 0 <= i < queue@.len() ==> border_seed(*self, chunk_pos, #[trigger] queue@[i]),
            decreases 6 - f,
        {
            let d: usize = if f % 2 == 0 { f + 1 } else { f - 1 };
            let neighbor_chunk = neighbor_pos(chunk_pos, d);
            if self.chunks.contains_key(&chunk_key_of(neighbor_chunk)) {
                let mut c: usize = 0;
                while c < 1024
                    invariant
                        self.wf(),
                        stream_pos_ok(chunk_pos),
                        f < 6,
                        d == link_dir(f as int),
                        c <= 1024,
                        forall|ff: int, cc: int|
                            (0 <= ff < f && 0 <= cc < 1024 || ff == f && 0 <= cc < c)
                                && self.chunks@.contains_key(chunk_key(linked_chunk(chunk_pos, ff)))
                                ==> {
                                let p = #[trigger] border_pos(chunk_pos, ff, cc);
                                let n = gnbr(p, link_dir(ff));
                                &&& wants_light(*self, p, n) ==> queue@.contains(p)
                                &&& wants_light(*self, n, p) ==> queue@.contains(n)
                            },
                        self.chunks@.contains_key(chunk_key(linked_chunk(chunk_pos, f as int))),
                        forall|i: int| 0 <= i < queue@.len() ==> border_seed(*self, chunk_pos, #[trigger] queue@[i]),
                    decreases 1024 - c,
                {
                    let a = (c / 32) as i32;
                    let b = (c % 32) as i32;
                    let (x, y, z) = if f == 0 {
                        (0, a, b)
                    } else if f == 1 {
                        (31, a, b)
                    } else if f == 2 {
                        (b, 0, a)
                    } else if f == 3 {
                        (b, 31, a)
                    } else if f == 4 {
                        (b, a, 0)
                    } else {
                        (b, a, 31)
                    };
                    let global_pos = IVec3 {
                        x: chunk_pos.x * 32 + x,
                        y: chunk_pos.y * 32 + y,
                        z: chunk_pos.z * 32 + z,
                    };
                    proof {
                        assert(global_pos == border_pos(chunk_pos, f as int, c as int));
                        lemma_border_pos_ok(chunk_pos, f as int, c as int);
                    }
                    let n_global_pos = neighbor_pos(global_pos, d);
                    let this_block = self.get_block_global(global_pos);
                    let n_block = self.get_block_global(n_global_pos);
                    let light = self.get_light_global(global_pos);
                    let n_light = self.get_light_global(n_global_pos);
                    let ghost q0 = queue@;
                    if light > 1 && n_light < light - 1 && n_block == BlockType::Air {
                        queue.push_back(global_pos);
                    } else if n_light > 1 && light < n_light - 1 && this_block == BlockType::Air {
                        queue.push_back(n_global_pos);
                    }
                    proof {
                        assert forall|i: int| 0 <= i < queue@.len() implies border_seed(*self, chunk_pos, #[trigger] queue@[i]) by {
                            if i < q0.len() {
                                assert(queue@[i] == q0[i]);
                            } else {
                                let p = border_pos(chunk_pos, f as int, c as int);
                                assert(global_pos == p);
                            }
                        }
                    }
                    proof {
                        assert forall|ff: int, cc: int|
                            (0 <= ff < f && 0 <= cc < 1024 || ff == f && 0 <= cc < c + 1)
                                && self.chunks@.contains_key(chunk_key(linked_chunk(chunk_pos, ff)))
                                implies {
                                let p = #[trigger] border_pos(chunk_pos, ff, cc);
                                let n = gnbr(p, link_dir(ff));
                                &&& wants_light(*self, p, n) ==> queue@.contains(p)
                                &&& wants_light(*self, n, p) ==> queue@.contains(n)
                            } by {
                            let p = border_pos(chunk_pos, ff, cc);
                            let n = gnbr(p, link_dir(ff));
                            if q0.contains(p) {
                                let t = choose|t: int| 0 <= t < q0.len() && q0[t] == p;
                                assert(queue@[t] == p);
                            }
                            if q0.contains(n) {
                                let t = choose|t: int| 0 <= t < q0.len() && q0[t] == n;
                                assert(queue@[t] == n);
                            }
                            if ff == f && cc == c {
                                if queue@.len() > q0.len() {
                                    assert(queue@[queue@.len() - 1] == queue@.last());
                                }
                            }
                        }
                    }
                    c = c + 1;
                }
            } else {
                proof {
                    assert(neighbor_chunk == linked_chunk(chunk_pos, f as int));
                }
            }
            f = f + 1;
        }
        queue
    }
}


impl WorldManager {
    /// Marks the light of the loaded chunk at `chunk_pos` as settled; nothing changes when no
    /// chunk is loaded there.
    pub fn set_lighting_ready(&mut self, chunk_pos: IVec3)
        requires
            old(self).wf(),
        ensures
            final(self).wf(),
            final(self).chunks@.dom() == old(self).chunks@.dom(),
            forall|k: u128|
                #[trigger] old(self).chunks@.contains_key(k) ==> final(self).chunks@[k] == if k
                    == chunk_key(chunk_pos) {
                    ChunkEntry { is_lighting_ready: true, ..old(self).chunks@[k] }
                } else {
                    old(self).chunks@[k]
                },
            forall|p: IVec3| #[trigger] final(self).block_at(p) == old(self).block_at(p),
            forall|p: IVec3| #[trigger] final(self).fluid_at(p) == old(self).fluid_at(p),
            forall|p: IVec3| #[trigger] final(self).light_at(p) == old(self).light_at(p),
            final(self).loading_chunks == old(self).loading_chunks,
            final(self).vacuum_chunks == old(self).vacuum_chunks,
            final(self).heightmap_cache == old(self).heightmap_cache,
            final(self).dirty_chunks_for_meshing == old(self).dirty_chunks_for_meshing,
            final(self).fluid_queue == old(self).fluid_queue,
            final(self).world_type == old(self).world_type,
            final(self).seed == old(self).seed,
    {
        let key = chunk_key_of(chunk_pos);
        let ghost old_chunks = self.chunks@;
        match self.chunks.remove(&key) {
            Some(mut entry) => {
                entry.is_lighting_ready = true;
                self.chunks.insert(key, entry);
                proof {
                    assert(self.chunks@.dom() =~= old_chunks.dom());
                    assert forall|k: u128| #[trigger] self.chunks@.contains_key(k) implies self.chunks@[k].wf() by {
                        if k != key {
                            assert(old_chunks.contains_key(k));
                        }
                    }
                    assert forall|p: IVec3| #[trigger] self.block_at(p) == old(self).block_at(p) by {
                        if in_world(p) && chunk_key(chunk_of(p)) != key {
                        }
                    }
                }
            },
            None => {
                proof {
                    assert(self.chunks@ =~= old_chunks);
                }
            },
        }
    }

    /// Takes in a chunk that finished generating: it stops being generated, its column's
    /// surface heights are cached, and then either it holds nothing (no block that is not air
    /// and no fluid), is remembered as empty and `false` is returned; or it is loaded (fluid
    /// fitted to the chunk, no entity yet, not modified), light spreads across its borders with
    /// its loaded neighbours from every voxel lit more than one level above an air voxel facing
    /// it, its light and its neighbours' is marked settled, and `true` is returned so that the
    /// caller creates what draws it. Afterwards light is settled both ways across those borders.
    #[verifier::rlimit(80)]
    pub fn integrate_loaded_chunk(
        &mut self,
        chunk_pos: IVec3,
        data: ChunkData,
        light_buffer: ChunkLightBuffer,
        max_surface_y_map: Vec<i32>,
    ) -> (loaded: bool)
        requires
            old(self).wf(),
            stream_pos_ok(chunk_pos),
            data.buffer.wf(),
            light_buffer.wf(),
            max_surface_y_map@.len() == 1024,
        ensures
            final(self).wf(),
            final(self).loading_chunks@ == old(self).loading_chunks@.remove(chunk_key(chunk_pos)),
            final(self).heightmap_cache@ == old(self).heightmap_cache@.insert(
                column_key(chunk_pos.x, chunk_pos.z),
                max_surface_y_map,
            ),
            loaded == !((forall|i: int| 0 <= i < 32768 ==> data.buffer.blocks@[i] == BlockType::Air)
                && (data.fluid_buffer matches Some(f) ==> forall|i: int|
                0 <= i < f@.len() ==> f@[i] == 0u8)),
            !loaded ==> {
                &&& final(self).chunks == old(self).chunks
                &&& final(self).vacuum_chunks@ == old(self).vacuum_chunks@.insert(chunk_key(chunk_pos))
            },
            loaded ==> {
                let e = final(self).chunks@[chunk_key(chunk_pos)];
                &&& final(self).chunks@.dom() == old(self).chunks@.dom().insert(chunk_key(chunk_pos))
                &&& final(self).vacuum_chunks@ == old(self).vacuum_chunks@
                &&& e.buffer.blocks@ == data.buffer.blocks@
                &&& (e.fluid_buffer matches Some(f) ==> data.fluid_buffer matches Some(g) && f@
                    == fitted_fluid(g@))
                &&& (e.fluid_buffer is None ==> data.fluid_buffer is None)
                &&& e.entity is None
                &&& !e.is_modified
                &&& e.is_lighting_ready
                &&& forall|f: int|
                    0 <= f < 6 && #[trigger] final(self).chunks@.contains_key(
                        chunk_key(linked_chunk(chunk_pos, f)),
                    ) ==> final(self).chunks@[chunk_key(linked_chunk(chunk_pos, f))].is_lighting_ready
                &&& forall|p: IVec3|
                    #[trigger] final(self).block_at(p) == if in_world(p) && chunk_of(p) == chunk_pos {
                        data.buffer.blocks@[local_index(p)]
                    } else {
                        old(self).block_at(p)
                    }
                &&& forall|p: IVec3|
                    in_world(p) && chunk_of(p) == chunk_pos ==> #[trigger] final(self).light_at(p)
                        >= sky_of(light_buffer.light_data@[local_index(p)])
                &&& forall|p: IVec3|
                    chunk_of(p) != chunk_pos && present(*old(self), p) ==> #[trigger] final(self).light_at(p) >= old(self).light_at(p)
                &&& borders_settled(*final(self), chunk_pos)
            },
            final(self).fluid_queue@ == old(self).fluid_queue@,
            final(self).world_type == old(self).world_type,
            final(self).seed == old(self).seed,
    {
        let key = chunk_key_of(chunk_pos);
        self.loading_chunks.remove(&key);
        let ck = column_key_of(chunk_pos.x, chunk_pos.z);
        self.heightmap_cache.insert(ck, max_surface_y_map);
        proof {
            assert forall|k: u64| #[trigger] self.heightmap_cache@.contains_key(k) implies self.heightmap_cache@[k]@.len() == 1024 by {
                if k != ck {
                    assert(old(self).heightmap_cache@.contains_key(k));
                }
            }
        }
        let is_empty = data.buffer.is_pure_air() && data.is_fluid_pure_vacuum();
        if is_empty {
            self.vacuum_chunks.insert(key);
            return false;
        }
        let fluid_buffer = match &data.fluid_buffer {
            Some(v) => Some(fit_fluid(v)),
            None => None,
        };
        let entry = ChunkEntry {
            buffer: data.buffer,
            light_buffer,
            fluid_buffer,
            entity: None,
            is_modified: false,
            is_lighting_ready: false,
        };
        let ghost w_old = *old(self);
        let ghost w_h = *self;
        self.chunks.insert(key, entry);
        let ghost w1 = *self;
        proof {
            assert(chunk_pos_bounded(chunk_pos));
            assert forall|k: u128| #[trigger] self.chunks@.contains_key(k) implies self.chunks@[k].wf() by {
                if k != key {
                    assert(old(self).chunks@.contains_key(k));
                }
            }
            assert forall|cp: IVec3| #[trigger] self.chunks@.contains_key(chunk_key(cp)) implies chunk_pos_bounded(cp) by {
                lemma_chunk_key_injective(cp, chunk_pos);
                if chunk_key(cp) != key {
                    assert(old(self).chunks@.contains_key(chunk_key(cp)));
                }
            }
            assert forall|p: IVec3| #[trigger] w1.block_at(p) == if in_world(p) && chunk_of(p) == chunk_pos {
                data.buffer.blocks@[local_index(p)]
            } else {
                w_old.block_at(p)
            } by {
                if in_world(p) {
                    lemma_chunk_key_injective(chunk_of(p), chunk_pos);
                }
            }
            assert forall|p: IVec3| chunk_of(p) != chunk_pos && present(w_old, p) implies #[trigger] w1.light_at(p)
                == w_old.light_at(p) by {
                lemma_chunk_key_injective(chunk_of(p), chunk_pos);
            }
        }
        let queue = self.border_light_seeds(chunk_pos);
        let ghost q = queue@;
        propagate_sky_light_global(self, queue);
        let ghost w2 = *self;
        proof {
            assert forall|f: int, c: int|
                0 <= f < 6 && 0 <= c < 1024 && w2.chunks@.contains_key(chunk_key(linked_chunk(chunk_pos, f)))
                    implies {
                    let p = #[trigger] border_pos(chunk_pos, f, c);
                    let n = gnbr(p, link_dir(f));
                    &&& light_settled(w2, p, n)
                    &&& light_settled(w2, n, p)
                } by {
                let p = border_pos(chunk_pos, f, c);
                let d = link_dir(f);
                let n = gnbr(p, d);
                lemma_border_pos_ok(chunk_pos, f, c);
                assert(w1.chunks@.contains_key(chunk_key(linked_chunk(chunk_pos, f))));
                lemma_settled_after_spread(w1, w2, q, p, d);
                lemma_gnbr_symmetric(p, d);
                lemma_settled_after_spread(w1, w2, q, n, gopposite(d));
            }
            assert(borders_settled(w2, chunk_pos));
        }
        proof {
            assert(w2.chunks@.contains_key(key));
        }
        self.set_lighting_ready(chunk_pos);
        proof {
            assert(self.chunks@[key].is_lighting_ready);
        }
        let mut f: usize = 0;
        while f < 6
            invariant
                self.wf(),
                stream_pos_ok(chunk_pos),
                f <= 6,
                self.chunks@.dom() == w2.chunks@.dom(),
                w2.chunks@.contains_key(key),
                self.chunks@[key].is_lighting_ready,
                forall|ff: int|
                    0 <= ff < f && #[trigger] self.chunks@.contains_key(chunk_key(linked_chunk(chunk_pos, ff)))
                        ==> self.chunks@[chunk_key(linked_chunk(chunk_pos, ff))].is_lighting_ready,
                forall|k: u128|
                    #[trigger] w2.chunks@.contains_key(k) ==> {
                        let (a, b) = (self.chunks@[k], w2.chunks@[k]);
                        &&& a.buffer == b.buffer
                        &&& a.light_buffer == b.light_buffer
                        &&& a.fluid_buffer == b.fluid_buffer
                        &&& a.entity == b.entity
                        &&& a.is_modified == b.is_modified
                    },
                forall|p: IVec3| #[trigger] self.block_at(p) == w2.block_at(p),
                forall|p: IVec3| #[trigger] self.fluid_at(p) == w2.fluid_at(p),
                forall|p: IVec3| #[trigger] self.light_at(p) == w2.light_at(p),
                self.loading_chunks == w2.loading_chunks,
                self.vacuum_chunks == w2.vacuum_chunks,
                self.heightmap_cache == w2.heightmap_cache,
                self.fluid_queue == w2.fluid_queue,
                self.world_type == w2.world_type,
                self.seed == w2.seed,
            decreases 6 - f,
        {
            let d: usize = if f % 2 == 0 { f + 1 } else { f - 1 };
            let neighbor_chunk = neighbor_pos(chunk_pos, d);
            proof {
                assert(neighbor_chunk == linked_chunk(chunk_pos, f as int));
            }
            let ghost before = *self;
            self.set_lighting_ready(neighbor_chunk);
            proof {
                assert(before.chunks@.contains_key(key));
                assert(self.chunks@[key].is_lighting_ready);
                assert forall|k: u128| #[trigger] w2.chunks@.contains_key(k) implies {
                    let (a, b) = (self.chunks@[k], w2.chunks@[k]);
                    &&& a.buffer == b.buffer
                    &&& a.light_buffer == b.light_buffer
                    &&& a.fluid_buffer == b.fluid_buffer
                    &&& a.entity == b.entity
                    &&& a.is_modified == b.is_modified
                } by {
                    assert(before.chunks@.contains_key(k));
                }
                assert forall|ff: int|
                    0 <= ff < f + 1 && #[trigger] self.chunks@.contains_key(chunk_key(linked_chunk(chunk_pos, ff)))
                        implies self.chunks@[chunk_key(linked_chunk(chunk_pos, ff))].is_lighting_ready by {
                    assert(before.chunks@.contains_key(chunk_key(linked_chunk(chunk_pos, ff))));
                }
                assert forall|p: IVec3| #[trigger] self.block_at(p) == w2.block_at(p) by {
                    assert(before.block_at(p) == w2.block_at(p));
                }
                assert forall|p: IVec3| #[trigger] self.fluid_at(p) == w2.fluid_at(p) by {
                    assert(before.fluid_at(p) == w2.fluid_at(p));
                }
                assert forall|p: IVec3| #[trigger] self.light_at(p) == w2.light_at(p) by {
                    assert(before.light_at(p) == w2.light_at(p));
                }
            }
            f = f + 1;
        }
        proof {
            assert forall|f: int, c: int|
                0 <= f < 6 && 0 <= c < 1024 && self.chunks@.contains_key(chunk_key(linked_chunk(chunk_pos, f)))
                    implies {
                    let p = #[trigger] border_pos(chunk_pos, f, c);
                    let n = gnbr(p, link_dir(f));
                    &&& light_settled(*self, p, n)
                    &&& light_settled(*self, n, p)
                } by {
                let p = border_pos(chunk_pos, f, c);
                let n = gnbr(p, link_dir(f));
                assert(w2.chunks@.contains_key(chunk_key(linked_chunk(chunk_pos, f))));
                assert(self.light_at(p) == w2.light_at(p) && self.light_at(n) == w2.light_at(n));
                assert(self.block_at(p) == w2.block_at(p) && self.block_at(n) == w2.block_at(n));
                assert(present(*self, n) == present(w2, n));
                assert(present(*self, p) == present(w2, p));
            }
            assert forall|p: IVec3|
                in_world(p) && chunk_of(p) == chunk_pos implies #[trigger] self.light_at(p) >= sky_of(
                    light_buffer.light_data@[local_index(p)],
                ) by {
                assert(self.light_at(p) == w2.light_at(p));
                assert(w2.light_at(p) >= w1.light_at(p));
            }
            assert forall|p: IVec3|
                chunk_of(p) != chunk_pos && present(w_old, p) implies #[trigger] self.light_at(p)
                    >= w_old.light_at(p) by {
                assert(self.light_at(p) == w2.light_at(p));
                assert(w2.light_at(p) >= w1.light_at(p));
            }
            assert forall|p: IVec3| #[trigger] self.block_at(p) == if in_world(p) && chunk_of(p) == chunk_pos {
                data.buffer.blocks@[local_index(p)]
            } else {
                w_old.block_at(p)
            } by {
                assert(self.block_at(p) == w2.block_at(p));
                assert(w2.block_at(p) == w1.block_at(p));
            }
            assert(w1.chunks@.contains_key(key));
            assert(w2.chunks@[key].buffer == w1.chunks@[key].buffer);
            assert(w2.chunks@[key].fluid_buffer == w1.chunks@[key].fluid_buffer);
            assert(w2.chunks@[key].entity == w1.chunks@[key].entity);
            assert(w2.chunks@[key].is_modified == w1.chunks@[key].is_modified);
            assert(self.chunks@.dom() =~= w_old.chunks@.dom().insert(key));
            assert(self.vacuum_chunks@ == w_old.vacuum_chunks@);
        }
        true
    }
}

} // verus!
