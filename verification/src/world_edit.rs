use vstd::prelude::*;
use crate::voxel::BlockType;
use crate::math::{IVec3, voxel_pos_to_index};
use crate::world::{
    WorldManager, WorldType, ChunkEntry, chunk_of, local_index, in_world, chunk_key, chunk_key_of,
    chunk_pos_bounded, revived_entry_spec, lemma_pos_decomp, lemma_chunk_key_injective,
    lemma_same_slot, remeshed_neighbor, touches_face, face_neighbor, local_of,
};
use crate::world_light::{
    gnbr, pos_ok, present, globally_stable, globally_supported, same_but_light, neighbor_pos,
    propagate_sky_light_global, remove_sky_light_global, inner_pos_ok, gopposite, handed_over,
    lemma_gnbr_symmetric, lemma_light_at_max, lit_through, removal_reaches, dimming_path,
    lemma_dimming_transfer,
};
use crate::chunk::{Chunk, count_non_air, lemma_count_non_air_bound};
use vstd::std_specs::iter::IteratorSpec;
use std::collections::VecDeque;

verus! {

broadcast use vstd::std_specs::hash::group_hash_axioms;

/// The column surface height that light is measured against when a block is removed: the flat
/// world's ground lies at 4, floating islands have no ground, and hills use the height their
/// terrain generator gives for the column.
pub open spec fn surface_for(world_type: WorldType, hills_surface_y: i32) -> i32 {
    match world_type {
        WorldType::Flat => 4i32,
        WorldType::PerlinHills => hills_surface_y,
        WorldType::FloatingIslands => -1i32,
    }
}

/// The column surface height that light is measured against when a block is removed.
pub fn surface_height_for(world_type: WorldType, hills_surface_y: i32) -> (r: i32)
    ensures
        r == surface_for(world_type, hills_surface_y),
{
    match world_type {
        WorldType::Flat => 4,
        WorldType::PerlinHills => hills_surface_y,
        WorldType::FloatingIslands => -1,
    }
}

/// Brightest sky light among the six neighbours of a position.
pub open spec fn brightest_neighbor(w: WorldManager, p: IVec3) -> u8 {
    let l0 = w.light_at(gnbr(p, 0));
    let l1 = w.light_at(gnbr(p, 1));
    let l2 = w.light_at(gnbr(p, 2));
    let l3 = w.light_at(gnbr(p, 3));
    let l4 = w.light_at(gnbr(p, 4));
    let l5 = w.light_at(gnbr(p, 5));
    let a = if l0 > l1 { l0 } else { l1 };
    let b = if l2 > l3 { l2 } else { l3 };
    let c = if l4 > l5 { l4 } else { l5 };
    let ab = if a > b { a } else { b };
    if ab > c { ab } else { c }
}

/// Sky light a freshly opened position starts with: full above the column's surface or under
/// full sky light, otherwise one less than its brightest neighbour.
pub open spec fn opening_light(w: WorldManager, p: IVec3, surface_y: i32) -> u8 {
    if p.y > surface_y {
        15
    } else if w.light_at(gnbr(p, 2)) == 15 {
        15
    } else if brightest_neighbor(w, p) > 0 {
        (brightest_neighbor(w, p) - 1) as u8
    } else {
        0
    }
}

/// Each neighbour is at most as bright as the brightest one.
proof fn lemma_brightest_neighbor(w: WorldManager, p: IVec3, d: int)
    requires
        0 <= d < 6,
    ensures
        brightest_neighbor(w, p) >= w.light_at(gnbr(p, d)),
{
}

/// The opening light is at most one below the brightest neighbour.
proof fn lemma_opening_light_bound(w: WorldManager, p: IVec3, surface_y: i32)
    ensures
        opening_light(w, p, surface_y) + 1 >= brightest_neighbor(w, p),
        opening_light(w, p, surface_y) <= 15,
{
    lemma_light_at_max(w, gnbr(p, 0));
    lemma_light_at_max(w, gnbr(p, 1));
    lemma_light_at_max(w, gnbr(p, 2));
    lemma_light_at_max(w, gnbr(p, 3));
    lemma_light_at_max(w, gnbr(p, 4));
    lemma_light_at_max(w, gnbr(p, 5));
}

/// Opening a position keeps a stable position stable when its own light is unchanged, light
/// elsewhere only grew, and the opened position is at most one below its brightest neighbour.
proof fn lemma_opened_keeps_stable(w0: WorldManager, w: WorldManager, pos: IVec3, p: IVec3)
    requires
        p != pos,
        forall|q: IVec3| #[trigger] w.block_at(q) == if q == pos {
            BlockType::Air
        } else {
            w0.block_at(q)
        },
        w.chunks@.dom() == w0.chunks@.dom(),
        forall|q: IVec3| q != pos ==> #[trigger] w.light_at(q) >= w0.light_at(q),
        w.light_at(pos) + 1 >= brightest_neighbor(w0, pos),
        w.light_at(p) == w0.light_at(p),
        globally_stable(w0, p),
    ensures
        globally_stable(w, p),
{
    if pos_ok(p) && w.light_at(p) > 1 && w.block_at(p) == BlockType::Air {
        assert forall|d: int| 0 <= d < 6 implies {
            let n = #[trigger] gnbr(p, d);
            (in_world(n) && present(w, n) && w.block_at(n) == BlockType::Air) ==> w.light_at(n) + 1
                >= w.light_at(p)
        } by {
            let n = gnbr(p, d);
            lemma_gnbr_symmetric(p, d);
            assert(present(w, n) == present(w0, n));
            if n == pos {
                lemma_brightest_neighbor(w0, pos, gopposite(d));
            }
        }
    }
}

/// Filling a position keeps a stable position stable, where the chunk was loaded already or
/// the position lies outside it; a chunk loaded just now is either fully lit air or rock.
proof fn lemma_filled_keeps_stable(w0: WorldManager, w: WorldManager, pos: IVec3, p: IVec3)
    requires
        in_world(pos),
        w.block_at(pos) != BlockType::Air,
        forall|q: IVec3| q != pos ==> #[trigger] w.block_at(q) == w0.block_at(q),
        forall|q: IVec3|
            (present(w0, pos) || chunk_of(q) != chunk_of(pos)) ==> #[trigger] w.light_at(q)
                == w0.light_at(q) && present(w, q) == present(w0, q),
        !present(w0, pos) ==> forall|q: IVec3|
            chunk_of(q) == chunk_of(pos) && q != pos && chunk_of(pos).y >= 2 ==> #[trigger] w.light_at(q)
                == 15,
        !present(w0, pos) ==> forall|q: IVec3|
            chunk_of(q) == chunk_of(pos) && q != pos && chunk_of(pos).y < 2 ==> #[trigger] w.block_at(q)
                != BlockType::Air,
        present(w0, pos) || chunk_of(p) != chunk_of(pos),
        globally_stable(w0, p),
    ensures
        globally_stable(w, p),
{
    if p != pos && pos_ok(p) && w.light_at(p) > 1 && w.block_at(p) == BlockType::Air {
        lemma_light_at_max(w, p);
        assert forall|d: int| 0 <= d < 6 implies {
            let n = #[trigger] gnbr(p, d);
            (in_world(n) && present(w, n) && w.block_at(n) == BlockType::Air) ==> w.light_at(n) + 1
                >= w.light_at(p)
        } by {
            let n = gnbr(p, d);
            if n != pos && !present(w0, pos) && chunk_of(n) == chunk_of(pos) {
                if chunk_of(pos).y >= 2 {
                    assert(w.light_at(n) == 15);
                } else {
                    assert(w.block_at(n) != BlockType::Air);
                }
            }
        }
    }
}

impl WorldManager {
    /// Sky light a freshly opened position starts with.
    pub fn opening_light_at(&self, pos: IVec3, surface_y: i32) -> (r: u8)
        requires
            self.wf(),
            pos_ok(pos),
        ensures
            r == opening_light(*self, pos, surface_y),
            r <= 15,
    {
        if pos.y > surface_y {
            return 15;
        }
        let top_light = self.get_light_global(neighbor_pos(pos, 2));
        if top_light == 15 {
            return 15;
        }
        let mut max_adj: u8 = 0;
        let l0 = self.get_light_global(neighbor_pos(pos, 0));
        let l1 = self.get_light_global(neighbor_pos(pos, 1));
        let l2 = self.get_light_global(neighbor_pos(pos, 2));
        let l3 = self.get_light_global(neighbor_pos(pos, 3));
        let l4 = self.get_light_global(neighbor_pos(pos, 4));
        let l5 = self.get_light_global(neighbor_pos(pos, 5));
        let a = if l0 > l1 { l0 } else { l1 };
        let b = if l2 > l3 { l2 } else { l3 };
        let c = if l4 > l5 { l4 } else { l5 };
        let ab = if a > b { a } else { b };
        max_adj = if ab > c { ab } else { c };
        if max_adj > 0 {
            max_adj - 1
        } else {
            0
        }
    }

    /// Loads a fresh chunk where none is: rock below height 64, open sky above. Blocks and
    /// fluids read the same as before, since a missing chunk reads that way too.
    #[verifier::rlimit(40)]
    fn revive_chunk(&mut self, chunk_pos: IVec3)
        requires
            old(self).wf(),
            chunk_pos_bounded(chunk_pos),
            !old(self).chunks@.contains_key(chunk_key(chunk_pos)),
        ensures
            final(self).wf(),
            final(self).chunks@ == old(self).chunks@.insert(
                chunk_key(chunk_pos),
                final(self).chunks@[chunk_key(chunk_pos)],
            ),
            revived_entry_spec(chunk_pos, final(self).chunks@[chunk_key(chunk_pos)]),
            forall|p: IVec3| #[trigger] final(self).block_at(p) == old(self).block_at(p),
            forall|p: IVec3| #[trigger] final(self).fluid_at(p) == old(self).fluid_at(p),
            forall|p: IVec3|
                chunk_of(p) != chunk_pos ==> #[trigger] final(self).light_at(p) == old(
                    self,
                ).light_at(p),
            final(self).heightmap_cache == old(self).heightmap_cache,
            final(self).fluid_queue == old(self).fluid_queue,
            final(self).loading_chunks == old(self).loading_chunks,
            final(self).vacuum_chunks == old(self).vacuum_chunks,
            final(self).dirty_chunks_for_meshing == old(self).dirty_chunks_for_meshing,
            final(self).world_type == old(self).world_type,
            final(self).seed == old(self).seed,
    {
        let key = chunk_key_of(chunk_pos);
        let entry = Self::revived_entry(chunk_pos);
        let ghost e = entry;
        self.chunks.insert(key, entry);
        proof {
            assert(self.chunks@[key] == e);
            assert forall|k: u128| #[trigger] self.chunks@.contains_key(k) implies self.chunks@[k].wf() by {
                if k != key {
                    assert(old(self).chunks@.contains_key(k));
                }
            }
            assert forall|cp: IVec3| #[trigger] self.chunks@.contains_key(chunk_key(cp)) implies chunk_pos_bounded(
                cp,
            ) by {
                lemma_chunk_key_injective(cp, chunk_pos);
                if chunk_key(cp) != key {
                    assert(old(self).chunks@.contains_key(chunk_key(cp)));
                }
            }
            assert forall|p: IVec3| #[trigger] self.block_at(p) == old(self).block_at(p) by {
                if in_world(p) {
                    lemma_pos_decomp(p);
                    lemma_chunk_key_injective(chunk_of(p), chunk_pos);
                    if chunk_of(p) == chunk_pos {
                        assert(e.buffer.blocks@[local_index(p)] == if chunk_pos.y < 2 {
                            BlockType::Stone
                        } else {
                            BlockType::Air
                        });
                    }
                }
            }
            assert forall|p: IVec3| #[trigger] self.fluid_at(p) == old(self).fluid_at(p) by {
                if in_world(p) {
                    lemma_chunk_key_injective(chunk_of(p), chunk_pos);
                }
            }
            assert forall|p: IVec3|
                chunk_of(p) != chunk_pos implies #[trigger] self.light_at(p) == old(self).light_at(
                    p,
                ) by {
                lemma_chunk_key_injective(chunk_of(p), chunk_pos);
            }
        }
    }

    /// Writes a block into a loaded chunk, marks the chunk modified and queues it for meshing.
    /// Returns whether the chunk has no entity to draw it yet.
    #[verifier::rlimit(40)]
    fn write_block(&mut self, pos: IVec3, block: BlockType) -> (no_entity: bool)
        requires
            old(self).wf(),
            in_world(pos),
            present(*old(self), pos),
        ensures
            final(self).wf(),
            final(self).chunks@.dom() == old(self).chunks@.dom(),
            forall|p: IVec3|
                #[trigger] final(self).block_at(p) == if p == pos {
                    block
                } else {
                    old(self).block_at(p)
                },
            forall|p: IVec3| #[trigger] final(self).fluid_at(p) == old(self).fluid_at(p),
            forall|p: IVec3| #[trigger] final(self).light_at(p) == old(self).light_at(p),
            forall|k: u128|
                #[trigger] old(self).chunks@.contains_key(k) && k != chunk_key(chunk_of(pos))
                    ==> final(self).chunks@[k] == old(self).chunks@[k],
            ({
                let (a, b) = (
                    final(self).chunks@[chunk_key(chunk_of(pos))],
                    old(self).chunks@[chunk_key(chunk_of(pos))],
                );
                &&& a.light_buffer == b.light_buffer
                &&& a.fluid_buffer == b.fluid_buffer
                &&& a.entity == b.entity
                &&& a.is_modified
                &&& a.is_lighting_ready == b.is_lighting_ready
            }),
            no_entity == old(self).chunks@[chunk_key(chunk_of(pos))].entity is None,
            final(self).heightmap_cache == old(self).heightmap_cache,
            final(self).fluid_queue == old(self).fluid_queue,
            final(self).loading_chunks == old(self).loading_chunks,
            final(self).vacuum_chunks == old(self).vacuum_chunks,
            final(self).dirty_chunks_for_meshing@ == old(self).dirty_chunks_for_meshing@.insert(
                chunk_key(chunk_of(pos)),
            ),
            final(self).world_type == old(self).world_type,
            final(self).seed == old(self).seed,
    {
        let (chunk_pos, local) = Self::global_to_chunk_pos(pos);
        let key = chunk_key_of(chunk_pos);
        let ghost old_chunks = self.chunks@;
        proof {
            lemma_pos_decomp(pos);
        }
        let mut entry = match self.chunks.remove(&key) {
            Some(e) => e,
            None => {
                proof {
                    assert(false);
                }
                Self::revived_entry(chunk_pos)
            },
        };
        let idx = voxel_pos_to_index(local.x as usize, local.y as usize, local.z as usize);
        entry.buffer.blocks.set(idx, block);
        entry.is_modified = true;
        let no_entity = entry.entity.is_none();
        self.chunks.insert(key, entry);
        self.dirty_chunks_for_meshing.insert(key);
        proof {
            assert(self.chunks@.dom() =~= old_chunks.dom());
            assert forall|k: u128| #[trigger] self.chunks@.contains_key(k) implies self.chunks@[k].wf() by {
                if k != key {
                    assert(old_chunks.contains_key(k));
                }
            }
            assert forall|p: IVec3| #[trigger] self.block_at(p) == if p == pos {
                block
            } else {
                old(self).block_at(p)
            } by {
                if in_world(p) {
                    lemma_pos_decomp(p);
                    if chunk_of(p) != chunk_pos {
                        lemma_chunk_key_injective(chunk_of(p), chunk_pos);
                    } else if p != pos {
                        if local_index(p) == local_index(pos) {
                            lemma_same_slot(p, pos);
                        }
                    }
                }
            }
            assert forall|p: IVec3| #[trigger] self.fluid_at(p) == old(self).fluid_at(p) by {
                if in_world(p) && chunk_of(p) != chunk_pos {
                    lemma_chunk_key_injective(chunk_of(p), chunk_pos);
                }
            }
            assert forall|p: IVec3| #[trigger] self.light_at(p) == old(self).light_at(p) by {
                if in_world(p) && chunk_of(p) != chunk_pos {
                    lemma_chunk_key_injective(chunk_of(p), chunk_pos);
                }
            }
        }
        no_entity
    }
}


/// Light-preserving steps compose.
proof fn lemma_same_but_light_trans(a: WorldManager, b: WorldManager, c: WorldManager)
    requires
        same_but_light(a, b),
        same_but_light(b, c),
    ensures
        same_but_light(a, c),
{
    assert forall|k: u128| #[trigger] c.chunks@.contains_key(k) implies {
        let (x, y) = (a.chunks@[k], c.chunks@[k]);
        &&& x.buffer == y.buffer
        &&& x.fluid_buffer == y.fluid_buffer
        &&& x.entity == y.entity
        &&& x.is_modified == y.is_modified
        &&& x.is_lighting_ready == y.is_lighting_ready
    } by {
        assert(b.chunks@.contains_key(k));
    }
}

impl WorldManager {
    /// Relights a position that has just been opened up: it starts with its opening light and
    /// light spreads from it. Only the light and the meshing queue change.
    #[verifier::rlimit(40)]
    fn relight_opened(&mut self, pos: IVec3, surface_y: i32)
        requires
            old(self).wf(),
            in_world(pos),
            pos_ok(pos),
            present(*old(self), pos),
            old(self).block_at(pos) == BlockType::Air,
        ensures
            final(self).wf(),
            same_but_light(*final(self), *old(self)),
            final(self).light_at(pos) == opening_light(*old(self), pos, surface_y),
            globally_stable(*final(self), pos),
            forall|p: IVec3|
                p != pos ==> #[trigger] final(self).light_at(p) >= old(self).light_at(p),
            forall|p: IVec3|
                #[trigger] final(self).light_at(p) != old(self).light_at(p) ==> {
                    &&& in_world(p)
                    &&& present(*old(self), p)
                    &&& globally_stable(*final(self), p)
                },
            forall|p: IVec3|
                p != pos && #[trigger] final(self).light_at(p) != old(self).light_at(p) ==> {
                    &&& old(self).block_at(p) == BlockType::Air
                    &&& globally_supported(*final(self), p)
                    &&& final(self).light_at(p) < final(self).light_at(pos)
                },
    {
        let start = self.opening_light_at(pos, surface_y);
        let ghost w0 = *self;
        self.set_light_global(pos, start);
        let ghost w1 = *self;
        proof {
            assert((start & 0x0Fu8) == start) by (bit_vector)
                requires
                    start <= 15,
            ;
            assert(same_but_light(w1, w0));
        }
        let mut queue: VecDeque<IVec3> = VecDeque::new();
        queue.push_back(pos);
        proof {
            assert(queue@[0] == pos);
            assert(queue@.contains(pos));
        }
        let ghost q = queue@;
        propagate_sky_light_global(self, queue);
        proof {
            lemma_same_but_light_trans(*self, w1, w0);
            if self.light_at(pos) != w1.light_at(pos) {
                let i = choose|i: int| 0 <= i < q.len() && self.light_at(pos) < w1.light_at(#[trigger] q[i]);
                assert(q[i] == pos);
            }
            assert(self.light_at(pos) == start);
            assert forall|p: IVec3| #[trigger] self.light_at(p) != w0.light_at(p) implies {
                &&& in_world(p)
                &&& present(w0, p)
                &&& globally_stable(*self, p)
            } by {
                if p != pos {
                    assert(w1.light_at(p) == w0.light_at(p));
                }
            }
            assert forall|p: IVec3|
                p != pos && #[trigger] self.light_at(p) != w0.light_at(p) implies {
                    &&& w0.block_at(p) == BlockType::Air
                    &&& globally_supported(*self, p)
                    &&& self.light_at(p) < self.light_at(pos)
                } by {
                assert(w1.light_at(p) == w0.light_at(p));
                let i = choose|i: int| 0 <= i < q.len() && self.light_at(p) < w1.light_at(#[trigger] q[i]);
                assert(q[i] == pos);
            }
        }
    }

    /// Relights around a position that has just been filled: its light is taken away, and the
    /// light it carried is removed from the positions lit through it and spread back from what
    /// remains lit around them. Only the light and the meshing queue change.
    #[verifier::rlimit(40)]
    fn relight_closed(&mut self, pos: IVec3)
        requires
            old(self).wf(),
            in_world(pos),
            present(*old(self), pos),
            old(self).block_at(pos) != BlockType::Air,
        ensures
            final(self).wf(),
            same_but_light(*final(self), *old(self)),
            final(self).light_at(pos) == 0,
            forall|p: IVec3|
                #[trigger] final(self).light_at(p) != old(self).light_at(p) ==> in_world(p)
                    && present(*old(self), p) && globally_stable(*final(self), p),
            forall|p: IVec3|
                p != pos && old(self).light_at(p) == 15 ==> #[trigger] final(self).light_at(p) == 15,
            old(self).light_at(pos) == 0 ==> *final(self) == *old(self),
            forall|p: IVec3|
                p != pos && #[trigger] final(self).light_at(p) != old(self).light_at(p)
                    ==> final(self).light_at(p) == 0 || globally_supported(*final(self), p),
            forall|p: IVec3|
                inner_pos_ok(p) && globally_stable(*old(self), p) ==> #[trigger] globally_stable(
                    *final(self),
                    p,
                ),
            forall|p: IVec3|
                p != pos && #[trigger] final(self).light_at(p) < old(self).light_at(p) ==> lit_through(
                    *old(self),
                    pos,
                    p,
                ),
    {
        let old_light = self.get_light_global(pos);
        if old_light > 0 {
            let ghost w0 = *self;
            self.set_light_global(pos, 0);
            let ghost w1 = *self;
            proof {
                assert((0u8 & 0x0Fu8) == 0u8) by (bit_vector);
                assert(w1.light_at(pos) == 0);
            }
            let mut remove_queue: VecDeque<(IVec3, u8)> = VecDeque::new();
            remove_queue.push_back((pos, old_light));
            let ghost remove_queue_view = remove_queue@;
            let mut propagate_queue: VecDeque<IVec3> = VecDeque::new();
            proof {
                assert(remove_queue@[0] == (pos, old_light));
            }
            remove_sky_light_global(self, remove_queue, &mut propagate_queue);
            let ghost w2 = *self;
            let ghost pq = propagate_queue@;
            propagate_sky_light_global(self, propagate_queue);
            proof {
                assert forall|p: IVec3|
                    p != pos && #[trigger] self.light_at(p) < w0.light_at(p) implies lit_through(w0, pos, p) by {
                    assert(w2.light_at(p) != w1.light_at(p));
                    assert(removal_reaches(w1, remove_queue_view, p));
                    let (path, i) = choose|path: Seq<IVec3>, i: int|
                        0 <= i < remove_queue_view.len() && path[0] == remove_queue_view[i].0 && path.last() == p
                            && #[trigger] dimming_path(w1, path, remove_queue_view[i].1);
                    assert(i == 0);
                    assert forall|j: int| 1 <= j < path.len() implies w0.light_at(#[trigger] path[j])
                        == w1.light_at(path[j]) by {
                        assert(0 < w1.light_at(path[j]));
                    }
                    lemma_dimming_transfer(w1, w0, path, old_light);
                    assert(dimming_path(w0, path, w0.light_at(pos)));
                }
                assert forall|p: IVec3|
                    p != pos && #[trigger] self.light_at(p) != w0.light_at(p) implies self.light_at(p)
                        == 0 || globally_supported(*self, p) by {
                    if self.light_at(p) == w2.light_at(p) {
                        assert(w2.light_at(p) != w1.light_at(p));
                    }
                }
                assert forall|p: IVec3| inner_pos_ok(p) && globally_stable(w0, p) implies #[trigger] globally_stable(
                    *self,
                    p,
                ) by {
                    if self.light_at(p) == w0.light_at(p) && pos_ok(p) && self.light_at(p) > 1
                        && self.block_at(p) == BlockType::Air && !globally_stable(*self, p) {
                        let d = choose|d: int| 0 <= d < 6 && !({
                            let n = #[trigger] gnbr(p, d);
                            (in_world(n) && present(*self, n) && self.block_at(n) == BlockType::Air)
                                ==> self.light_at(n) + 1 >= self.light_at(p)
                        });
                        let n = gnbr(p, d);
                        lemma_gnbr_symmetric(p, d);
                        assert(present(*self, n) == present(w0, n));
                        assert(w0.light_at(n) + 1 >= w0.light_at(p));
                        assert(n != pos);
                        assert(w1.light_at(n) == w0.light_at(n));
                        assert(w2.light_at(n) != w1.light_at(n));
                        assert(handed_over(w2, pq, n));
                        assert(gnbr(n, gopposite(d)) == p);
                        assert(w2.light_at(p) == 0 || pq.contains(p));
                        assert(globally_stable(*self, p));
                    }
                }
                lemma_same_but_light_trans(w2, w1, w0);
                lemma_same_but_light_trans(*self, w2, w0);
                assert(w2.light_at(pos) <= w1.light_at(pos));
                assert(self.light_at(pos) == w2.light_at(pos));
                assert forall|p: IVec3| #[trigger] self.light_at(p) != w0.light_at(p) implies in_world(p)
                    && present(w0, p) && globally_stable(*self, p) by {
                    if self.light_at(p) == w2.light_at(p) {
                        if w2.light_at(p) == w1.light_at(p) {
                            assert(p == pos);
                        }
                        assert(w2.light_at(p) == 0);
                    }
                }
                assert forall|p: IVec3| p != pos && w0.light_at(p) == 15 implies #[trigger] self.light_at(p)
                    == 15 by {
                    assert(w1.light_at(p) == 15);
                    assert(w2.light_at(p) == 15);
                    crate::world_light::lemma_light_at_max(*self, p);
                }
            }
        }
    }
}


impl WorldManager {
    /// Places or removes a block at a world position. Positions outside the world, and air
    /// written where no chunk is loaded, change nothing. Otherwise a missing chunk is loaded
    /// fresh (rock below height 64, open sky above), the block is written, the chunk is marked
    /// modified and queued for meshing together with its loaded neighbours across the faces
    /// the position touches (all faces for a fresh chunk), and light is brought up to date:
    /// an opened position starts with its opening light measured against the column surface
    /// (`surface_for(world_type, hills_surface_y)`) and light spreads from it; a filled
    /// position goes dark and the light it carried is taken away and spread back. The chunk's
    /// light is then marked settled. Returns the chunk position when a block that is not air
    /// went into a chunk that has no entity drawing it yet, which the caller then creates.
    #[verifier::rlimit(100)]
    #[verifier::spinoff_prover]
    pub fn set_block_global(&mut self, pos: IVec3, block: BlockType, hills_surface_y: i32) -> (r:
        Option<IVec3>)
        requires
            old(self).wf(),
            in_world(pos) ==> pos_ok(pos),
        ensures
            final(self).wf(),
            !in_world(pos) || (!present(*old(self), pos) && block == BlockType::Air) ==> {
                &&& *final(self) == *old(self)
                &&& r is None
            },
            in_world(pos) && (present(*old(self), pos) || block != BlockType::Air) ==> {
                let k = chunk_key(chunk_of(pos));
                let e = final(self).chunks@[k];
                &&& forall|p: IVec3|
                    #[trigger] final(self).block_at(p) == if p == pos {
                        block
                    } else {
                        old(self).block_at(p)
                    }
                &&& forall|p: IVec3| #[trigger] final(self).fluid_at(p) == old(self).fluid_at(p)
                &&& final(self).chunks@.dom() == old(self).chunks@.dom().insert(k)
                &&& e.is_modified
                &&& e.is_lighting_ready
                &&& e.entity == if present(*old(self), pos) {
                    old(self).chunks@[k].entity
                } else {
                    None
                }
                &&& forall|kk: u128|
                    #[trigger] old(self).chunks@.contains_key(kk) && kk != k ==> {
                        let (x, y) = (final(self).chunks@[kk], old(self).chunks@[kk]);
                        &&& x.buffer == y.buffer
                        &&& x.fluid_buffer == y.fluid_buffer
                        &&& x.entity == y.entity
                        &&& x.is_modified == y.is_modified
                        &&& x.is_lighting_ready == y.is_lighting_ready
                    }
                &&& final(self).dirty_chunks_for_meshing@.contains(k)
                &&& old(self).dirty_chunks_for_meshing@.subset_of(
                    final(self).dirty_chunks_for_meshing@,
                )
                &&& forall|p: IVec3|
                    #[trigger] final(self).light_at(p) != old(self).light_at(p) ==> in_world(p)
                        && present(*final(self), p)
                &&& block == BlockType::Air ==> {
                    &&& final(self).light_at(pos) == opening_light(
                        *old(self),
                        pos,
                        surface_for(old(self).world_type, hills_surface_y),
                    )
                    &&& globally_stable(*final(self), pos)
                    &&& forall|p: IVec3|
                        #[trigger] final(self).light_at(p) != old(self).light_at(p)
                            ==> globally_stable(*final(self), p)
                    &&& forall|p: IVec3|
                        p != pos && #[trigger] final(self).light_at(p) != old(self).light_at(p)
                            ==> final(self).light_at(p) < final(self).light_at(pos)
                            && globally_supported(*final(self), p)
                    &&& forall|p: IVec3| p != pos ==> #[trigger] final(self).light_at(p) >= old(self).light_at(p)
                }
                &&& block != BlockType::Air && present(*old(self), pos) ==> forall|p: IVec3|
                    p != pos && #[trigger] final(self).light_at(p) < old(self).light_at(p) ==> lit_through(
                        *old(self),
                        pos,
                        p,
                    )
                &&& block != BlockType::Air ==> final(self).light_at(pos) == 0
                &&& block != BlockType::Air ==> forall|p: IVec3|
                    p != pos && (present(*old(self), pos) || chunk_of(p) != chunk_of(pos))
                        && #[trigger] final(self).light_at(p) != old(self).light_at(p)
                        ==> final(self).light_at(p) == 0 || globally_supported(*final(self), p)
                &&& forall|p: IVec3|
                    (block == BlockType::Air || inner_pos_ok(p)) && (present(*old(self), pos)
                        || chunk_of(p) != chunk_of(pos)) && globally_stable(*old(self), p)
                        ==> #[trigger] globally_stable(*final(self), p)
                &&& !present(*old(self), pos) ==> forall|p: IVec3|
                    chunk_of(p) == chunk_of(pos) && p != pos ==> #[trigger] final(self).light_at(p)
                        == if chunk_of(pos).y >= 2 {
                        15u8
                    } else {
                        0u8
                    }
                &&& block != BlockType::Air ==> forall|p: IVec3|
                    (present(*old(self), pos) || chunk_of(p) != chunk_of(pos))
                        && #[trigger] final(self).light_at(p) != old(self).light_at(p)
                        ==> globally_stable(*final(self), p)
                &&& forall|k: u128|
                    remeshed_neighbor(*old(self), chunk_of(pos), local_of(pos), !present(*old(self), pos), k)
                        ==> #[trigger] final(self).dirty_chunks_for_meshing@.contains(k)
                &&& r == if block != BlockType::Air && e.entity is None {
                    Some(chunk_of(pos))
                } else {
                    None
                }
            },
            final(self).heightmap_cache@ == old(self).heightmap_cache@,
            final(self).fluid_queue@ == old(self).fluid_queue@,
            final(self).loading_chunks@ == old(self).loading_chunks@,
            final(self).vacuum_chunks@ == old(self).vacuum_chunks@,
            final(self).world_type == old(self).world_type,
            final(self).seed == old(self).seed,
    {
        if pos.y < 0 || pos.y >= 256 {
            return None;
        }
        let (chunk_pos, local) = Self::global_to_chunk_pos(pos);
        let key = chunk_key_of(chunk_pos);
        proof {
            lemma_pos_decomp(pos);
        }
        let ghost w0 = *self;
        let mut is_revived = false;
        if !self.chunks.contains_key(&key) {
            if block == BlockType::Air {
                return None;
            }
            self.revive_chunk(chunk_pos);
            is_revived = true;
        }
        let ghost w1 = *self;
        let no_entity = self.write_block(pos, block);
        let ghost w2 = *self;
        self.mark_face_neighbors_dirty(chunk_pos, local, is_revived);
        let ghost w3 = *self;
        proof {
            assert forall|k: u128|
                remeshed_neighbor(w0, chunk_pos, local, is_revived, k) implies #[trigger] w3.dirty_chunks_for_meshing@.contains(k) by {
                let i = choose|i: int|
                    0 <= i < 6 && touches_face(local, i, is_revived) && k == chunk_key(
                        #[trigger] face_neighbor(chunk_pos, i),
                    ) && w0.chunks@.contains_key(k);
                assert(w1.chunks@.contains_key(k));
                assert(w2.chunks@.contains_key(k));
                assert(remeshed_neighbor(w2, chunk_pos, local, is_revived, k));
            }
            assert forall|p: IVec3| #[trigger] w3.block_at(p) == w2.block_at(p) by {}
            assert forall|p: IVec3| #[trigger] w3.light_at(p) == w2.light_at(p) by {}
            assert(same_but_light(w3, w2));
        }
        if block == BlockType::Air {
            let surface_y = surface_height_for(self.world_type, hills_surface_y);
            proof {
                assert forall|p: IVec3| #[trigger] w3.light_at(p) == w0.light_at(p) by {}
                assert(opening_light(w3, pos, surface_y) == opening_light(w0, pos, surface_y));
            }
            self.relight_opened(pos, surface_y);
        } else {
            self.relight_closed(pos);
        }
        let ghost w4 = *self;
        proof {
            if is_revived {
                assert((0xF0u8 >> 4u8) == 15u8) by (bit_vector);
                assert((0u8 >> 4u8) == 0u8) by (bit_vector);
                assert(w1.light_at(pos) == if chunk_pos.y >= 2 { 15u8 } else { 0u8 });
                assert forall|p: IVec3| chunk_of(p) == chunk_pos && p != pos implies #[trigger] w4.light_at(p)
                    == if chunk_pos.y >= 2 {
                    15u8
                } else {
                    0u8
                } by {
                    lemma_pos_decomp(p);
                    assert(in_world(p));
                    assert(w1.light_at(p) == if chunk_pos.y >= 2 { 15u8 } else { 0u8 });
                    assert(w3.light_at(p) == w1.light_at(p));
                }
            }
        }
        let mut entry = match self.chunks.remove(&key) {
            Some(e) => e,
            None => {
                proof {
                    assert(false);
                }
                Self::revived_entry(chunk_pos)
            },
        };
        entry.is_lighting_ready = true;
        self.chunks.insert(key, entry);
        proof {
            assert(self.chunks@.dom() =~= w4.chunks@.dom());
            assert forall|k: u128| #[trigger] self.chunks@.contains_key(k) implies self.chunks@[k].wf() by {
                if k != key {
                    assert(w4.chunks@.contains_key(k));
                }
            }
            assert forall|p: IVec3| #[trigger] self.block_at(p) == w4.block_at(p) by {
                if in_world(p) && chunk_of(p) != chunk_pos {
                    lemma_chunk_key_injective(chunk_of(p), chunk_pos);
                }
            }
            assert forall|p: IVec3| #[trigger] self.fluid_at(p) == w4.fluid_at(p) by {
                if in_world(p) && chunk_of(p) != chunk_pos {
                    lemma_chunk_key_injective(chunk_of(p), chunk_pos);
                }
            }
            assert forall|p: IVec3| #[trigger] self.light_at(p) == w4.light_at(p) by {
                if in_world(p) && chunk_of(p) != chunk_pos {
                    lemma_chunk_key_injective(chunk_of(p), chunk_pos);
                }
            }
            lemma_same_but_light_trans(w4, w3, w2);
            assert(w1.chunks@.dom() == w0.chunks@.dom().insert(key));
            assert forall|p: IVec3| #[trigger] self.light_at(p) != w0.light_at(p) implies in_world(p)
                && present(*self, p) by {
                if w4.light_at(p) == w2.light_at(p) {
                    assert(w1.light_at(p) != w0.light_at(p));
                    assert(chunk_of(p) == chunk_pos);
                    assert(in_world(p));
                }
            }
            if block == BlockType::Air {
                assert(w1 == w0);
                assert(globally_stable(*self, pos));
                assert forall|p: IVec3| #[trigger] self.light_at(p) != w0.light_at(p) implies globally_stable(
                    *self,
                    p,
                ) by {}
                assert forall|p: IVec3|
                    p != pos && #[trigger] self.light_at(p) != w0.light_at(p) implies self.light_at(p)
                        < self.light_at(pos) && globally_supported(*self, p) by {
                    assert(w4.light_at(p) != w3.light_at(p));
                    let d = choose|d: int| 0 <= d < 6 && w4.light_at(#[trigger] gnbr(p, d)) >= w4.light_at(p) + 1;
                    assert(self.light_at(gnbr(p, d)) == w4.light_at(gnbr(p, d)));
                }
                let sy = surface_for(w0.world_type, hills_surface_y);
                assert(brightest_neighbor(w3, pos) == brightest_neighbor(w0, pos)) by {
                    assert(w3.light_at(gnbr(pos, 0)) == w0.light_at(gnbr(pos, 0)));
                    assert(w3.light_at(gnbr(pos, 1)) == w0.light_at(gnbr(pos, 1)));
                    assert(w3.light_at(gnbr(pos, 2)) == w0.light_at(gnbr(pos, 2)));
                    assert(w3.light_at(gnbr(pos, 3)) == w0.light_at(gnbr(pos, 3)));
                    assert(w3.light_at(gnbr(pos, 4)) == w0.light_at(gnbr(pos, 4)));
                    assert(w3.light_at(gnbr(pos, 5)) == w0.light_at(gnbr(pos, 5)));
                }
                lemma_opening_light_bound(w3, pos, sy);
                assert(self.light_at(pos) + 1 >= brightest_neighbor(w0, pos));
                assert forall|q: IVec3| #[trigger] self.block_at(q) == if q == pos {
                    BlockType::Air
                } else {
                    w0.block_at(q)
                } by {
                    assert(self.block_at(q) == w4.block_at(q));
                    assert(w3.block_at(q) == w2.block_at(q));
                }
                assert forall|q: IVec3| q != pos implies #[trigger] self.light_at(q) >= w0.light_at(q) by {
                    assert(self.light_at(q) == w4.light_at(q));
                }
                assert forall|p: IVec3|
                    (block == BlockType::Air || inner_pos_ok(p)) && (present(w0, pos) || chunk_of(p)
                        != chunk_of(pos)) && globally_stable(w0, p) implies #[trigger] globally_stable(*self, p) by {
                    if p != pos && self.light_at(p) == w0.light_at(p) {
                        lemma_opened_keeps_stable(w0, *self, pos, p);
                    }
                }
            } else {
                assert forall|q: IVec3| q != pos implies #[trigger] w3.block_at(q) == w0.block_at(q) by {
                    assert(w3.block_at(q) == w2.block_at(q));
                    assert(w1.block_at(q) == w0.block_at(q));
                }
                assert forall|q: IVec3|
                    (present(w0, pos) || chunk_of(q) != chunk_of(pos)) implies #[trigger] w3.light_at(q)
                        == w0.light_at(q) && present(w3, q) == present(w0, q) by {
                    if !present(w0, pos) {
                        lemma_chunk_key_injective(chunk_of(q), chunk_pos);
                    }
                }
                if is_revived {
                    assert((0xF0u8 >> 4u8) == 15u8) by (bit_vector);
                    assert forall|q: IVec3|
                        chunk_of(q) == chunk_of(pos) && q != pos && chunk_of(pos).y >= 2 implies #[trigger] w3.light_at(q)
                            == 15 by {
                        lemma_pos_decomp(q);
                        assert(w3.light_at(q) == w1.light_at(q));
                    }
                    assert forall|q: IVec3|
                        chunk_of(q) == chunk_of(pos) && q != pos && chunk_of(pos).y < 2 implies #[trigger] w3.block_at(q)
                            != BlockType::Air by {
                        lemma_pos_decomp(q);
                        assert(w1.block_at(q) == w0.block_at(q));
                    }
                }
                assert forall|p: IVec3|
                    (block == BlockType::Air || inner_pos_ok(p)) && (present(w0, pos) || chunk_of(p)
                        != chunk_of(pos)) && globally_stable(w0, p) implies #[trigger] globally_stable(*self, p) by {
                    lemma_filled_keeps_stable(w0, w3, pos, p);
                    assert(globally_stable(w4, p));
                }
                if !is_revived {
                    assert forall|p: IVec3|
                        p != pos && #[trigger] self.light_at(p) < w0.light_at(p) implies lit_through(w0, pos, p) by {
                        assert(w4.light_at(p) < w3.light_at(p));
                        assert(lit_through(w3, pos, p));
                        let path = choose|path: Seq<IVec3>|
                            path[0] == pos && path.last() == p && #[trigger] dimming_path(w3, path, w3.light_at(pos));
                        assert forall|j: int| 1 <= j < path.len() implies w0.light_at(#[trigger] path[j])
                            == w3.light_at(path[j]) by {}
                        lemma_dimming_transfer(w3, w0, path, w3.light_at(pos));
                        assert(dimming_path(w0, path, w0.light_at(pos)));
                    }
                }
                assert forall|p: IVec3|
                    (present(w0, pos) || chunk_of(p) != chunk_of(pos)) && #[trigger] self.light_at(p)
                        != w0.light_at(p) implies globally_stable(*self, p) by {
                    assert(w4.light_at(p) != w3.light_at(p));
                    assert(globally_stable(w4, p));
                }
                assert forall|p: IVec3|
                    p != pos && (present(w0, pos) || chunk_of(p) != chunk_of(pos)) && #[trigger] self.light_at(p)
                        != w0.light_at(p) implies self.light_at(p) == 0 || globally_supported(*self, p) by {
                    assert(w4.light_at(p) != w3.light_at(p));
                    if w4.light_at(p) != 0 {
                        let d = choose|d: int| 0 <= d < 6 && w4.light_at(#[trigger] gnbr(p, d)) >= w4.light_at(p) + 1;
                        assert(self.light_at(gnbr(p, d)) == w4.light_at(gnbr(p, d)));
                    }
                }
            }
            assert forall|kk: u128|
                #[trigger] w0.chunks@.contains_key(kk) && kk != key implies {
                    let (x, y) = (self.chunks@[kk], w0.chunks@[kk]);
                    &&& x.buffer == y.buffer
                    &&& x.fluid_buffer == y.fluid_buffer
                    &&& x.entity == y.entity
                    &&& x.is_modified == y.is_modified
                    &&& x.is_lighting_ready == y.is_lighting_ready
                } by {
                assert(w1.chunks@.contains_key(kk));
                assert(w1.chunks@[kk] == w0.chunks@[kk]);
                assert(w2.chunks@[kk] == w1.chunks@[kk]);
                assert(w3.chunks == w2.chunks);
                assert(w4.chunks@.contains_key(kk));
                assert(self.chunks@[kk] == w4.chunks@[kk]);
            }
        }
        if block != BlockType::Air && no_entity {
            Some(chunk_pos)
        } else {
            None
        }
    }
}


/// Keys of the loaded chunks that have an entity drawing them.
pub open spec fn drawn_keys(m: Map<u128, ChunkEntry>) -> Set<u128> {
    m.dom().filter(|k: u128| m[k].entity is Some)
}

/// Number of keys in a list whose chunk has an entity drawing it.
pub open spec fn count_drawn(m: Map<u128, ChunkEntry>, ks: Seq<u128>) -> nat
    decreases ks.len(),
{
    if ks.len() == 0 {
        0
    } else {
        count_drawn(m, ks.drop_last()) + if m[ks.last()].entity is Some {
            1nat
        } else {
            0nat
        }
    }
}

proof fn lemma_count_drawn_set(m: Map<u128, ChunkEntry>, ks: Seq<u128>)
    requires
        ks.no_duplicates(),
    ensures
        count_drawn(m, ks) == ks.to_set().filter(|k: u128| m[k].entity is Some).len(),
        ks.to_set().filter(|k: u128| m[k].entity is Some).finite(),
    decreases ks.len(),
{
    broadcast use vstd::seq_lib::seq_to_set_is_finite;

    let pred = |k: u128| m[k].entity is Some;
    if ks.len() == 0 {
        assert(ks.to_set().filter(pred) =~= Set::<u128>::empty());
    } else {
        let rest = ks.drop_last();
        let x = ks.last();
        assert(rest.no_duplicates()) by {
            assert forall|i: int, j: int| 0 <= i < rest.len() && 0 <= j < rest.len() && i != j implies rest[i]
                != rest[j] by {
                assert(rest[i] == ks[i] && rest[j] == ks[j]);
            }
        }
        lemma_count_drawn_set(m, rest);
        assert(ks.to_set() =~= rest.to_set().insert(x)) by {
            assert forall|k: u128| ks.to_set().contains(k) implies rest.to_set().insert(x).contains(k) by {
                let i = choose|i: int| 0 <= i < ks.len() && ks[i] == k;
                if i < ks.len() - 1 {
                    assert(rest[i] == k);
                }
            }
            assert forall|k: u128| rest.to_set().insert(x).contains(k) implies ks.to_set().contains(k) by {
                if k != x {
                    let i = choose|i: int| 0 <= i < rest.len() && rest[i] == k;
                    assert(ks[i] == k);
                } else {
                    assert(ks[ks.len() - 1] == x);
                }
            }
        }
        assert(!rest.to_set().contains(x)) by {
            if rest.to_set().contains(x) {
                let i = choose|i: int| 0 <= i < rest.len() && rest[i] == x;
                assert(ks[i] == ks[ks.len() - 1]);
            }
        }
        if pred(x) {
            assert(ks.to_set().filter(pred) =~= rest.to_set().filter(pred).insert(x));
        } else {
            assert(ks.to_set().filter(pred) =~= rest.to_set().filter(pred));
        }
    }
}

impl WorldManager {
    /// The chunk handed to a new entity drawing the loaded chunk at `chunk_pos`: its blocks and
    /// light, its counter of non-air voxels, marked as needing a mesh and as modified when the
    /// loaded chunk is. `None` when no chunk is loaded there.
    pub fn chunk_for_entity(&self, chunk_pos: IVec3) -> (r: Option<Chunk>)
        requires
            self.wf(),
        ensures
            match self.entry_at(chunk_pos) {
                None => r is None,
                Some(e) => r matches Some(c) && {
                    &&& c.wf()
                    &&& c.position == chunk_pos
                    &&& c.buffer.blocks@ == e.buffer.blocks@
                    &&& c.light_buffer.light_data@ == e.light_buffer.light_data@
                    &&& c.is_dirty
                    &&& c.is_modified == e.is_modified
                },
            },
    {
        match self.get_chunk_ref(chunk_pos) {
            None => None,
            Some(entry) => {
                proof {
                    assert(self.chunks@.contains_key(chunk_key(chunk_pos)));
                }
                let buffer = entry.buffer.copy();
                let light_buffer = entry.light_buffer.copy();
                let non_air_count = buffer.non_air_count();
                Some(
                    Chunk {
                        position: chunk_pos,
                        buffer,
                        light_buffer,
                        is_dirty: true,
                        is_modified: entry.is_modified,
                        non_air_count,
                    },
                )
            },
        }
    }

    /// Records the entity drawing the loaded chunk at `chunk_pos`; nothing changes when no
    /// chunk is loaded there.
    pub fn attach_entity(&mut self, chunk_pos: IVec3, entity: u64)
        requires
            old(self).wf(),
        ensures
            final(self).wf(),
            final(self).chunks@.dom() == old(self).chunks@.dom(),
            forall|k: u128|
                #[trigger] old(self).chunks@.contains_key(k) ==> final(self).chunks@[k] == if k
                    == chunk_key(chunk_pos) {
                    ChunkEntry { entity: Some(entity), ..old(self).chunks@[k] }
                } else {
                    old(self).chunks@[k]
                },
            final(self).loading_chunks == old(self).loading_chunks,
            final(self).vacuum_chunks == old(self).vacuum_chunks,
            final(self).heightmap_cache == old(self).heightmap_cache,
            final(self).dirty_chunks_for_meshing == old(self).dirty_chunks_for_meshing,
            final(self).fluid_queue == old(self).fluid_queue,
            final(self).world_type == old(self).world_type,
            final(self).seed == old(self).seed,
    {
        let key = chunk_key_of(chunk_pos);
        let ghost old_chunks = self.chunks@;
        match self.chunks.remove(&key) {
            Some(mut entry) => {
                entry.entity = Some(entity);
                self.chunks.insert(key, entry);
                proof {
                    assert(self.chunks@.dom() =~= old_chunks.dom());
                    assert forall|k: u128| #[trigger] self.chunks@.contains_key(k) implies self.chunks@[k].wf() by {
                        if k != key {
                            assert(old_chunks.contains_key(k));
                        }
                    }
                }
            },
            None => {
                proof {
                    assert(self.chunks@ =~= old_chunks);
                }
            },
        }
    }

    /// Number of loaded chunks that have an entity drawing them.
    pub fn chunk_entity_count(&self) -> (r: usize)
        ensures
            r == drawn_keys(self.chunks@).len(),
    {
        let mut count: usize = 0;
        let total = self.chunks.len();
        let ghost m = self.chunks@;
        let ghost ks = vstd::std_specs::hash::spec_keys_iter(&self.chunks).remaining().unref();
        proof {
            vstd::std_specs::hash::axiom_spec_keys_iter(&self.chunks);
            assert(ks.len() == m.dom().len());
        }
        for k in it: self.chunks.keys()
            invariant
                it.seq() == vstd::std_specs::hash::spec_keys_iter(&self.chunks).remaining(),
                ks == it.seq().unref(),
                m == self.chunks@,
                0 <= it.index() <= ks.len(),
                ks.len() == m.dom().len(),
                ks.len() == total,
                count == count_drawn(m, ks.take(it.index())),
                count <= it.index(),
        {
            proof {
                assert(ks.take(it.index() + 1).drop_last() =~= ks.take(it.index()));
                assert(*k == ks[it.index()]);
            }
            let e = self.chunks.get(k);
            match e {
                Some(entry) => {
                    if entry.entity.is_some() {
                        count = count + 1;
                    }
                },
                None => {},
            }
        }
        proof {
            assert(ks.take(ks.len() as int) =~= ks);
            lemma_count_drawn_set(m, ks);
        }
        count
    }
}

} // verus!
