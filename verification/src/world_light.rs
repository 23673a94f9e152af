use vstd::prelude::*;
use crate::voxel::BlockType;
use crate::math::IVec3;
use crate::world::{WorldManager, ChunkEntry, chunk_of, in_world, lemma_pos_decomp};
use crate::lighting::{darkness, lemma_darkness_update, lemma_sky_of_bound};
use crate::chunk::sky_of;
use std::collections::VecDeque;

verus! {

broadcast use vstd::std_specs::hash::group_hash_axioms;

/// Neighbour of a world position in direction `d`: +X, -X, +Y, -Y, +Z, -Z.
pub open spec fn gnbr(p: IVec3, d: int) -> IVec3 {
    if d == 0 {
        IVec3 { x: (p.x + 1) as i32, y: p.y, z: p.z }
    } else if d == 1 {
        IVec3 { x: (p.x - 1) as i32, y: p.y, z: p.z }
    } else if d == 2 {
        IVec3 { x: p.x, y: (p.y + 1) as i32, z: p.z }
    } else if d == 3 {
        IVec3 { x: p.x, y: (p.y - 1) as i32, z: p.z }
    } else if d == 4 {
        IVec3 { x: p.x, y: p.y, z: (p.z + 1) as i32 }
    } else {
        IVec3 { x: p.x, y: p.y, z: (p.z - 1) as i32 }
    }
}

/// The direction opposite to `d`.
pub open spec fn gopposite(d: int) -> int {
    if d % 2 == 0 {
        d + 1
    } else {
        d - 1
    }
}

/// Coordinates whose neighbours are all representable.
pub open spec fn pos_ok(p: IVec3) -> bool {
    &&& -2147483647 <= p.x <= 2147483646
    &&& -2147483647 <= p.y <= 2147483646
    &&& -2147483647 <= p.z <= 2147483646
}

/// Coordinates whose neighbours' neighbours are all representable.
pub open spec fn inner_pos_ok(p: IVec3) -> bool {
    &&& -2147483646 <= p.x <= 2147483645
    &&& -2147483646 <= p.y <= 2147483645
    &&& -2147483646 <= p.z <= 2147483645
}

/// Coordinates whose neighbours are all representable.
pub fn is_pos_ok(p: IVec3) -> (r: bool)
    ensures
        r == pos_ok(p),
{
    -2147483647 <= p.x && p.x <= 2147483646 && -2147483647 <= p.y && p.y <= 2147483646
        && -2147483647 <= p.z && p.z <= 2147483646
}

/// Whether the chunk holding a world position is loaded.
pub open spec fn present(w: WorldManager, p: IVec3) -> bool {
    w.entry_at(chunk_of(p)) is Some
}

/// A position lets no sky light through to a loaded air neighbour that is more than one
/// level darker; positions with light of at most one, or that are not air, hold nothing back,
/// and neither do positions on the edge of the 32-bit coordinate range.
pub open spec fn globally_stable(w: WorldManager, p: IVec3) -> bool {
    ||| !pos_ok(p)
    ||| w.light_at(p) <= 1
    ||| w.block_at(p) != BlockType::Air
    ||| forall|d: int|
        0 <= d < 6 ==> {
            let n = #[trigger] gnbr(p, d);
            (in_world(n) && present(w, n) && w.block_at(n) == BlockType::Air) ==> w.light_at(n) + 1
                >= w.light_at(p)
        }
}

/// A position has a neighbour at least one level brighter.
pub open spec fn globally_supported(w: WorldManager, p: IVec3) -> bool {
    exists|d: int| 0 <= d < 6 && w.light_at(#[trigger] gnbr(p, d)) >= w.light_at(p) + 1
}

/// Cost bound of one queued position.
pub open spec fn weight(w: WorldManager, p: IVec3) -> nat {
    if in_world(p) && present(w, p) {
        7
    } else if w.light_at(p) > 1 {
        7
    } else {
        1
    }
}

/// Cost bound of a queue of positions.
pub open spec fn queue_weight(w: WorldManager, q: Seq<IVec3>) -> nat
    decreases q.len(),
{
    if q.len() == 0 {
        0
    } else {
        queue_weight(w, q.drop_last()) + weight(w, q.last())
    }
}

/// Total darkness of the chunks listed in `ks`.
pub open spec fn world_darkness(chunks: Map<u128, ChunkEntry>, ks: Seq<u128>) -> nat
    decreases ks.len(),
{
    if ks.len() == 0 {
        0
    } else {
        world_darkness(chunks, ks.drop_last()) + darkness(chunks[ks.last()].light_buffer.light_data@)
    }
}

proof fn lemma_queue_weight_front(w: WorldManager, q: Seq<IVec3>)
    requires
        q.len() > 0,
    ensures
        queue_weight(w, q) == weight(w, q[0]) + queue_weight(w, q.subrange(1, q.len() as int)),
    decreases q.len(),
{
    if q.len() == 1 {
        assert(q.subrange(1, 1) =~= Seq::<IVec3>::empty());
        assert(q.drop_last() =~= Seq::<IVec3>::empty());
    } else {
        lemma_queue_weight_front(w, q.drop_last());
        assert(q.subrange(1, q.len() as int).drop_last() =~= q.drop_last().subrange(
            1,
            q.len() - 1,
        ));
    }
}

proof fn lemma_queue_weight_push(w: WorldManager, q: Seq<IVec3>, p: IVec3)
    ensures
        queue_weight(w, q.push(p)) == queue_weight(w, q) + weight(w, p),
{
    assert(q.push(p).drop_last() =~= q);
}

/// Weights only depend on which chunks are loaded and on the cached height maps.
proof fn lemma_queue_weight_stable(w1: WorldManager, w2: WorldManager, q: Seq<IVec3>)
    requires
        w1.chunks@.dom() == w2.chunks@.dom(),
        w1.heightmap_cache@ == w2.heightmap_cache@,
    ensures
        queue_weight(w1, q) == queue_weight(w2, q),
    decreases q.len(),
{
    if q.len() > 0 {
        lemma_queue_weight_stable(w1, w2, q.drop_last());
        let p = q.last();
        assert(present(w1, p) == present(w2, p));
        if !(in_world(p) && present(w1, p)) {
            assert(w1.light_at(p) == w2.light_at(p));
        }
    }
}

/// Darkening nowhere and brightening chunk `k0` by `delta` lowers the total darkness by at
/// least `delta` when `k0` is listed.
proof fn lemma_world_darkness_step(
    m1: Map<u128, ChunkEntry>,
    m2: Map<u128, ChunkEntry>,
    ks: Seq<u128>,
    k0: u128,
    delta: nat,
)
    requires
        forall|i: int|
            0 <= i < ks.len() && ks[i] != k0 ==> #[trigger] m2[ks[i]].light_buffer
                == m1[ks[i]].light_buffer,
        ks.contains(k0) ==> darkness(m2[k0].light_buffer.light_data@) + delta == darkness(
            m1[k0].light_buffer.light_data@,
        ),
    ensures
        world_darkness(m2, ks) <= world_darkness(m1, ks),
        ks.contains(k0) ==> world_darkness(m2, ks) + delta <= world_darkness(m1, ks),
    decreases ks.len(),
{
    if ks.len() > 0 {
        let kl = ks.last();
        assert(ks[ks.len() - 1] == kl);
        if ks.drop_last().contains(k0) {
            let i = choose|i: int| 0 <= i < ks.drop_last().len() && ks.drop_last()[i] == k0;
            assert(ks[i] == k0);
        }
        lemma_world_darkness_step(m1, m2, ks.drop_last(), k0, delta);
        if ks.contains(k0) && kl != k0 {
            let i = choose|i: int| 0 <= i < ks.len() && ks[i] == k0;
            assert(ks.drop_last()[i] == k0);
        }
    }
}

/// Neighbourhood is symmetric.
pub proof fn lemma_gnbr_symmetric(p: IVec3, d: int)
    requires
        pos_ok(p),
        0 <= d < 6,
    ensures
        gnbr(gnbr(p, d), gopposite(d)) == p,
        gnbr(p, d) != p,
        0 <= gopposite(d) < 6,
        inner_pos_ok(p) ==> pos_ok(gnbr(p, d)),
{
}

/// Neighbour of a world position in direction `d`: +X, -X, +Y, -Y, +Z, -Z.
pub fn neighbor_pos(p: IVec3, d: usize) -> (r: IVec3)
    requires
        pos_ok(p),
        d < 6,
    ensures
        r == gnbr(p, d as int),
{
    if d == 0 {
        IVec3 { x: p.x + 1, y: p.y, z: p.z }
    } else if d == 1 {
        IVec3 { x: p.x - 1, y: p.y, z: p.z }
    } else if d == 2 {
        IVec3 { x: p.x, y: p.y + 1, z: p.z }
    } else if d == 3 {
        IVec3 { x: p.x, y: p.y - 1, z: p.z }
    } else if d == 4 {
        IVec3 { x: p.x, y: p.y, z: p.z + 1 }
    } else {
        IVec3 { x: p.x, y: p.y, z: p.z - 1 }
    }
}

/// Sky light never exceeds full light.
pub proof fn lemma_light_at_max(w: WorldManager, p: IVec3)
    ensures
        w.light_at(p) <= 15,
{
    if in_world(p) {
        if let Some(e) = w.entry_at(chunk_of(p)) {
            lemma_sky_of_bound(e.light_buffer.light_data@[crate::world::local_index(p)]);
        }
    }
}

/// The parts of the world other than light and the meshing queue are equal.
pub open spec fn same_but_light(a: WorldManager, b: WorldManager) -> bool {
    &&& a.chunks@.dom() == b.chunks@.dom()
    &&& forall|p: IVec3| #[trigger] a.block_at(p) == b.block_at(p)
    &&& forall|p: IVec3| #[trigger] a.fluid_at(p) == b.fluid_at(p)
    &&& forall|k: u128|
        #[trigger] b.chunks@.contains_key(k) ==> {
            let (x, y) = (a.chunks@[k], b.chunks@[k]);
            &&& x.buffer == y.buffer
            &&& x.fluid_buffer == y.fluid_buffer
            &&& x.entity == y.entity
            &&& x.is_modified == y.is_modified
            &&& x.is_lighting_ready == y.is_lighting_ready
        }
    &&& a.heightmap_cache@ == b.heightmap_cache@
    &&& a.fluid_queue@ == b.fluid_queue@
    &&& a.loading_chunks@ == b.loading_chunks@
    &&& a.vacuum_chunks@ == b.vacuum_chunks@
    &&& b.dirty_chunks_for_meshing@.subset_of(a.dirty_chunks_for_meshing@)
    &&& a.world_type == b.world_type
    &&& a.seed == b.seed
}

/// Light at `x` in `w` is at most the light some position of `q` had in `w0`.
pub open spec fn lit_at_most_queue(w: WorldManager, x: IVec3, w0: WorldManager, q: Seq<IVec3>) -> bool {
    exists|i: int| 0 <= i < q.len() && w.light_at(x) <= w0.light_at(#[trigger] q[i])
}

/// Light at `x` in `w` is below the light some position of `q` had in `w0`.
pub open spec fn lit_below_queue(w: WorldManager, x: IVec3, w0: WorldManager, q: Seq<IVec3>) -> bool {
    exists|i: int| 0 <= i < q.len() && w.light_at(x) < w0.light_at(#[trigger] q[i])
}

/// Spreads sky light through loaded air from the queued positions: each expanded position
/// passes its light, less one, to loaded air neighbours that are darker than that, and queues
/// them in turn. Light only grows, only at loaded air positions, every position that changed
/// has a neighbour it took its light from and is left darker than some queued position was,
/// and at the end every queued or changed position is stable. Blocks, fluids and everything but
/// light and the meshing queue stay as they were.
#[verifier::rlimit(100)]
pub fn propagate_sky_light_global(world_manager: &mut WorldManager, queue: VecDeque<IVec3>)
    requires
        old(world_manager).wf(),
    ensures
        final(world_manager).wf(),
        same_but_light(*final(world_manager), *old(world_manager)),
        forall|p: IVec3|
            #[trigger] final(world_manager).light_at(p) >= old(world_manager).light_at(p),
        forall|p: IVec3|
            #[trigger] final(world_manager).light_at(p) != old(world_manager).light_at(p) ==> {
                &&& in_world(p)
                &&& present(*old(world_manager), p)
                &&& old(world_manager).block_at(p) == BlockType::Air
                &&& globally_supported(*final(world_manager), p)
                &&& lit_below_queue(*final(world_manager), p, *old(world_manager), queue@)
            },
        forall|p: IVec3|
            (queue@.contains(p) || #[trigger] final(world_manager).light_at(p) != old(
                world_manager,
            ).light_at(p)) ==> globally_stable(*final(world_manager), p),
{
    let mut queue = queue;
    let ghost w0 = *world_manager;
    let ghost q0 = queue@;
    let ghost ks = w0.chunks@.dom().to_seq();
    proof {
        w0.chunks@.dom().lemma_to_seq_to_set_id();
        assert forall|j: int| 0 <= j < queue@.len() implies lit_at_most_queue(
            *world_manager,
            #[trigger] queue@[j],
            w0,
            q0,
        ) by {
            assert(world_manager.light_at(queue@[j]) <= w0.light_at(q0[j]));
        }
    }
    while queue.len() > 0
        invariant
            world_manager.wf(),
            same_but_light(*world_manager, w0),
            ks.to_set() == w0.chunks@.dom(),
            forall|p: IVec3| #[trigger] world_manager.light_at(p) >= w0.light_at(p),
            forall|p: IVec3|
                #[trigger] world_manager.light_at(p) != w0.light_at(p) ==> {
                    &&& in_world(p)
                    &&& present(w0, p)
                    &&& w0.block_at(p) == BlockType::Air
                    &&& globally_supported(*world_manager, p)
                    &&& lit_below_queue(*world_manager, p, w0, q0)
                },
            forall|p: IVec3|
                (q0.contains(p) || #[trigger] world_manager.light_at(p) != w0.light_at(p))
                    && !globally_stable(*world_manager, p) ==> queue@.contains(p),
            forall|j: int|
                0 <= j < queue@.len() ==> lit_at_most_queue(*world_manager, #[trigger] queue@[j], w0, q0),
        decreases 14 * world_darkness(world_manager.chunks@, ks) + queue_weight(
            *world_manager,
            queue@,
        ),
    {
        let ghost m0 = 14 * world_darkness(world_manager.chunks@, ks) + queue_weight(
            *world_manager,
            queue@,
        );
        let ghost qa = queue@;
        let pos = match queue.pop_front() {
            Some(p) => p,
            None => {
                proof {
                    assert(false);
                }
                IVec3 { x: 0, y: 0, z: 0 }
            },
        };
        proof {
            lemma_queue_weight_front(*world_manager, qa);
            assert forall|p: IVec3|
                (q0.contains(p) || #[trigger] world_manager.light_at(p) != w0.light_at(p))
                    && !globally_stable(*world_manager, p) && p != pos implies queue@.contains(p) by {
                let k = choose|k: int| 0 <= k < qa.len() && qa[k] == p;
                assert(k != 0);
                assert(queue@[k - 1] == p);
            }
            assert forall|j: int| 0 <= j < queue@.len() implies lit_at_most_queue(
                *world_manager,
                #[trigger] queue@[j],
                w0,
                q0,
            ) by {
                assert(queue@[j] == qa[j + 1]);
            }
            assert(qa[0] == pos);
            assert(lit_at_most_queue(*world_manager, qa[0], w0, q0));
        }
        let ghost bi = choose|i: int| 0 <= i < q0.len() && world_manager.light_at(pos) <= w0.light_at(#[trigger] q0[i]);
        let light = world_manager.get_light_global(pos);
        if light <= 1 {
            continue;
        }
        let current_block = world_manager.get_block_global(pos);
        if current_block != BlockType::Air {
            continue;
        }
        if !is_pos_ok(pos) {
            continue;
        }
        proof {
            assert(weight(*world_manager, pos) == 7);
        }
        let mut d: usize = 0;
        while d < 6
            invariant
                0 <= d <= 6,
                world_manager.wf(),
                same_but_light(*world_manager, w0),
                ks.to_set() == w0.chunks@.dom(),
                pos_ok(pos),
                1 < light <= 15,
                light == world_manager.light_at(pos),
                world_manager.block_at(pos) == BlockType::Air,
                14 * world_darkness(world_manager.chunks@, ks) + queue_weight(
                    *world_manager,
                    queue@,
                ) + (6 - d) < m0,
                forall|p: IVec3| #[trigger] world_manager.light_at(p) >= w0.light_at(p),
                forall|p: IVec3|
                    #[trigger] world_manager.light_at(p) != w0.light_at(p) ==> {
                        &&& in_world(p)
                        &&& present(w0, p)
                        &&& w0.block_at(p) == BlockType::Air
                        &&& globally_supported(*world_manager, p)
                        &&& lit_below_queue(*world_manager, p, w0, q0)
                    },
                forall|p: IVec3|
                    (q0.contains(p) || #[trigger] world_manager.light_at(p) != w0.light_at(p))
                        && !globally_stable(*world_manager, p) && p != pos ==> queue@.contains(p),
                0 <= bi < q0.len(),
                light <= w0.light_at(q0[bi]),
                forall|j: int|
                    0 <= j < queue@.len() ==> lit_at_most_queue(*world_manager, #[trigger] queue@[j], w0, q0),
                forall|dd: int|
                    0 <= dd < d ==> {
                        let n = #[trigger] gnbr(pos, dd);
                        (in_world(n) && present(*world_manager, n) && world_manager.block_at(n)
                            == BlockType::Air) ==> world_manager.light_at(n) + 1 >= light
                    },
            decreases 6 - d,
        {
            let npos = neighbor_pos(pos, d);
            proof {
                lemma_gnbr_symmetric(pos, d as int);
            }
            if npos.y >= 0 && npos.y < 256 {
                let n_block = world_manager.get_block_global(npos);
                if n_block == BlockType::Air {
                    let n_light = world_manager.get_light_global(npos);
                    if n_light < light - 1 {
                        let ghost wa = *world_manager;
                        let ghost qb = queue@;
                        world_manager.set_light_global(npos, light - 1);
                        queue.push_back(npos);
                        proof {
                            let wb = *world_manager;
                            lemma_queue_weight_stable(wa, wb, qb);
                            lemma_queue_weight_push(wb, qb, npos);
                            assert(((light - 1) as u8) & 0x0Fu8 == ((light - 1) as u8)) by (bit_vector)
                                requires
                                    1 < light <= 15,
                            ;
                            if present(wa, npos) {
                                let k0 = crate::world::chunk_key(chunk_of(npos));
                                let idx = crate::world::local_index(npos);
                                lemma_pos_decomp(npos);
                                let lda = wa.chunks@[k0].light_buffer.light_data@;
                                let ldb = wb.chunks@[k0].light_buffer.light_data@;
                                lemma_darkness_update(lda, idx, ldb[idx]);
                                assert(ldb == lda.update(idx, ldb[idx]));
                                assert(ks.contains(k0)) by {
                                    assert(w0.chunks@.dom().contains(k0));
                                    assert(ks.to_set().contains(k0));
                                }
                                assert forall|i: int| 0 <= i < ks.len() && ks[i] != k0 implies #[trigger] wb.chunks@[ks[i]].light_buffer
                                    == wa.chunks@[ks[i]].light_buffer by {
                                    assert(ks.to_set().contains(ks[i]));
                                }
                                lemma_world_darkness_step(
                                    wa.chunks@,
                                    wb.chunks@,
                                    ks,
                                    k0,
                                    (sky_of(ldb[idx]) - sky_of(lda[idx])) as nat,
                                );
                                assert(wb.light_at(npos) == light - 1);
                            } else {
                                let k0 = crate::world::chunk_key(chunk_of(npos));
                                assert(!ks.contains(k0)) by {
                                    if ks.contains(k0) {
                                        assert(ks.to_set().contains(k0));
                                    }
                                }
                                assert forall|i: int| 0 <= i < ks.len() && ks[i] != k0 implies #[trigger] wb.chunks@[ks[i]].light_buffer
                                    == wa.chunks@[ks[i]].light_buffer by {
                                    assert(ks.to_set().contains(ks[i]));
                                }
                                lemma_world_darkness_step(wa.chunks@, wb.chunks@, ks, k0, 0);
                                assert(wb.light_at(npos) == wa.light_at(npos));
                                assert(weight(wb, npos) == 1);
                            }
                            assert forall|p: IVec3|
                                #[trigger] wb.light_at(p) != w0.light_at(p) implies {
                                &&& in_world(p)
                                &&& present(w0, p)
                                &&& w0.block_at(p) == BlockType::Air
                                &&& globally_supported(wb, p)
                                &&& lit_below_queue(wb, p, w0, q0)
                            } by {
                                if p == npos {
                                    let od = gopposite(d as int);
                                    assert(gnbr(npos, od) == pos);
                                    assert(wb.light_at(pos) == light);
                                    assert(wb.light_at(npos) < w0.light_at(q0[bi]));
                                } else {
                                    assert(wa.light_at(p) != w0.light_at(p));
                                    let dd = choose|dd: int|
                                        0 <= dd < 6 && wa.light_at(#[trigger] gnbr(p, dd))
                                            >= wa.light_at(p) + 1;
                                    assert(wb.light_at(gnbr(p, dd)) >= wa.light_at(gnbr(p, dd)));
                                    let i = choose|i: int| 0 <= i < q0.len() && wa.light_at(p) < w0.light_at(#[trigger] q0[i]);
                                    assert(wb.light_at(p) < w0.light_at(q0[i]));
                                }
                            }
                            assert forall|j: int| 0 <= j < queue@.len() implies lit_at_most_queue(
                                wb,
                                #[trigger] queue@[j],
                                w0,
                                q0,
                            ) by {
                                let x = queue@[j];
                                if j == qb.len() {
                                    assert(x == npos);
                                    assert(wb.light_at(npos) <= w0.light_at(q0[bi]));
                                } else {
                                    assert(x == qb[j]);
                                    if wb.light_at(x) == wa.light_at(x) {
                                        let i = choose|i: int| 0 <= i < q0.len() && wa.light_at(x) <= w0.light_at(#[trigger] q0[i]);
                                        assert(wb.light_at(x) <= w0.light_at(q0[i]));
                                    } else {
                                        assert(x == npos);
                                        assert(wb.light_at(npos) <= w0.light_at(q0[bi]));
                                    }
                                }
                            }
                            assert forall|p: IVec3|
                                (q0.contains(p) || #[trigger] wb.light_at(p) != w0.light_at(p))
                                    && !globally_stable(wb, p) && p != pos implies queue@.contains(p) by {
                                if p == npos {
                                    assert(queue@.last() == npos);
                                } else {
                                    assert(wb.light_at(p) == wa.light_at(p));
                                    if globally_stable(wa, p) {
                                        if pos_ok(p) && wa.light_at(p) > 1 && wa.block_at(p)
                                            == BlockType::Air {
                                            assert forall|dd: int| 0 <= dd < 6 implies {
                                                let n = #[trigger] gnbr(p, dd);
                                                (in_world(n) && present(wb, n) && wb.block_at(n)
                                                    == BlockType::Air) ==> wb.light_at(n) + 1
                                                    >= wb.light_at(p)
                                            } by {
                                                let n = gnbr(p, dd);
                                                assert(wb.light_at(n) >= wa.light_at(n));
                                                assert(present(wb, n) == present(wa, n));
                                            }
                                        }
                                        assert(false);
                                    }
                                    let k = choose|k: int| 0 <= k < qb.len() && qb[k] == p;
                                    assert(queue@[k] == p);
                                }
                            }
                            assert forall|dd: int| 0 <= dd < d + 1 implies {
                                let n = #[trigger] gnbr(pos, dd);
                                (in_world(n) && present(wb, n) && wb.block_at(n) == BlockType::Air)
                                    ==> wb.light_at(n) + 1 >= light
                            } by {
                                let n = gnbr(pos, dd);
                                assert(wb.light_at(n) >= wa.light_at(n));
                                assert(present(wb, n) == present(wa, n));
                            }
                        }
                    }
                }
            }
            d = d + 1;
        }
    }
}


/// Darkness of a light buffer is at most fifteen per voxel.
proof fn lemma_darkness_bound(ld: Seq<u8>)
    ensures
        darkness(ld) <= 15 * ld.len(),
    decreases ld.len(),
{
    if ld.len() > 0 {
        lemma_darkness_bound(ld.drop_last());
        lemma_sky_of_bound(ld.last());
    }
}

/// Total darkness of loaded chunks is at most fifteen per voxel.
proof fn lemma_world_darkness_bound(w: WorldManager, ks: Seq<u128>)
    requires
        w.wf(),
        forall|i: int| 0 <= i < ks.len() ==> w.chunks@.contains_key(#[trigger] ks[i]),
    ensures
        world_darkness(w.chunks@, ks) <= 491520 * ks.len(),
    decreases ks.len(),
{
    if ks.len() > 0 {
        assert forall|i: int| 0 <= i < ks.drop_last().len() implies w.chunks@.contains_key(
            #[trigger] ks.drop_last()[i],
        ) by {
            assert(ks.drop_last()[i] == ks[i]);
        }
        lemma_world_darkness_bound(w, ks.drop_last());
        assert(w.chunks@.contains_key(ks[ks.len() - 1]));
        lemma_darkness_bound(w.chunks@[ks.last()].light_buffer.light_data@);
    }
}

/// Every neighbour of a position is dark or waits in the queue of positions to relight from.
pub open spec fn handed_over(w: WorldManager, pq: Seq<IVec3>, p: IVec3) -> bool {
    !pos_ok(p) || forall|d: int|
        0 <= d < 6 ==> w.light_at(#[trigger] gnbr(p, d)) == 0 || pq.contains(gnbr(p, d))
}

/// Whether a removal queue holds an entry for a position.
pub open spec fn queued_for_removal(q: Seq<(IVec3, u8)>, p: IVec3) -> bool {
    exists|i: int| 0 <= i < q.len() && (#[trigger] q[i]).0 == p
}

/// Handing over survives darkening and a longer relighting queue.
proof fn lemma_handed_over_stable(
    w1: WorldManager,
    pq1: Seq<IVec3>,
    w2: WorldManager,
    pq2: Seq<IVec3>,
    p: IVec3,
)
    requires
        handed_over(w1, pq1, p),
        forall|q: IVec3| #[trigger] w2.light_at(q) <= w1.light_at(q),
        pq1.len() <= pq2.len(),
        pq2.subrange(0, pq1.len() as int) == pq1,
    ensures
        handed_over(w2, pq2, p),
{
    if pos_ok(p) {
        assert forall|d: int| 0 <= d < 6 implies w2.light_at(#[trigger] gnbr(p, d)) == 0
            || pq2.contains(gnbr(p, d)) by {
            let n = gnbr(p, d);
            assert(w2.light_at(n) <= w1.light_at(n));
            if w1.light_at(n) != 0 {
                let k = choose|k: int| 0 <= k < pq1.len() && pq1[k] == n;
                assert(pq2.subrange(0, pq1.len() as int)[k] == pq2[k]);
            }
        }
    }
}

/// Distance between two integers.
pub open spec fn gap(a: int, b: int) -> int {
    if a >= b {
        a - b
    } else {
        b - a
    }
}

/// Two positions share a face.
pub open spec fn adjacent(a: IVec3, b: IVec3) -> bool {
    gap(a.x as int, b.x as int) + gap(a.y as int, b.y as int) + gap(a.z as int, b.z as int) == 1
}

/// A position and its neighbour in any direction share a face.
pub proof fn lemma_gnbr_adjacent(p: IVec3, d: int)
    requires
        pos_ok(p),
        0 <= d < 6,
    ensures
        adjacent(p, gnbr(p, d)),
{
}

/// A walk through face neighbours, away from its first position, along which light in `w` stays
/// positive and strictly falls, starting below `start_light`.
pub open spec fn dimming_path(w: WorldManager, path: Seq<IVec3>, start_light: u8) -> bool {
    &&& path.len() >= 2
    &&& forall|j: int| 0 <= j < path.len() - 1 ==> adjacent(#[trigger] path[j], path[j + 1])
    &&& forall|j: int| 1 <= j < path.len() ==> 0 < #[trigger] w.light_at(path[j])
    &&& w.light_at(path[1]) < start_light
    &&& forall|j: int| 2 <= j < path.len() ==> #[trigger] w.light_at(path[j]) < w.light_at(path[j - 1])
}

/// A position can be reached from a queued removal entry along a dimming walk: it was lit
/// through that entry's position.
pub open spec fn removal_reaches(w0: WorldManager, q: Seq<(IVec3, u8)>, p: IVec3) -> bool {
    exists|path: Seq<IVec3>, i: int|
        0 <= i < q.len() && path[0] == q[i].0 && path.last() == p && #[trigger] dimming_path(
            w0,
            path,
            q[i].1,
        )
}

/// A position was lit through `from`: a dimming walk leads from `from` to it, starting below the
/// light at `from`.
pub open spec fn lit_through(w: WorldManager, from: IVec3, p: IVec3) -> bool {
    exists|path: Seq<IVec3>|
        path[0] == from && path.last() == p && #[trigger] dimming_path(w, path, w.light_at(from))
}

/// A dimming walk stays one in a world that agrees on the light past its first position.
pub proof fn lemma_dimming_transfer(w1: WorldManager, w2: WorldManager, path: Seq<IVec3>, s: u8)
    requires
        dimming_path(w1, path, s),
        forall|j: int| 1 <= j < path.len() ==> w2.light_at(#[trigger] path[j]) == w1.light_at(path[j]),
    ensures
        dimming_path(w2, path, s),
{
    assert forall|j: int| 1 <= j < path.len() implies 0 < #[trigger] w2.light_at(path[j]) by {
        assert(w2.light_at(path[j]) == w1.light_at(path[j]));
    }
    assert forall|j: int| 2 <= j < path.len() implies #[trigger] w2.light_at(path[j]) < w2.light_at(
        path[j - 1],
    ) by {
        assert(w2.light_at(path[j]) == w1.light_at(path[j]));
        assert(w2.light_at(path[j - 1]) == w1.light_at(path[j - 1]));
    }
    assert(w2.light_at(path[1]) == w1.light_at(path[1]));
}

/// Darkening a neighbour of a removal entry, which was lit more weakly than that entry, keeps
/// every darkened position reachable from the queue.
proof fn lemma_extend_reach(
    w0: WorldManager,
    q0: Seq<(IVec3, u8)>,
    all: Seq<(IVec3, u8)>,
    k: int,
    npos: IVec3,
)
    requires
        q0.len() <= all.len(),
        all.subrange(0, q0.len() as int) == q0,
        0 <= k < all.len(),
        k >= q0.len() ==> all[k].1 == w0.light_at(all[k].0) && removal_reaches(w0, q0, all[k].0),
        adjacent(all[k].0, npos),
        0 < w0.light_at(npos) < all[k].1,
    ensures
        removal_reaches(w0, q0, npos),
{
    let pos = all[k].0;
    if k < q0.len() {
        assert(all.subrange(0, q0.len() as int)[k] == all[k]);
        let path = seq![pos, npos];
        assert(dimming_path(w0, path, q0[k].1));
        assert(path[0] == q0[k].0 && path.last() == npos);
    } else {
        let (pp, i) = choose|pp: Seq<IVec3>, i: int|
            0 <= i < q0.len() && pp[0] == q0[i].0 && pp.last() == pos && #[trigger] dimming_path(w0, pp, q0[i].1);
        let path = pp.push(npos);
        assert forall|j: int| 0 <= j < path.len() - 1 implies adjacent(#[trigger] path[j], path[j + 1]) by {
            if j < pp.len() - 1 {
                assert(path[j] == pp[j] && path[j + 1] == pp[j + 1]);
            } else {
                assert(path[j] == pos);
            }
        }
        assert forall|j: int| 1 <= j < path.len() implies 0 < #[trigger] w0.light_at(path[j]) by {
            if j < pp.len() {
                assert(path[j] == pp[j]);
            }
        }
        assert forall|j: int| 2 <= j < path.len() implies #[trigger] w0.light_at(path[j]) < w0.light_at(
            path[j - 1],
        ) by {
            if j < pp.len() {
                assert(path[j] == pp[j] && path[j - 1] == pp[j - 1]);
            } else {
                assert(path[j - 1] == pos);
            }
        }
        assert(path[1] == pp[1]);
        assert(dimming_path(w0, path, q0[i].1));
        assert(path[0] == q0[i].0 && path.last() == npos);
    }
}

/// Takes sky light away: each queued entry is a position and the light it had before it was
/// darkened. A neighbour lit more weakly than that was lit through it and goes dark in turn
/// (and is queued the same way); a neighbour lit at least as strongly keeps its light and is
/// appended to `propagate_queue`, from where light can be spread back. Light only falls, and
/// only to zero at loaded positions, and never at a position at full light; at the end every
/// queued or darkened position has every
/// neighbour dark or waiting in `propagate_queue`. Blocks, fluids and everything but light and
/// the meshing queue stay as they were.
#[verifier::rlimit(100)]
pub fn remove_sky_light_global(
    world_manager: &mut WorldManager,
    remove_queue: VecDeque<(IVec3, u8)>,
    propagate_queue: &mut VecDeque<IVec3>,
)
    requires
        old(world_manager).wf(),
        forall|i: int| 0 <= i < remove_queue@.len() ==> (#[trigger] remove_queue@[i]).1 <= 15,
    ensures
        final(world_manager).wf(),
        same_but_light(*final(world_manager), *old(world_manager)),
        final(propagate_queue)@.len() >= old(propagate_queue)@.len(),
        final(propagate_queue)@.subrange(0, old(propagate_queue)@.len() as int)
            == old(propagate_queue)@,
        forall|p: IVec3|
            #[trigger] final(world_manager).light_at(p) <= old(world_manager).light_at(p),
        forall|p: IVec3|
            #[trigger] final(world_manager).light_at(p) != old(world_manager).light_at(p) ==> {
                &&& final(world_manager).light_at(p) == 0
                &&& in_world(p)
                &&& present(*old(world_manager), p)
                &&& old(world_manager).light_at(p) < 15
                &&& removal_reaches(*old(world_manager), remove_queue@, p)
            },
        forall|p: IVec3|
            (queued_for_removal(remove_queue@, p) || #[trigger] final(world_manager).light_at(p)
                != old(world_manager).light_at(p)) ==> handed_over(
                *final(world_manager),
                final(propagate_queue)@,
                p,
            ),
{
    let mut queue = remove_queue;
    let ghost w0 = *world_manager;
    let ghost q0 = queue@;
    let ghost pq0 = propagate_queue@;
    let ghost ks = w0.chunks@.dom().to_seq();
    let ghost mut all = queue@;
    let ghost mut popped: int = 0;
    let ghost mut idx_of: Map<IVec3, int> = Map::empty();
    proof {
        w0.chunks@.dom().lemma_to_seq_to_set_id();
        assert forall|i: int| 0 <= i < ks.len() implies w0.chunks@.contains_key(#[trigger] ks[i]) by {
            assert(ks.to_set().contains(ks[i]));
        }
        lemma_world_darkness_bound(w0, ks);
        assert(all.subrange(0, all.len() as int) == all);
    }
    while queue.len() > 0
        invariant
            world_manager.wf(),
            same_but_light(*world_manager, w0),
            ks.to_set() == w0.chunks@.dom(),
            forall|i: int| 0 <= i < ks.len() ==> w0.chunks@.contains_key(#[trigger] ks[i]),
            world_darkness(world_manager.chunks@, ks) <= 491520 * ks.len(),
            0 <= popped <= all.len(),
            queue@ == all.subrange(popped, all.len() as int),
            q0.len() <= all.len(),
            all.subrange(0, q0.len() as int) == q0,
            forall|i: int| 0 <= i < all.len() ==> (#[trigger] all[i]).1 <= 15,
            forall|i: int|
                q0.len() <= i < all.len() ==> (#[trigger] all[i]).1 == w0.light_at(all[i].0)
                    && world_manager.light_at(all[i].0) != w0.light_at(all[i].0),
            forall|i: int| 0 <= i < popped ==> handed_over(*world_manager, propagate_queue@, (#[trigger] all[i]).0),
            propagate_queue@.len() >= pq0.len(),
            propagate_queue@.subrange(0, pq0.len() as int) == pq0,
            forall|p: IVec3| #[trigger] world_manager.light_at(p) <= w0.light_at(p),
            forall|p: IVec3|
                #[trigger] world_manager.light_at(p) != w0.light_at(p) ==> {
                    &&& world_manager.light_at(p) == 0
                    &&& in_world(p)
                    &&& present(w0, p)
                    &&& w0.light_at(p) < 15
                    &&& removal_reaches(w0, q0, p)
                    &&& idx_of.contains_key(p)
                    &&& 0 <= idx_of[p] < all.len()
                    &&& all[idx_of[p]].0 == p
                },
        decreases 7 * (491520 * ks.len() - world_darkness(world_manager.chunks@, ks)) + 7
            * queue@.len(),
    {
        let ghost m0 = 7 * (491520 * ks.len() - world_darkness(world_manager.chunks@, ks)) + 7
            * queue@.len();
        let (pos, old_light) = match queue.pop_front() {
            Some(e) => e,
            None => {
                proof {
                    assert(false);
                }
                (IVec3 { x: 0, y: 0, z: 0 }, 0u8)
            },
        };
        proof {
            assert(all[popped] == (pos, old_light));
            popped = popped + 1;
            assert(queue@ =~= all.subrange(popped, all.len() as int));
        }
        if !is_pos_ok(pos) {
            proof {
                assert forall|i: int| 0 <= i < popped implies handed_over(
                    *world_manager,
                    propagate_queue@,
                    (#[trigger] all[i]).0,
                ) by {
                    if i == popped - 1 {
                        assert(all[i].0 == pos);
                    }
                }
            }
            continue;
        }
        let mut d: usize = 0;
        while d < 6
            invariant
                0 <= d <= 6,
                world_manager.wf(),
                same_but_light(*world_manager, w0),
                ks.to_set() == w0.chunks@.dom(),
                forall|i: int| 0 <= i < ks.len() ==> w0.chunks@.contains_key(#[trigger] ks[i]),
                world_darkness(world_manager.chunks@, ks) <= 491520 * ks.len(),
                pos_ok(pos),
                old_light <= 15,
                1 <= popped <= all.len(),
                all[popped - 1].0 == pos,
                queue@ == all.subrange(popped, all.len() as int),
                q0.len() <= all.len(),
                all.subrange(0, q0.len() as int) == q0,
                forall|i: int| 0 <= i < all.len() ==> (#[trigger] all[i]).1 <= 15,
                forall|i: int|
                    q0.len() <= i < all.len() ==> (#[trigger] all[i]).1 == w0.light_at(all[i].0)
                        && world_manager.light_at(all[i].0) != w0.light_at(all[i].0),
                all[popped - 1].1 == old_light,
                forall|i: int|
                    0 <= i < popped - 1 ==> handed_over(
                        *world_manager,
                        propagate_queue@,
                        (#[trigger] all[i]).0,
                    ),
                7 * (491520 * ks.len() - world_darkness(world_manager.chunks@, ks)) + 7
                    * queue@.len() + (6 - d) < m0,
                propagate_queue@.len() >= pq0.len(),
                propagate_queue@.subrange(0, pq0.len() as int) == pq0,
                forall|p: IVec3| #[trigger] world_manager.light_at(p) <= w0.light_at(p),
                forall|p: IVec3|
                    #[trigger] world_manager.light_at(p) != w0.light_at(p) ==> {
                        &&& world_manager.light_at(p) == 0
                        &&& in_world(p)
                        &&& present(w0, p)
                        &&& w0.light_at(p) < 15
                        &&& removal_reaches(w0, q0, p)
                        &&& idx_of.contains_key(p)
                        &&& 0 <= idx_of[p] < all.len()
                        &&& all[idx_of[p]].0 == p
                    },
                forall|dd: int|
                    0 <= dd < d ==> world_manager.light_at(#[trigger] gnbr(pos, dd)) == 0
                        || propagate_queue@.contains(gnbr(pos, dd)),
            decreases 6 - d,
        {
            let npos = neighbor_pos(pos, d);
            let n_light = world_manager.get_light_global(npos);
            let ghost wa = *world_manager;
            let ghost pqa = propagate_queue@;
            let ghost alla = all;
            if n_light != 0 && n_light < old_light {
                world_manager.set_light_global(npos, 0);
                queue.push_back((npos, n_light));
                proof {
                    let wb = *world_manager;
                    assert(in_world(npos) && present(wa, npos) && wb.light_at(npos) == 0
                        && world_darkness(wa.chunks@, ks) + 1 <= world_darkness(wb.chunks@, ks)
                        && world_darkness(wb.chunks@, ks) <= 491520 * ks.len()) by {
                        lemma_pos_decomp(npos);
                        let k0 = crate::world::chunk_key(chunk_of(npos));
                        let idx = crate::world::local_index(npos);
                        let lda = wa.chunks@[k0].light_buffer.light_data@;
                        let ldb = wb.chunks@[k0].light_buffer.light_data@;
                        assert((0u8 & 0x0Fu8) == 0u8) by (bit_vector);
                        assert(ldb == lda.update(idx, ldb[idx]));
                        assert(sky_of(ldb[idx]) == 0);
                        assert(sky_of(lda[idx]) == n_light);
                        lemma_darkness_update(lda, idx, ldb[idx]);
                        assert(ks.contains(k0)) by {
                            assert(w0.chunks@.dom().contains(k0));
                            assert(ks.to_set().contains(k0));
                        }
                        assert forall|i: int| 0 <= i < ks.len() && ks[i] != k0 implies #[trigger] wa.chunks@[ks[i]].light_buffer
                            == wb.chunks@[ks[i]].light_buffer by {
                            assert(ks.to_set().contains(ks[i]));
                        }
                        lemma_world_darkness_step(
                            wb.chunks@,
                            wa.chunks@,
                            ks,
                            k0,
                            (sky_of(lda[idx]) - sky_of(ldb[idx])) as nat,
                        );
                        lemma_world_darkness_bound(wb, ks);
                    }
                    assert(wa.light_at(npos) == w0.light_at(npos));
                    assert(removal_reaches(w0, q0, npos)) by {
                        lemma_gnbr_adjacent(pos, d as int);
                        if popped - 1 >= q0.len() {
                            assert(wa.light_at(alla[popped - 1].0) != w0.light_at(alla[popped - 1].0));
                        }
                        lemma_extend_reach(w0, q0, alla, popped - 1, npos);
                    }
                    all = all.push((npos, n_light));
                    idx_of = idx_of.insert(npos, all.len() - 1);
                    assert forall|i: int| q0.len() <= i < all.len() implies (#[trigger] all[i]).1 == w0.light_at(
                        all[i].0,
                    ) && wb.light_at(all[i].0) != w0.light_at(all[i].0) by {
                        if i < alla.len() {
                            assert(all[i] == alla[i]);
                            let x = all[i].0;
                            assert(wa.light_at(x) != w0.light_at(x));
                            assert(wa.light_at(x) == 0);
                            if x != npos {
                                assert(wb.light_at(x) == wa.light_at(x));
                            }
                        }
                    }
                    assert(queue@ =~= all.subrange(popped, all.len() as int));
                    assert(all.subrange(0, q0.len() as int) =~= alla.subrange(0, q0.len() as int));
                    assert forall|i: int| 0 <= i < popped - 1 implies handed_over(
                        wb,
                        propagate_queue@,
                        (#[trigger] all[i]).0,
                    ) by {
                        assert(all[i] == alla[i]);
                        assert(propagate_queue@.subrange(0, pqa.len() as int) =~= pqa);
                        lemma_handed_over_stable(wa, pqa, wb, propagate_queue@, all[i].0);
                    }
                    assert forall|p: IVec3| #[trigger] wb.light_at(p) != w0.light_at(p) implies {
                        &&& wb.light_at(p) == 0
                        &&& in_world(p)
                        &&& present(w0, p)
                        &&& w0.light_at(p) < 15
                        &&& removal_reaches(w0, q0, p)
                        &&& idx_of.contains_key(p)
                        &&& 0 <= idx_of[p] < all.len()
                        &&& all[idx_of[p]].0 == p
                    } by {
                        if p != npos {
                            assert(wb.light_at(p) == wa.light_at(p));
                            assert(alla[idx_of[p]] == all[idx_of[p]]);
                        }
                    }
                    assert forall|dd: int| 0 <= dd < d + 1 implies wb.light_at(
                        #[trigger] gnbr(pos, dd),
                    ) == 0 || propagate_queue@.contains(gnbr(pos, dd)) by {
                        assert(wb.light_at(gnbr(pos, dd)) <= wa.light_at(gnbr(pos, dd)));
                    }
                }
            } else if n_light != 0 {
                propagate_queue.push_back(npos);
                proof {
                    assert(propagate_queue@.subrange(0, pq0.len() as int) =~= pqa.subrange(
                        0,
                        pq0.len() as int,
                    ));
                    assert(propagate_queue@.subrange(0, pqa.len() as int) =~= pqa);
                    assert(propagate_queue@[propagate_queue@.len() - 1] == npos);
                    assert forall|i: int| 0 <= i < popped - 1 implies handed_over(
                        *world_manager,
                        propagate_queue@,
                        (#[trigger] all[i]).0,
                    ) by {
                        lemma_handed_over_stable(wa, pqa, *world_manager, propagate_queue@, all[i].0);
                    }
                    assert forall|dd: int| 0 <= dd < d + 1 implies world_manager.light_at(
                        #[trigger] gnbr(pos, dd),
                    ) == 0 || propagate_queue@.contains(gnbr(pos, dd)) by {
                        if pqa.contains(gnbr(pos, dd)) {
                            let k = choose|k: int| 0 <= k < pqa.len() && pqa[k] == gnbr(pos, dd);
                            assert(propagate_queue@[k] == pqa[k]);
                        }
                    }
                }
            }
            d = d + 1;
        }
        proof {
            assert forall|i: int| 0 <= i < popped implies handed_over(
                *world_manager,
                propagate_queue@,
                (#[trigger] all[i]).0,
            ) by {
                if i == popped - 1 {
                    assert(all[i].0 == pos);
                }
            }
        }
    }
    proof {
        assert(popped == all.len());
        assert forall|p: IVec3|
            (queued_for_removal(q0, p) || #[trigger] world_manager.light_at(p) != w0.light_at(p))
                implies handed_over(*world_manager, propagate_queue@, p) by {
            if queued_for_removal(q0, p) {
                let k = choose|k: int| 0 <= k < q0.len() && (#[trigger] q0[k]).0 == p;
                assert(all.subrange(0, q0.len() as int)[k] == all[k]);
                assert(all[k].0 == p);
            } else {
                assert(all[idx_of[p]].0 == p);
            }
        }
    }
}

} // verus!
