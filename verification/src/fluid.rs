use vstd::prelude::*;
use crate::voxel::{BlockType, block_definition};
use crate::math::IVec3;
use crate::world::{
    WorldManager, in_world, chunk_key, chunk_key_of, chunk_of, keeps_chunks_but_fluid,
    lemma_keeps_chunks_trans,
};
use std::collections::HashSet;

verus! {

/// Highest level a fluid voxel can hold; sources always hold it.
pub const MAX_FLUID_LEVEL: u8 = 8;

/// Highest sky light level.
pub const MAX_LIGHT_LEVEL: u8 = 15;

/// Whether a block stops fluid.
pub open spec fn solid(b: BlockType) -> bool {
    block_definition(b).is_solid
}

/// Fluid level (the low nibble of the fluid byte) at a position.
pub open spec fn level_at(w: WorldManager, p: IVec3) -> u8 {
    w.fluid_at(p) & 0x0Fu8
}

/// Whether the fluid byte at a position marks a source.
pub open spec fn source_at(w: WorldManager, p: IVec3) -> bool {
    w.fluid_at(p) & 0x80u8 != 0
}

/// Coordinates far enough from the 32-bit limits for every offset fluid rules look at.
pub open spec fn coords_ok(p: IVec3, margin: int) -> bool {
    &&& -2147483648 + margin <= p.x <= 2147483647 - margin
    &&& -2147483648 + margin <= p.y <= 2147483647 - margin
    &&& -2147483648 + margin <= p.z <= 2147483647 - margin
}

/// Whether a vector is a unit step along X or Z.
pub open spec fn is_hdir(d: IVec3) -> bool {
    ||| d == IVec3 { x: 1, y: 0, z: 0 }
    ||| d == IVec3 { x: -1i32, y: 0, z: 0 }
    ||| d == IVec3 { x: 0, y: 0, z: 1 }
    ||| d == IVec3 { x: 0, y: 0, z: -1i32 }
}

/// The horizontal unit steps in the order fluid rules scan them: +X, -X, +Z, -Z.
pub open spec fn hdir(i: int) -> IVec3 {
    if i == 0 {
        IVec3 { x: 1, y: 0, z: 0 }
    } else if i == 1 {
        IVec3 { x: -1i32, y: 0, z: 0 }
    } else if i == 2 {
        IVec3 { x: 0, y: 0, z: 1 }
    } else {
        IVec3 { x: 0, y: 0, z: -1i32 }
    }
}

/// `p + d * k`.
pub open spec fn offset(p: IVec3, d: IVec3, k: int) -> IVec3 {
    IVec3 { x: (p.x + d.x * k) as i32, y: (p.y + d.y * k) as i32, z: (p.z + d.z * k) as i32 }
}

/// One voxel down.
pub open spec fn below(p: IVec3) -> IVec3 {
    IVec3 { x: p.x, y: (p.y - 1) as i32, z: p.z }
}

/// One voxel up.
pub open spec fn above(p: IVec3) -> IVec3 {
    IVec3 { x: p.x, y: (p.y + 1) as i32, z: p.z }
}

/// Distance, scanning from step `k` up to five steps from `start` along `dir`, to the first
/// voxel whose floor is open air without fluid: 999 when a solid block comes first or no such
/// voxel is within five steps.
pub open spec fn drop_distance_from(w: WorldManager, start: IVec3, dir: IVec3, k: int) -> u32
    decreases 6 - k,
{
    if k > 5 || k < 1 {
        999
    } else {
        let c = offset(start, dir, k);
        if solid(w.block_at(c)) {
            999
        } else if w.block_at(below(c)) == BlockType::Air && level_at(w, below(c)) == 0 {
            k as u32
        } else {
            drop_distance_from(w, start, dir, k + 1)
        }
    }
}

/// Distance from `start` along `dir` to the nearest drop within five steps, or 999.
#[verifier::opaque]
pub open spec fn drop_distance(w: WorldManager, start: IVec3, dir: IVec3) -> u32 {
    drop_distance_from(w, start, dir, 1)
}

/// Distance from `start` along `dir` to the nearest drop within five steps: 999 when a solid
/// block is in the way first or there is no drop that close.
pub fn get_distance_to_drop(world_manager: &WorldManager, start_pos: IVec3, dir: IVec3) -> (r: u32)
    requires
        world_manager.wf(),
        coords_ok(start_pos, 8),
        is_hdir(dir),
    ensures
        r == drop_distance(*world_manager, start_pos, dir),
        r == 999 || 1 <= r <= 5,
{
    reveal(drop_distance);
    let mut step: i32 = 1;
    while step <= 5
        invariant
            1 <= step <= 6,
            world_manager.wf(),
            coords_ok(start_pos, 8),
            is_hdir(dir),
            drop_distance(*world_manager, start_pos, dir) == drop_distance_from(
                *world_manager,
                start_pos,
                dir,
                step as int,
            ),
        decreases 6 - step,
    {
        proof {
            assert(-5 <= dir.x * step <= 5 && -5 <= dir.y * step <= 5 && -5 <= dir.z * step <= 5)
                by (nonlinear_arith)
                requires
                    -1 <= dir.x <= 1,
                    -1 <= dir.y <= 1,
                    -1 <= dir.z <= 1,
                    1 <= step <= 5,
            ;
        }
        let check_pos = IVec3 {
            x: start_pos.x + dir.x * step,
            y: start_pos.y + dir.y * step,
            z: start_pos.z + dir.z * step,
        };
        let below_pos = IVec3 { x: check_pos.x, y: check_pos.y - 1, z: check_pos.z };
        proof {
            assert(check_pos == offset(start_pos, dir, step as int));
            assert(below_pos == below(check_pos));
        }
        let b_curr = world_manager.get_block_global(check_pos);
        let b_below = world_manager.get_block_global(below_pos);
        let f_below = world_manager.get_fluid_global(below_pos) & 0x0F;
        if b_curr.is_solid() {
            return 999;
        }
        if b_below == BlockType::Air && f_below == 0 {
            return step as u32;
        }
        step = step + 1;
    }
    999
}


/// The step opposite to a horizontal step.
pub open spec fn hopposite(d: IVec3) -> IVec3 {
    IVec3 { x: (-d.x) as i32, y: 0, z: (-d.z) as i32 }
}

/// Smallest of four distances.
pub open spec fn min4(a: u32, b: u32, c: u32, d: u32) -> u32 {
    let ab = if a < b { a } else { b };
    let cd = if c < d { c } else { d };
    if ab < cd { ab } else { cd }
}

/// How far fluid at `npos` (level `level`) would have to run along `dir` to fall: 999 when
/// the next voxel that way already holds at least as much fluid.
pub open spec fn spread_distance(w: WorldManager, npos: IVec3, dir: IVec3, level: u8) -> u32 {
    if level_at(w, offset(npos, dir, 1)) >= level {
        999
    } else {
        drop_distance(w, npos, dir)
    }
}

/// The fluid level that the horizontal neighbour `hdir(i)` of `pos` feeds into `pos`, or 0.
/// A neighbour feeds when it holds fluid, is not solid, and is a source or rests on a solid
/// block; and when it has somewhere to fall within five steps, only towards the nearest such
/// drop (ties feed every way), except that open air is fed unless a drop is right next to it.
pub open spec fn offered_level(w: WorldManager, pos: IVec3, i: int) -> u8 {
    let npos = offset(pos, hdir(i), 1);
    let f = level_at(w, npos);
    if solid(w.block_at(npos)) || f == 0 {
        0
    } else if !(source_at(w, npos) || solid(w.block_at(below(npos)))) {
        0
    } else {
        let min_dist = min4(
            spread_distance(w, npos, hdir(0), f),
            spread_distance(w, npos, hdir(1), f),
            spread_distance(w, npos, hdir(2), f),
            spread_distance(w, npos, hdir(3), f),
        );
        let dist_to_pos = spread_distance(w, npos, hopposite(hdir(i)), f);
        if min_dist == 999 || dist_to_pos == min_dist || (min_dist != 1 && w.block_at(pos)
            == BlockType::Air) {
            f
        } else {
            0
        }
    }
}

/// Fluid that is not a source but rests on solid ground spreads sideways: where no drop lies
/// within reach around it, an open neighbour settles to at least one level less than it holds.
pub proof fn law_fluid_spreads_on_ground(w: WorldManager, pos: IVec3, i: int)
    requires
        0 <= i < 4,
        pos.y + 1 < 256,
        !source_at(w, pos),
        !solid(w.block_at(offset(pos, hdir(i), 1))),
        1 < level_at(w, offset(pos, hdir(i), 1)) <= MAX_FLUID_LEVEL,
        solid(w.block_at(below(offset(pos, hdir(i), 1)))),
        forall|j: int| 0 <= j < 4 ==> drop_distance(w, offset(pos, hdir(i), 1), #[trigger] hdir(j)) == 999,
    ensures
        target_level(w, pos) + 1 >= level_at(w, offset(pos, hdir(i), 1)),
{
    let npos = offset(pos, hdir(i), 1);
    let f = level_at(w, npos);
    assert(drop_distance(w, npos, hdir(0)) == 999);
    assert(drop_distance(w, npos, hdir(1)) == 999);
    assert(drop_distance(w, npos, hdir(2)) == 999);
    assert(drop_distance(w, npos, hdir(3)) == 999);
    let back = if i == 0 { 1int } else if i == 1 { 0int } else if i == 2 { 3int } else { 2int };
    assert(hopposite(hdir(i)) == hdir(back));
    assert(offered_level(w, pos, i) == f);
}

/// Larger of two levels.
pub open spec fn max_level(a: u8, b: u8) -> u8 {
    if a > b { a } else { b }
}

/// Fluid level a voxel that is not solid settles to: full for sources and under fluid with
/// nothing solid below; otherwise one less than the most it is fed (full from fluid above
/// when it rests on something solid), and nothing at the top of the world.
pub open spec fn target_level(w: WorldManager, pos: IVec3) -> u8 {
    if source_at(w, pos) {
        MAX_FLUID_LEVEL
    } else if pos.y + 1 >= 256 {
        0
    } else {
        let fa = level_at(w, above(pos));
        let suspended = !solid(w.block_at(below(pos)));
        if fa > 0 && suspended {
            MAX_FLUID_LEVEL
        } else {
            let m = max_level(
                max_level(
                    max_level(if fa > 0 { MAX_FLUID_LEVEL } else { 0 }, offered_level(w, pos, 0)),
                    offered_level(w, pos, 1),
                ),
                max_level(offered_level(w, pos, 2), offered_level(w, pos, 3)),
            );
            if m > 1 {
                (m - 1) as u8
            } else {
                0
            }
        }
    }
}

/// Fluid byte a voxel that is not solid settles to: its target level, keeping the source mark.
pub open spec fn target_raw(w: WorldManager, pos: IVec3) -> u8 {
    if source_at(w, pos) {
        target_level(w, pos) | 0x80u8
    } else {
        target_level(w, pos)
    }
}

/// How far fluid at `npos` would have to run along `dir` to fall.
fn spread_distance_exec(w: &WorldManager, npos: IVec3, dir: IVec3, level: u8) -> (r: u32)
    requires
        w.wf(),
        coords_ok(npos, 8),
        is_hdir(dir),
    ensures
        r == spread_distance(*w, npos, dir, level),
{
    let next = IVec3 { x: npos.x + dir.x, y: npos.y + dir.y, z: npos.z + dir.z };
    proof {
        assert(next == offset(npos, dir, 1));
    }
    if (w.get_fluid_global(next) & 0x0F) >= level {
        999
    } else {
        get_distance_to_drop(w, npos, dir)
    }
}

/// The horizontal step `hdir(i)`.
fn hdir_exec(i: usize) -> (r: IVec3)
    requires
        i < 4,
    ensures
        r == hdir(i as int),
        is_hdir(r),
{
    if i == 0 {
        IVec3 { x: 1, y: 0, z: 0 }
    } else if i == 1 {
        IVec3 { x: -1, y: 0, z: 0 }
    } else if i == 2 {
        IVec3 { x: 0, y: 0, z: 1 }
    } else {
        IVec3 { x: 0, y: 0, z: -1 }
    }
}

/// The fluid level the horizontal neighbour `hdir(i)` of `pos` feeds into `pos`.
#[verifier::rlimit(40)]
fn offered_level_exec(w: &WorldManager, pos: IVec3, i: usize) -> (r: u8)
    requires
        w.wf(),
        coords_ok(pos, 16),
        i < 4,
    ensures
        r == offered_level(*w, pos, i as int),
{
    let dir = hdir_exec(i);
    let npos = IVec3 { x: pos.x + dir.x, y: pos.y, z: pos.z + dir.z };
    proof {
        assert(npos == offset(pos, hdir(i as int), 1));
    }
    if w.get_block_global(npos).is_solid() {
        return 0;
    }
    let f_raw = w.get_fluid_global(npos);
    let f_level = f_raw & 0x0F;
    let n_is_source = (f_raw & 0x80) != 0;
    if f_level == 0 {
        return 0;
    }
    let below_n = IVec3 { x: npos.x, y: npos.y - 1, z: npos.z };
    let allow_horizontal_spread = n_is_source || w.get_block_global(below_n).is_solid();
    if !allow_horizontal_spread {
        return 0;
    }
    let d0 = spread_distance_exec(w, npos, hdir_exec(0), f_level);
    let d1 = spread_distance_exec(w, npos, hdir_exec(1), f_level);
    let d2 = spread_distance_exec(w, npos, hdir_exec(2), f_level);
    let d3 = spread_distance_exec(w, npos, hdir_exec(3), f_level);
    let ab = if d0 < d1 { d0 } else { d1 };
    let cd = if d2 < d3 { d2 } else { d3 };
    let min_dist = if ab < cd { ab } else { cd };
    let flow_dir = IVec3 { x: -dir.x, y: 0, z: -dir.z };
    proof {
        assert(flow_dir == hopposite(hdir(i as int)));
    }
    let dist_to_pos = spread_distance_exec(w, npos, flow_dir, f_level);
    let b_curr_pos = w.get_block_global(pos);
    if min_dist == 999 || dist_to_pos == min_dist || (min_dist != 1 && b_curr_pos
        == BlockType::Air) {
        f_level
    } else {
        0
    }
}

/// Fluid byte a voxel that is not solid settles to.
pub fn fluid_target(w: &WorldManager, pos: IVec3) -> (r: u8)
    requires
        w.wf(),
        coords_ok(pos, 16),
    ensures
        r == target_raw(*w, pos),
{
    let current_raw = w.get_fluid_global(pos);
    let is_source = (current_raw & 0x80) != 0;
    let mut target_level: u8 = 0;
    if is_source {
        target_level = MAX_FLUID_LEVEL;
    } else if pos.y + 1 < 256 {
        let above_pos = IVec3 { x: pos.x, y: pos.y + 1, z: pos.z };
        let below_pos = IVec3 { x: pos.x, y: pos.y - 1, z: pos.z };
        let fluid_above = w.get_fluid_global(above_pos) & 0x0F;
        let is_suspended = !w.get_block_global(below_pos).is_solid();
        if fluid_above > 0 && is_suspended {
            target_level = MAX_FLUID_LEVEL;
        } else {
            let mut max_n: u8 = 0;
            if fluid_above > 0 && !is_suspended {
                max_n = MAX_FLUID_LEVEL;
            }
            let o0 = offered_level_exec(w, pos, 0);
            if o0 > max_n {
                max_n = o0;
            }
            let o1 = offered_level_exec(w, pos, 1);
            if o1 > max_n {
                max_n = o1;
            }
            let o2 = offered_level_exec(w, pos, 2);
            let o3 = offered_level_exec(w, pos, 3);
            let o23 = if o2 > o3 { o2 } else { o3 };
            if o23 > max_n {
                max_n = o23;
            }
            if max_n > 1 {
                target_level = max_n - 1;
            } else {
                target_level = 0;
            }
        }
    }
    if is_source {
        target_level | 0x80
    } else {
        target_level
    }
}


/// A key telling positions apart.
pub open spec fn voxel_key(p: IVec3) -> u128 {
    chunk_key(p)
}

/// A key telling positions apart.
pub fn voxel_key_of(p: IVec3) -> (r: u128)
    ensures
        r == voxel_key(p),
{
    chunk_key_of(p)
}

/// Whether a voxel can take part in fluid flow: open air or holding fluid.
pub open spec fn wakes(w: WorldManager, p: IVec3) -> bool {
    w.block_at(p) == BlockType::Air || level_at(w, p) > 0
}

/// The `i`-th position of the 9x3x9 box around `center`, layer by layer from below, rows
/// along X, positions along Z.
pub open spec fn wake_box_pos(center: IVec3, i: int) -> IVec3 {
    IVec3 {
        x: (center.x + (i / 9) % 9 - 4) as i32,
        y: (center.y + i / 81 - 1) as i32,
        z: (center.z + i % 9 - 4) as i32,
    }
}

/// The positions of the 9x3x9 box around `center` in scan order.
pub open spec fn wake_box(center: IVec3) -> Seq<IVec3> {
    Seq::new(243, |i: int| wake_box_pos(center, i))
}

proof fn lemma_wake_box_distinct(center: IVec3, i: int, j: int)
    requires
        coords_ok(center, 8),
        0 <= i < 243,
        0 <= j < 243,
        i != j,
    ensures
        wake_box_pos(center, i) != wake_box_pos(center, j),
{
    assert(i == (i / 81) * 81 + ((i / 9) % 9) * 9 + i % 9) by (nonlinear_arith)
        requires 0 <= i < 243;
    assert(j == (j / 81) * 81 + ((j / 9) % 9) * 9 + j % 9) by (nonlinear_arith)
        requires 0 <= j < 243;
    assert(0 <= (i / 9) % 9 < 9 && 0 <= i % 9 < 9 && 0 <= i / 81 < 3) by (nonlinear_arith)
        requires 0 <= i < 243;
    assert(0 <= (j / 9) % 9 < 9 && 0 <= j % 9 < 9 && 0 <= j / 81 < 3) by (nonlinear_arith)
        requires 0 <= j < 243;
}

/// Queues for fluid updates, once each, the voxels of the 9x3x9 box around `center` that can
/// take part in fluid flow, in scan order; the 3x3x3 box around `center` is scanned again so
/// that it is never missed, which adds nothing since it lies inside the larger one.
#[verifier::rlimit(40)]
pub fn wake_up_fluids_in_radius(world: &mut WorldManager, center: IVec3)
    requires
        old(world).wf(),
        coords_ok(center, 8),
    ensures
        final(world).fluid_queue@ == old(world).fluid_queue@ + wake_box(center).filter(
            |p: IVec3| wakes(*old(world), p),
        ),
        final(world).chunks == old(world).chunks,
        final(world).heightmap_cache == old(world).heightmap_cache,
        final(world).loading_chunks == old(world).loading_chunks,
        final(world).vacuum_chunks == old(world).vacuum_chunks,
        final(world).dirty_chunks_for_meshing == old(world).dirty_chunks_for_meshing,
        final(world).world_type == old(world).world_type,
        final(world).seed == old(world).seed,
{
    let ghost w0 = *world;
    let ghost q0 = world.fluid_queue@;
    let ghost pred = |p: IVec3| wakes(w0, p);
    let mut pushed_set: HashSet<u128> = HashSet::new();
    let mut i: usize = 0;
    while i < 243
        invariant
            0 <= i <= 243,
            world.wf(),
            coords_ok(center, 8),
            world.chunks == w0.chunks,
            world.heightmap_cache == w0.heightmap_cache,
            world.loading_chunks == w0.loading_chunks,
            world.vacuum_chunks == w0.vacuum_chunks,
            world.dirty_chunks_for_meshing == w0.dirty_chunks_for_meshing,
            world.world_type == w0.world_type,
            world.seed == w0.seed,
            pred == (|p: IVec3| wakes(w0, p)),
            world.fluid_queue@ == q0 + wake_box(center).take(i as int).filter(pred),
            forall|j: int|
                0 <= j < 243 ==> (pushed_set@.contains(voxel_key(#[trigger] wake_box_pos(center, j)))
                    <==> (j < i && wakes(w0, wake_box_pos(center, j)))),
            forall|k: u128|
                #[trigger] pushed_set@.contains(k) ==> exists|j: int|
                    0 <= j < i && k == voxel_key(#[trigger] wake_box_pos(center, j)),
        decreases 243 - i,
    {
        let ii = i as i32;
        let dy = ii / 81 - 1;
        let dx = (ii / 9) % 9 - 4;
        let dz = ii % 9 - 4;
        let npos = IVec3 { x: center.x + dx, y: center.y + dy, z: center.z + dz };
        proof {
            assert(npos == wake_box_pos(center, i as int));
            assert(wake_box(center).take(i as int + 1) =~= wake_box(center).take(i as int).push(
                npos,
            ));
            wake_box(center).take(i as int).lemma_filter_push(npos, pred);
        }
        let block = world.get_block_global(npos);
        let fluid_level = world.get_fluid_global(npos) & 0x0F;
        if block == BlockType::Air || fluid_level > 0 {
            let key = voxel_key_of(npos);
            let ghost s0 = pushed_set@;
            let fresh = pushed_set.insert(key);
            proof {
                assert(fresh) by {
                    if s0.contains(key) {
                        let j = choose|j: int|
                            0 <= j < i && key == voxel_key(#[trigger] wake_box_pos(center, j));
                        crate::world::lemma_chunk_key_injective(wake_box_pos(center, j), npos);
                        lemma_wake_box_distinct(center, j, i as int);
                    }
                }
            }
            if fresh {
                world.fluid_queue.push_back(npos);
            }
            proof {
                assert(world.fluid_at(npos) == w0.fluid_at(npos));
                assert(world.block_at(npos) == w0.block_at(npos));
                assert(wakes(w0, npos));
                assert(pred(npos));
                let a = wake_box(center).take(i as int).filter(pred);
                assert(wake_box(center).take(i as int + 1).filter(pred) == a.push(npos));
                assert(q0 + a.push(npos) =~= (q0 + a).push(npos));
                assert(world.fluid_queue@ =~= q0 + wake_box(center).take(i as int + 1).filter(
                    pred,
                ));
                assert forall|j: int| 0 <= j < 243 implies (pushed_set@.contains(
                    voxel_key(#[trigger] wake_box_pos(center, j)),
                ) <==> (j < i + 1 && wakes(w0, wake_box_pos(center, j)))) by {
                    if j != i {
                        crate::world::lemma_chunk_key_injective(wake_box_pos(center, j), npos);
                        if j >= 0 && j < 243 && j != i {
                            lemma_wake_box_distinct(center, j, i as int);
                        }
                    }
                }
                assert forall|k: u128| #[trigger] pushed_set@.contains(k) implies exists|j: int|
                    0 <= j < i + 1 && k == voxel_key(#[trigger] wake_box_pos(center, j)) by {
                    if k == key {
                        assert(k == voxel_key(wake_box_pos(center, i as int)));
                    } else {
                        assert(s0.contains(k));
                    }
                }
            }
        } else {
            proof {
                assert(world.fluid_at(npos) == w0.fluid_at(npos));
                assert(world.block_at(npos) == w0.block_at(npos));
                assert(!wakes(w0, npos));
                assert(!pred(npos));
                assert(world.fluid_queue@ =~= q0 + wake_box(center).take(i as int + 1).filter(
                    pred,
                ));
                assert forall|j: int| 0 <= j < 243 implies (pushed_set@.contains(
                    voxel_key(#[trigger] wake_box_pos(center, j)),
                ) <==> (j < i + 1 && wakes(w0, wake_box_pos(center, j)))) by {}
            }
        }
        i = i + 1;
    }
    proof {
        assert(wake_box(center).take(243) =~= wake_box(center));
    }
    let ghost q1 = world.fluid_queue@;
    let mut k: usize = 0;
    while k < 27
        invariant
            0 <= k <= 27,
            world.wf(),
            coords_ok(center, 8),
            world.chunks == w0.chunks,
            world.heightmap_cache == w0.heightmap_cache,
            world.loading_chunks == w0.loading_chunks,
            world.vacuum_chunks == w0.vacuum_chunks,
            world.dirty_chunks_for_meshing == w0.dirty_chunks_for_meshing,
            world.world_type == w0.world_type,
            world.seed == w0.seed,
            world.fluid_queue@ == q1,
            forall|j: int|
                0 <= j < 243 ==> (pushed_set@.contains(voxel_key(#[trigger] wake_box_pos(center, j)))
                    <==> wakes(w0, wake_box_pos(center, j))),
        decreases 27 - k,
    {
        let kk = k as i32;
        let dy = kk / 9 - 1;
        let dx = (kk / 3) % 3 - 1;
        let dz = kk % 3 - 1;
        let npos = IVec3 { x: center.x + dx, y: center.y + dy, z: center.z + dz };
        let ghost j = (dy + 1) * 81 + (dx + 4) * 9 + (dz + 4);
        proof {
            assert(0 <= j < 243);
            assert(npos == wake_box_pos(center, j)) by {
                assert(j / 81 == dy + 1);
                assert((j / 9) % 9 == dx + 4);
                assert(j % 9 == dz + 4);
            }
        }
        let block = world.get_block_global(npos);
        let fluid_level = world.get_fluid_global(npos) & 0x0F;
        if block == BlockType::Air || fluid_level > 0 {
            let key = voxel_key_of(npos);
            let fresh = pushed_set.insert(key);
            proof {
                assert(!fresh);
            }
            if fresh {
                world.fluid_queue.push_back(npos);
            }
        }
        k = k + 1;
    }
}


/// The neighbours a changed fluid voxel wakes, in order: above, below, +X, -X, +Z, -Z.
pub open spec fn wake_dir_pos(p: IVec3, j: int) -> IVec3 {
    if j == 0 {
        above(p)
    } else if j == 1 {
        below(p)
    } else if j == 2 {
        offset(p, hdir(0), 1)
    } else if j == 3 {
        offset(p, hdir(1), 1)
    } else if j == 4 {
        offset(p, hdir(2), 1)
    } else {
        offset(p, hdir(3), 1)
    }
}

/// Whether a neighbour of a changed voxel is queued: inside the world, able to take part in
/// fluid flow and not queued already in this tick.
pub open spec fn wakes_fresh(w: WorldManager, n: IVec3, pushed: Set<u128>) -> bool {
    in_world(n) && wakes(w, n) && !pushed.contains(voxel_key(n))
}

/// The neighbours a changed voxel at `p` queues.
pub open spec fn woken_neighbors(w: WorldManager, p: IVec3, pushed: Set<u128>) -> Seq<IVec3> {
    Seq::new(6, |j: int| wake_dir_pos(p, j)).filter(|n: IVec3| wakes_fresh(w, n, pushed))
}

/// The fluid byte a voxel settles to in one update: nothing in a solid block, otherwise its
/// target.
pub open spec fn settled_fluid(w: WorldManager, p: IVec3) -> u8 {
    if solid(w.block_at(p)) {
        0
    } else {
        target_raw(w, p)
    }
}

/// One fluid update as `update_fluid_at` makes it, seen in blocks and fluids: `b` is `a` with the
/// fluid at `pos` settled (when `pos` is one the rules look at).
pub open spec fn fluid_step(a: WorldManager, b: WorldManager, pos: IVec3) -> bool {
    &&& forall|p: IVec3| #[trigger] b.block_at(p) == a.block_at(p)
    &&& forall|p: IVec3|
        #[trigger] b.fluid_at(p) == if p == pos && updatable(pos) {
            settled_fluid(a, pos)
        } else {
            a.fluid_at(p)
        }
}

/// What one update queues: the woken neighbours of a position whose fluid changed, leaving out
/// those already queued this tick (`pushed`).
pub open spec fn step_woken(a: WorldManager, pos: IVec3, pushed: Set<u128>) -> Seq<IVec3> {
    if updatable(pos) && !solid(a.block_at(pos)) && target_raw(a, pos) != a.fluid_at(pos) {
        woken_neighbors(a, pos, pushed)
    } else {
        Seq::empty()
    }
}

/// Keys of the positions of a queue.
pub open spec fn queued_keys(s: Seq<IVec3>) -> Set<u128> {
    s.map_values(|n: IVec3| voxel_key(n)).to_set()
}

/// The queue the first `k` updates of a tick leave for the next tick: what each update queues, in
/// order, update `k` seeing world `ws[k]` and the positions queued before it.
pub open spec fn tick_queue(ws: Seq<WorldManager>, q: Seq<IVec3>, k: nat) -> Seq<IVec3>
    decreases k,
{
    if k == 0 {
        Seq::empty()
    } else {
        let prev = tick_queue(ws, q, (k - 1) as nat);
        prev + step_woken(ws[k - 1], q[k - 1], queued_keys(prev))
    }
}

proof fn lemma_tick_queue_prefix(ws1: Seq<WorldManager>, ws2: Seq<WorldManager>, q: Seq<IVec3>, k: nat)
    requires
        forall|j: int| 0 <= j < k ==> ws1[j] == ws2[j],
    ensures
        tick_queue(ws1, q, k) == tick_queue(ws2, q, k),
    decreases k,
{
    if k > 0 {
        lemma_tick_queue_prefix(ws1, ws2, q, (k - 1) as nat);
    }
}

/// The worlds one fluid tick passes through: it starts from `w`'s blocks and fluids and takes
/// one `fluid_step` for each queued position, in queue order.
pub open spec fn tick_trace(w: WorldManager, q: Seq<IVec3>, ws: Seq<WorldManager>) -> bool {
    &&& ws.len() == q.len() + 1
    &&& forall|p: IVec3| #[trigger] ws[0].block_at(p) == w.block_at(p)
    &&& forall|p: IVec3| #[trigger] ws[0].fluid_at(p) == w.fluid_at(p)
    &&& forall|k: int| 0 <= k < q.len() ==> fluid_step(#[trigger] ws[k], ws[k + 1], q[k])
}

/// Whether a fluid update looks at a position: inside the world and away from the limits of
/// the coordinate range.
pub open spec fn updatable(p: IVec3) -> bool {
    in_world(p) && coords_ok(p, 16)
}

proof fn lemma_wake_dirs_distinct(p: IVec3, a: int, b: int)
    requires
        coords_ok(p, 16),
        0 <= a < 6,
        0 <= b < 6,
        a != b,
    ensures
        wake_dir_pos(p, a) != wake_dir_pos(p, b),
        voxel_key(wake_dir_pos(p, a)) != voxel_key(wake_dir_pos(p, b)),
{
    crate::world::lemma_chunk_key_injective(wake_dir_pos(p, a), wake_dir_pos(p, b));
}

impl WorldManager {
    /// Brings the fluid at one position up to date: fluid in a solid block is removed (and
    /// nothing is woken); elsewhere the voxel takes its target byte, and when that changes it,
    /// the neighbours above, below and around that can take part in flow and were not queued
    /// yet in this tick are queued and remembered in `pushed`. Positions outside the world, or
    /// within 16 of the limits of the coordinate range, are left alone.
    #[verifier::rlimit(60)]
    pub fn update_fluid_at(&mut self, pos: IVec3, pushed: &mut HashSet<u128>)
        requires
            old(self).wf(),
        ensures
            final(self).wf(),
            forall|p: IVec3| #[trigger] final(self).block_at(p) == old(self).block_at(p),
            forall|p: IVec3|
                #[trigger] final(self).fluid_at(p) == if p == pos && updatable(pos) {
                    settled_fluid(*old(self), pos)
                } else {
                    old(self).fluid_at(p)
                },
            final(self).fluid_queue@ == old(self).fluid_queue@ + if updatable(pos) && !solid(
                old(self).block_at(pos),
            ) && target_raw(*old(self), pos) != old(self).fluid_at(pos) {
                woken_neighbors(*old(self), pos, old(pushed)@)
            } else {
                Seq::empty()
            },
            final(pushed)@ == old(pushed)@ + (final(self).fluid_queue@.subrange(
                old(self).fluid_queue@.len() as int,
                final(self).fluid_queue@.len() as int,
            )).map_values(|n: IVec3| voxel_key(n)).to_set(),
            forall|cp: IVec3|
                cp != crate::world::chunk_of(pos) ==> #[trigger] final(self).entry_at(cp) == old(
                    self,
                ).entry_at(cp),
            final(self).heightmap_cache@ == old(self).heightmap_cache@,
            final(self).loading_chunks@ == old(self).loading_chunks@,
            final(self).vacuum_chunks@ == old(self).vacuum_chunks@,
            old(self).dirty_chunks_for_meshing@.subset_of(final(self).dirty_chunks_for_meshing@),
            final(self).dirty_chunks_for_meshing@.subset_of(
                old(self).dirty_chunks_for_meshing@.insert(chunk_key(chunk_of(pos))),
            ),
            final(self).fluid_at(pos) != old(self).fluid_at(pos)
                ==> final(self).dirty_chunks_for_meshing@.contains(chunk_key(chunk_of(pos))),
            keeps_chunks_but_fluid(*old(self), *final(self)),
            final(self).world_type == old(self).world_type,
            final(self).seed == old(self).seed,
    {
        let ghost w0 = *self;
        let ghost p0 = pushed@;
        if pos.y < 0 || pos.y >= 256 || !(-2147483632 <= pos.x && pos.x <= 2147483631
            && -2147483632 <= pos.z && pos.z <= 2147483631) {
            proof {
                assert(self.fluid_queue@ =~= w0.fluid_queue@ + Seq::<IVec3>::empty());
                assert(pushed@ =~= p0 + Seq::<IVec3>::empty().map_values(|n: IVec3| voxel_key(n)).to_set());
            }
            return;
        }
        let block = self.get_block_global(pos);
        if block.is_solid() {
            if self.get_fluid_global(pos) > 0 {
                self.set_fluid_global(pos, 0);
            }
            proof {
                assert(self.fluid_queue@ =~= w0.fluid_queue@ + Seq::<IVec3>::empty());
                assert(pushed@ =~= p0 + self.fluid_queue@.subrange(
                    w0.fluid_queue@.len() as int,
                    self.fluid_queue@.len() as int,
                ).map_values(|n: IVec3| voxel_key(n)).to_set());
            }
            return;
        }
        let current_raw = self.get_fluid_global(pos);
        let target = fluid_target(self, pos);
        if current_raw == target {
            proof {
                assert(self.fluid_queue@ =~= w0.fluid_queue@ + Seq::<IVec3>::empty());
                assert(pushed@ =~= p0 + self.fluid_queue@.subrange(
                    w0.fluid_queue@.len() as int,
                    self.fluid_queue@.len() as int,
                ).map_values(|n: IVec3| voxel_key(n)).to_set());
            }
            return;
        }
        self.set_fluid_global(pos, target);
        let ghost w1 = *self;
        let ghost six = Seq::new(6, |j: int| wake_dir_pos(pos, j));
        let ghost fpred = |n: IVec3| wakes_fresh(w0, n, p0);
        let mut j: usize = 0;
        while j < 6
            invariant
                0 <= j <= 6,
                self.wf(),
                updatable(pos),
                six == Seq::new(6, |jj: int| wake_dir_pos(pos, jj)),
                fpred == (|n: IVec3| wakes_fresh(w0, n, p0)),
                self.chunks == w1.chunks,
                self.heightmap_cache == w1.heightmap_cache,
                self.loading_chunks == w1.loading_chunks,
                self.vacuum_chunks == w1.vacuum_chunks,
                self.dirty_chunks_for_meshing == w1.dirty_chunks_for_meshing,
                self.world_type == w1.world_type,
                self.seed == w1.seed,
                forall|p: IVec3| p != pos ==> #[trigger] w1.fluid_at(p) == w0.fluid_at(p),
                w1.fluid_at(pos) == target,
                target == settled_fluid(w0, pos),
                forall|p: IVec3| #[trigger] w1.block_at(p) == w0.block_at(p),
                forall|cp: IVec3|
                    cp != crate::world::chunk_of(pos) ==> #[trigger] w1.entry_at(cp) == w0.entry_at(cp),
                w1.heightmap_cache@ == w0.heightmap_cache@,
                w1.loading_chunks@ == w0.loading_chunks@,
                w1.vacuum_chunks@ == w0.vacuum_chunks@,
                w0.dirty_chunks_for_meshing@.subset_of(w1.dirty_chunks_for_meshing@),
                w1.dirty_chunks_for_meshing@.subset_of(
                    w0.dirty_chunks_for_meshing@.insert(chunk_key(chunk_of(pos))),
                ),
                w1.fluid_at(pos) != w0.fluid_at(pos)
                    ==> w1.dirty_chunks_for_meshing@.contains(chunk_key(chunk_of(pos))),
                keeps_chunks_but_fluid(w0, w1),
                w1.world_type == w0.world_type,
                w1.seed == w0.seed,
                w1.fluid_queue@ == w0.fluid_queue@,
                self.fluid_queue@ == w1.fluid_queue@ + six.take(j as int).filter(fpred),
                pushed@ == p0 + six.take(j as int).filter(fpred).map_values(
                    |n: IVec3| voxel_key(n),
                ).to_set(),
                forall|jj: int|
                    j <= jj < 6 ==> (pushed@.contains(voxel_key(#[trigger] wake_dir_pos(pos, jj)))
                        <==> p0.contains(voxel_key(wake_dir_pos(pos, jj)))),
            decreases 6 - j,
        {
            let npos = if j == 0 {
                IVec3 { x: pos.x, y: pos.y + 1, z: pos.z }
            } else if j == 1 {
                IVec3 { x: pos.x, y: pos.y - 1, z: pos.z }
            } else if j == 2 {
                IVec3 { x: pos.x + 1, y: pos.y, z: pos.z }
            } else if j == 3 {
                IVec3 { x: pos.x - 1, y: pos.y, z: pos.z }
            } else if j == 4 {
                IVec3 { x: pos.x, y: pos.y, z: pos.z + 1 }
            } else {
                IVec3 { x: pos.x, y: pos.y, z: pos.z - 1 }
            };
            let ghost a = six.take(j as int).filter(fpred);
            proof {
                assert(npos == wake_dir_pos(pos, j as int));
                assert(six.take(j as int + 1) =~= six.take(j as int).push(npos));
                six.take(j as int).lemma_filter_push(npos, fpred);
                assert(npos != pos) by {
                    if j == 0 || j == 1 {} else {}
                }
                assert(w1.fluid_at(npos) == w0.fluid_at(npos));
            }
            if npos.y >= 0 && npos.y < 256 {
                let neighbor_block = self.get_block_global(npos);
                let neighbor_fluid = self.get_fluid_global(npos) & 0x0F;
                if neighbor_block == BlockType::Air || neighbor_fluid > 0 {
                    let key = voxel_key_of(npos);
                    let ghost s0 = pushed@;
                    let fresh = pushed.insert(key);
                    proof {
                        assert(s0.contains(key) == p0.contains(key));
                        assert(self.block_at(npos) == w1.block_at(npos));
                        assert(self.fluid_at(npos) == w1.fluid_at(npos));
                        assert(wakes(w0, npos));
                        assert(fpred(npos) == fresh);
                    }
                    if fresh {
                        self.fluid_queue.push_back(npos);
                    }
                    proof {
                        assert(self.fluid_queue@ =~= w1.fluid_queue@ + six.take(j as int + 1).filter(
                            fpred,
                        )) by {
                            if fresh {
                                assert(w1.fluid_queue@ + a.push(npos) =~= (w1.fluid_queue@ + a).push(
                                    npos,
                                ));
                            }
                        }
                        assert(pushed@ =~= p0 + six.take(j as int + 1).filter(fpred).map_values(
                            |n: IVec3| voxel_key(n),
                        ).to_set()) by {
                            if fresh {
                                assert(a.push(npos).map_values(|n: IVec3| voxel_key(n)) =~= a.map_values(
                                    |n: IVec3| voxel_key(n),
                                ).push(key));
                                assert(a.push(npos).map_values(|n: IVec3| voxel_key(n)).to_set()
                                    =~= a.map_values(|n: IVec3| voxel_key(n)).to_set().insert(
                                    key,
                                )) by {
                                    let ms = a.map_values(|n: IVec3| voxel_key(n));
                                    assert forall|k: u128| ms.push(key).to_set().contains(k)
                                        implies ms.to_set().insert(key).contains(k) by {
                                        let i = choose|i: int| 0 <= i < ms.push(key).len() && ms.push(key)[i] == k;
                                        if i < ms.len() {
                                            assert(ms[i] == k);
                                        }
                                    }
                                    assert forall|k: u128| ms.to_set().insert(key).contains(k)
                                        implies ms.push(key).to_set().contains(k) by {
                                        if k == key {
                                            assert(ms.push(key)[ms.len() as int] == k);
                                        } else {
                                            let i = choose|i: int| 0 <= i < ms.len() && ms[i] == k;
                                            assert(ms.push(key)[i] == k);
                                        }
                                    }
                                }
                            }
                        }
                        assert forall|jj: int| j + 1 <= jj < 6 implies (pushed@.contains(
                            voxel_key(#[trigger] wake_dir_pos(pos, jj)),
                        ) <==> p0.contains(voxel_key(wake_dir_pos(pos, jj)))) by {
                            lemma_wake_dirs_distinct(pos, j as int, jj);
                        }
                    }
                } else {
                    proof {
                        assert(self.block_at(npos) == w1.block_at(npos));
                        assert(self.fluid_at(npos) == w1.fluid_at(npos));
                        assert(!wakes(w0, npos));
                        assert(!fpred(npos));
                        assert(self.fluid_queue@ =~= w1.fluid_queue@ + six.take(j as int + 1).filter(
                            fpred,
                        ));
                    }
                }
            } else {
                proof {
                    assert(!fpred(npos));
                    assert(self.fluid_queue@ =~= w1.fluid_queue@ + six.take(j as int + 1).filter(
                        fpred,
                    ));
                }
            }
            j = j + 1;
        }
        proof {
            assert(six.take(6) =~= six);
            assert(self.fluid_queue@.subrange(
                w0.fluid_queue@.len() as int,
                self.fluid_queue@.len() as int,
            ) =~= six.filter(fpred));
            assert forall|p: IVec3| #[trigger] self.fluid_at(p) == if p == pos && updatable(pos) {
                settled_fluid(w0, pos)
            } else {
                w0.fluid_at(p)
            } by {
                assert(self.fluid_at(p) == w1.fluid_at(p));
            }
            assert forall|cp: IVec3| cp != crate::world::chunk_of(pos) implies #[trigger] self.entry_at(cp)
                == w0.entry_at(cp) by {
                assert(self.entry_at(cp) == w1.entry_at(cp));
            }
            assert forall|p: IVec3| #[trigger] self.block_at(p) == w0.block_at(p) by {
                assert(self.block_at(p) == w1.block_at(p));
            }
        }
    }
}


/// What a filter keeps comes from the filtered sequence, in a sequence without repeats when the
/// filtered one has none.
proof fn lemma_filter_subseq<A>(s: Seq<A>, pred: spec_fn(A) -> bool)
    ensures
        forall|i: int|
            0 <= i < s.filter(pred).len() ==> exists|j: int|
                0 <= j < s.len() && #[trigger] s.filter(pred)[i] == s[j],
        s.no_duplicates() ==> s.filter(pred).no_duplicates(),
        forall|i: int| 0 <= i < s.filter(pred).len() ==> pred(#[trigger] s.filter(pred)[i]),
    decreases s.len(),
{
    reveal(Seq::filter);
    #[allow(deprecated)]
    s.filter_lemma(pred);
    if s.len() > 0 {
        let rest = s.drop_last();
        lemma_filter_subseq(rest, pred);
        let f = s.filter(pred);
        let fr = rest.filter(pred);
        assert forall|i: int| 0 <= i < f.len() implies exists|j: int|
            0 <= j < s.len() && #[trigger] f[i] == s[j] by {
            if i < fr.len() {
                let j = choose|j: int| 0 <= j < rest.len() && fr[i] == rest[j];
                assert(f[i] == fr[i]);
                assert(s[j] == rest[j]);
            } else {
                assert(f[i] == s[s.len() - 1]);
            }
        }
        if s.no_duplicates() {
            assert(rest.no_duplicates()) by {
                assert forall|a: int, b: int| 0 <= a < rest.len() && 0 <= b < rest.len() && a != b implies rest[a]
                    != rest[b] by {
                    assert(rest[a] == s[a] && rest[b] == s[b]);
                }
            }
            if pred(s.last()) {
                assert forall|a: int, b: int| 0 <= a < f.len() && 0 <= b < f.len() && a != b implies f[a]
                    != f[b] by {
                    if a < fr.len() && b < fr.len() {
                        assert(f[a] == fr[a] && f[b] == fr[b]);
                    } else if a < fr.len() {
                        let j = choose|j: int| 0 <= j < rest.len() && fr[a] == rest[j];
                        assert(f[a] == fr[a]);
                        assert(rest[j] == s[j]);
                        assert(f[b] == s[s.len() - 1]);
                    } else if b < fr.len() {
                        let j = choose|j: int| 0 <= j < rest.len() && fr[b] == rest[j];
                        assert(f[b] == fr[b]);
                        assert(rest[j] == s[j]);
                        assert(f[a] == s[s.len() - 1]);
                    }
                }
            }
        }
    }
}

/// The neighbours a changed voxel queues are distinct, lie in the world, were not queued in
/// this tick, and are neighbours of that voxel.
proof fn lemma_woken_facts(w: WorldManager, p: IVec3, pushed: Set<u128>)
    requires
        coords_ok(p, 16),
    ensures
        woken_neighbors(w, p, pushed).no_duplicates(),
        forall|i: int|
            0 <= i < woken_neighbors(w, p, pushed).len() ==> {
                let n = #[trigger] woken_neighbors(w, p, pushed)[i];
                &&& in_world(n)
                &&& !pushed.contains(voxel_key(n))
                &&& exists|j: int| 0 <= j < 6 && n == wake_dir_pos(p, j)
            },
{
    let six = Seq::new(6, |j: int| wake_dir_pos(p, j));
    let pred = |n: IVec3| wakes_fresh(w, n, pushed);
    assert(six.no_duplicates()) by {
        assert forall|a: int, b: int| 0 <= a < 6 && 0 <= b < 6 && a != b implies six[a] != six[b] by {
            lemma_wake_dirs_distinct(p, a, b);
        }
    }
    lemma_filter_subseq(six, pred);
    assert forall|i: int| 0 <= i < woken_neighbors(w, p, pushed).len() implies {
        let n = #[trigger] woken_neighbors(w, p, pushed)[i];
        &&& in_world(n)
        &&& !pushed.contains(voxel_key(n))
        &&& exists|j: int| 0 <= j < 6 && n == wake_dir_pos(p, j)
    } by {
        let n = woken_neighbors(w, p, pushed)[i];
        assert(pred(n));
        let j = choose|j: int| 0 <= j < six.len() && six.filter(pred)[i] == six[j];
        assert(n == wake_dir_pos(p, j));
    }
}

/// Whether a position neighbours (above, below or around) one of the positions in a list.
pub open spec fn woken_by(n: IVec3, q: Seq<IVec3>) -> bool {
    exists|k: int, j: int| 0 <= k < q.len() && 0 <= j < 6 && n == wake_dir_pos(q[k], j)
}

impl WorldManager {
    /// One fluid tick: every position queued when the tick starts is taken from the queue and
    /// brought up to date in turn, and the neighbours woken by changes are queued for the next
    /// tick, each position at most once. Only queued positions change their fluid; blocks stay,
    /// and so do the light, entity and lighting state of every loaded chunk. A chunk whose fluid
    /// changed is queued for meshing, and no chunk is queued but those of queued positions. With
    /// nothing queued the tick changes nothing.
    #[verifier::rlimit(60)]
    pub fn fluid_tick(&mut self)
        requires
            old(self).wf(),
        ensures
            final(self).wf(),
            old(self).fluid_queue@.len() == 0 ==> *final(self) == *old(self),
            keeps_chunks_but_fluid(*old(self), *final(self)),
            forall|p: IVec3|
                #[trigger] final(self).fluid_at(p) != old(self).fluid_at(p)
                    ==> final(self).dirty_chunks_for_meshing@.contains(chunk_key(chunk_of(p))),
            forall|k: u128|
                #[trigger] final(self).dirty_chunks_for_meshing@.contains(k)
                    ==> old(self).dirty_chunks_for_meshing@.contains(k) || exists|i: int|
                    0 <= i < old(self).fluid_queue@.len() && k == chunk_key(
                        chunk_of(#[trigger] old(self).fluid_queue@[i]),
                    ),
            forall|p: IVec3| #[trigger] final(self).block_at(p) == old(self).block_at(p),
            forall|p: IVec3|
                #[trigger] final(self).fluid_at(p) != old(self).fluid_at(p)
                    ==> old(self).fluid_queue@.contains(p),
            final(self).fluid_queue@.no_duplicates(),
            forall|i: int|
                0 <= i < final(self).fluid_queue@.len() ==> {
                    let n = #[trigger] final(self).fluid_queue@[i];
                    &&& in_world(n)
                    &&& woken_by(n, old(self).fluid_queue@)
                },
            exists|ws: Seq<WorldManager>|
                #[trigger] tick_trace(*old(self), old(self).fluid_queue@, ws) && (forall|p: IVec3|
                    #[trigger] final(self).fluid_at(p) == ws.last().fluid_at(p)) && final(self).fluid_queue@
                    == tick_queue(ws, old(self).fluid_queue@, old(self).fluid_queue@.len()),
            final(self).heightmap_cache@ == old(self).heightmap_cache@,
            final(self).loading_chunks@ == old(self).loading_chunks@,
            final(self).vacuum_chunks@ == old(self).vacuum_chunks@,
            old(self).dirty_chunks_for_meshing@.subset_of(final(self).dirty_chunks_for_meshing@),
            final(self).world_type == old(self).world_type,
            final(self).seed == old(self).seed,
    {
        let ghost w0 = *self;
        let ghost q0 = self.fluid_queue@;
        let current_len = self.fluid_queue.len();
        let mut pushed_this_tick: HashSet<u128> = HashSet::new();
        let ghost mut pushed_seq: Seq<IVec3> = Seq::empty();
        let mut i: usize = 0;
        let ghost mut ws: Seq<WorldManager> = seq![w0];
        proof {
            assert(self.fluid_queue@ =~= q0.subrange(0, current_len as int) + pushed_seq);
            assert(pushed_this_tick@ =~= pushed_seq.map_values(|n: IVec3| voxel_key(n)).to_set());
        }
        while i < current_len
            invariant
                0 <= i <= current_len,
                current_len == q0.len(),
                self.wf(),
                self.fluid_queue@ == q0.subrange(i as int, current_len as int) + pushed_seq,
                pushed_seq.no_duplicates(),
                pushed_this_tick@ == pushed_seq.map_values(|n: IVec3| voxel_key(n)).to_set(),
                forall|k: int|
                    0 <= k < pushed_seq.len() ==> {
                        let n = #[trigger] pushed_seq[k];
                        &&& in_world(n)
                        &&& woken_by(n, q0)
                    },
                forall|p: IVec3| #[trigger] self.block_at(p) == w0.block_at(p),
                forall|p: IVec3|
                    #[trigger] self.fluid_at(p) != w0.fluid_at(p) ==> q0.take(i as int).contains(p),
                self.heightmap_cache@ == w0.heightmap_cache@,
                self.loading_chunks@ == w0.loading_chunks@,
                self.vacuum_chunks@ == w0.vacuum_chunks@,
                w0.dirty_chunks_for_meshing@.subset_of(self.dirty_chunks_for_meshing@),
                self.world_type == w0.world_type,
                self.seed == w0.seed,
                ws.len() == i + 1,
                forall|p: IVec3| #[trigger] ws[0].block_at(p) == w0.block_at(p),
                forall|p: IVec3| #[trigger] ws[0].fluid_at(p) == w0.fluid_at(p),
                forall|k: int| 0 <= k < i ==> fluid_step(#[trigger] ws[k], ws[k + 1], q0[k]),
                forall|p: IVec3| #[trigger] self.block_at(p) == ws.last().block_at(p),
                forall|p: IVec3| #[trigger] self.fluid_at(p) == ws.last().fluid_at(p),
                pushed_seq == tick_queue(ws, q0, i as nat),
                i == 0 ==> *self == w0,
                keeps_chunks_but_fluid(w0, *self),
                forall|p: IVec3|
                    #[trigger] self.fluid_at(p) != w0.fluid_at(p)
                        ==> self.dirty_chunks_for_meshing@.contains(chunk_key(chunk_of(p))),
                forall|k: u128|
                    #[trigger] self.dirty_chunks_for_meshing@.contains(k)
                        ==> w0.dirty_chunks_for_meshing@.contains(k) || exists|t: int|
                        0 <= t < i && k == chunk_key(chunk_of(#[trigger] q0[t])),
            decreases current_len - i,
        {
            let ghost wh = *self;
            let pos = match self.fluid_queue.pop_front() {
                Some(p) => p,
                None => {
                    proof {
                        assert(false);
                    }
                    IVec3 { x: 0, y: 0, z: 0 }
                },
            };
            let ghost wa = *self;
            let ghost pa = pushed_this_tick@;
            proof {
                assert(pos == q0[i as int]);
                assert(self.fluid_queue@ =~= q0.subrange(i as int + 1, current_len as int)
                    + pushed_seq);
            }
            proof {
                assert forall|p: IVec3| #[trigger] wa.fluid_at(p) == wh.fluid_at(p) by {}
                assert forall|p: IVec3| #[trigger] wa.block_at(p) == wh.block_at(p) by {}
            }
            self.update_fluid_at(pos, &mut pushed_this_tick);
            proof {
                assert(wa.chunks == wh.chunks);
                assert(keeps_chunks_but_fluid(w0, wa));
                lemma_keeps_chunks_trans(w0, wa, *self);
                assert forall|p: IVec3| #[trigger] self.fluid_at(p) != w0.fluid_at(p)
                    implies self.dirty_chunks_for_meshing@.contains(chunk_key(chunk_of(p))) by {
                    assert(wa.fluid_at(p) == wh.fluid_at(p));
                    if !(p == pos && self.fluid_at(pos) != wa.fluid_at(pos)) {
                        assert(wh.fluid_at(p) != w0.fluid_at(p));
                        assert(wh.dirty_chunks_for_meshing@.contains(chunk_key(chunk_of(p))));
                    }
                }
                assert forall|k: u128| #[trigger] self.dirty_chunks_for_meshing@.contains(k)
                    implies w0.dirty_chunks_for_meshing@.contains(k) || exists|t: int|
                    0 <= t < i + 1 && k == chunk_key(chunk_of(#[trigger] q0[t])) by {
                    if k == chunk_key(chunk_of(pos)) {
                        assert(q0[i as int] == pos);
                    } else {
                        assert(wh.dirty_chunks_for_meshing@.contains(k));
                    }
                }
            }
            proof {
                let ws_old = ws;
                let last = ws_old.last();
                let ws_new = ws_old.update(i as int, wa).push(*self);
                assert forall|p: IVec3| #[trigger] wa.block_at(p) == last.block_at(p) by {
                    assert(wa.block_at(p) == wh.block_at(p));
                }
                assert forall|p: IVec3| #[trigger] wa.fluid_at(p) == last.fluid_at(p) by {
                    assert(wa.fluid_at(p) == wh.fluid_at(p));
                }
                if i > 0 {
                    let prev = ws_old[i as int - 1];
                    assert(fluid_step(prev, last, q0[i as int - 1]));
                    assert(fluid_step(prev, wa, q0[i as int - 1])) by {
                        assert forall|p: IVec3| #[trigger] wa.block_at(p) == prev.block_at(p) by {
                            assert(wa.block_at(p) == last.block_at(p));
                        }
                        assert forall|p: IVec3| #[trigger] wa.fluid_at(p) == if p == q0[i as int - 1] && updatable(
                            q0[i as int - 1],
                        ) {
                            settled_fluid(prev, q0[i as int - 1])
                        } else {
                            prev.fluid_at(p)
                        } by {
                            assert(wa.fluid_at(p) == last.fluid_at(p));
                        }
                    }
                } else {
                    assert forall|p: IVec3| #[trigger] wa.block_at(p) == w0.block_at(p) by {
                        assert(wa.block_at(p) == wh.block_at(p));
                    }
                    assert forall|p: IVec3| #[trigger] wa.fluid_at(p) == w0.fluid_at(p) by {
                        assert(wa.fluid_at(p) == wh.fluid_at(p));
                    }
                }
                assert(fluid_step(wa, *self, pos));
                assert forall|k: int| 0 <= k < i + 1 implies fluid_step(#[trigger] ws_new[k], ws_new[k + 1], q0[k]) by {
                    if k < i as int - 1 {
                        assert(ws_new[k] == ws_old[k] && ws_new[k + 1] == ws_old[k + 1]);
                    } else if k == i as int - 1 {
                        assert(ws_new[k] == ws_old[k] && ws_new[k + 1] == wa);
                    } else {
                        assert(ws_new[k] == wa && ws_new[k + 1] == *self);
                    }
                }
                lemma_tick_queue_prefix(ws_old, ws_new, q0, i as nat);
                ws = ws_new;
            }
            proof {
                let x = self.fluid_queue@.subrange(wa.fluid_queue@.len() as int, self.fluid_queue@.len() as int);
                assert(x =~= if updatable(pos) && !solid(wa.block_at(pos)) && target_raw(wa, pos)
                    != wa.fluid_at(pos) {
                    woken_neighbors(wa, pos, pa)
                } else {
                    Seq::<IVec3>::empty()
                });
                if updatable(pos) {
                    lemma_woken_facts(wa, pos, pa);
                }
                assert forall|a: int, b: int| 0 <= a < pushed_seq.len() && 0 <= b < x.len() implies pushed_seq[a]
                    != x[b] by {
                    assert(!pa.contains(voxel_key(x[b])));
                    assert(pushed_seq.map_values(|n: IVec3| voxel_key(n))[a] == voxel_key(pushed_seq[a]));
                }
                vstd::seq_lib::lemma_no_dup_in_concat(pushed_seq, x);
                let new_seq = pushed_seq + x;
                assert(pushed_this_tick@ =~= new_seq.map_values(|n: IVec3| voxel_key(n)).to_set()) by {
                    let m1 = pushed_seq.map_values(|n: IVec3| voxel_key(n));
                    let m2 = x.map_values(|n: IVec3| voxel_key(n));
                    assert(new_seq.map_values(|n: IVec3| voxel_key(n)) =~= m1 + m2);
                    assert forall|k: u128| (m1 + m2).to_set().contains(k) implies m1.to_set().union(
                        m2.to_set(),
                    ).contains(k) by {
                        let t = choose|t: int| 0 <= t < (m1 + m2).len() && (m1 + m2)[t] == k;
                        if t < m1.len() {
                            assert(m1[t] == k);
                        } else {
                            assert(m2[t - m1.len()] == k);
                        }
                    }
                    assert forall|k: u128| m1.to_set().union(m2.to_set()).contains(k) implies (m1
                        + m2).to_set().contains(k) by {
                        if m1.to_set().contains(k) {
                            let t = choose|t: int| 0 <= t < m1.len() && m1[t] == k;
                            assert((m1 + m2)[t] == k);
                        } else {
                            let t = choose|t: int| 0 <= t < m2.len() && m2[t] == k;
                            assert((m1 + m2)[m1.len() + t] == k);
                        }
                    }
                }
                assert forall|k: int| 0 <= k < new_seq.len() implies {
                    let n = #[trigger] new_seq[k];
                    &&& in_world(n)
                    &&& woken_by(n, q0)
                } by {
                    if k < pushed_seq.len() {
                        assert(new_seq[k] == pushed_seq[k]);
                    } else {
                        let n = new_seq[k];
                        assert(n == x[k - pushed_seq.len()]);
                        let j = choose|j: int| 0 <= j < 6 && n == wake_dir_pos(pos, j);
                        assert(n == wake_dir_pos(q0[i as int], j));
                    }
                }
                assert(self.fluid_queue@ =~= q0.subrange(i as int + 1, current_len as int) + new_seq);
                assert forall|p: IVec3| #[trigger] self.fluid_at(p) != w0.fluid_at(p) implies q0.take(
                    i as int + 1,
                ).contains(p) by {
                    assert(q0.take(i as int + 1)[i as int] == pos);
                    assert(wa.fluid_at(p) == wh.fluid_at(p));
                    if wh.fluid_at(p) != w0.fluid_at(p) {
                        let t = choose|t: int| 0 <= t < q0.take(i as int).len() && q0.take(i as int)[t] == p;
                        assert(q0.take(i as int)[t] == q0[t]);
                        assert(q0.take(i as int + 1)[t] == p);
                    }
                }
                assert forall|p: IVec3| #[trigger] self.block_at(p) == w0.block_at(p) by {
                    assert(wa.block_at(p) == wh.block_at(p));
                }
                assert(ws[i as int] == wa);
                assert(new_seq == tick_queue(ws, q0, (i + 1) as nat));
                pushed_seq = new_seq;
            }
            i = i + 1;
        }
        proof {
            assert(q0.subrange(current_len as int, current_len as int) + pushed_seq =~= pushed_seq);
            assert(q0.take(current_len as int) =~= q0);
            assert(self.fluid_queue@ == pushed_seq);
            assert(q0 == old(self).fluid_queue@);
            assert(tick_trace(w0, q0, ws));
        }
    }
}

} // verus!
