use vstd::prelude::*;
use crate::voxel::BlockType;
use crate::math::{IVec3, voxel_index, local_in_bounds};
use crate::chunk::{ChunkBuffer, ChunkLightBuffer, sky_of};
use std::collections::VecDeque;

verus! {

/// Local x coordinate of a voxel index.
pub open spec fn coord_x(i: int) -> int {
    i % 32
}

/// Local y coordinate of a voxel index.
pub open spec fn coord_y(i: int) -> int {
    (i / 32) % 32
}

/// Local z coordinate of a voxel index.
pub open spec fn coord_z(i: int) -> int {
    i / 1024
}

/// The six axis directions: -X, +X, -Y, +Y, -Z, +Z.
pub open spec fn dir_offset(d: int) -> (int, int, int) {
    if d == 0 {
        (-1, 0, 0)
    } else if d == 1 {
        (1, 0, 0)
    } else if d == 2 {
        (0, -1, 0)
    } else if d == 3 {
        (0, 1, 0)
    } else if d == 4 {
        (0, 0, -1)
    } else {
        (0, 0, 1)
    }
}

/// Index of the neighbour of voxel `i` in direction `d`, if it lies inside the chunk.
pub open spec fn nbr(i: int, d: int) -> Option<int> {
    let (dx, dy, dz) = dir_offset(d);
    let (nx, ny, nz) = (coord_x(i) + dx, coord_y(i) + dy, coord_z(i) + dz);
    if local_in_bounds(nx, ny, nz) {
        Some(voxel_index(nx, ny, nz))
    } else {
        None
    }
}

/// Voxel `i` lets no light through to an air neighbour that is more than one level darker.
pub open spec fn sky_stable(blocks: Seq<BlockType>, sky: Seq<u8>, i: int) -> bool {
    forall|d: int|
        0 <= d < 6 ==> match #[trigger] nbr(i, d) {
            Some(n) => blocks[n] == BlockType::Air ==> sky[n] + 1 >= sky[i],
            None => true,
        }
}

/// Voxel `i` has a neighbour at least one level brighter, from which its light came.
pub open spec fn sky_supported(sky: Seq<u8>, i: int) -> bool {
    exists|d: int|
        0 <= d < 6 && match #[trigger] nbr(i, d) {
            Some(n) => sky[n] >= sky[i] + 1,
            None => false,
        }
}

/// Sky light levels of a sequence of light bytes.
pub open spec fn sky_levels(ld: Seq<u8>) -> Seq<u8> {
    Seq::new(ld.len(), |i: int| sky_of(ld[i]))
}

/// Total darkness of a light buffer: how far each voxel's sky light is below full.
pub open spec fn darkness(ld: Seq<u8>) -> nat
    decreases ld.len(),
{
    if ld.len() == 0 {
        0
    } else {
        darkness(ld.drop_last()) + (15 - sky_of(ld.last())) as nat
    }
}

pub proof fn lemma_sky_of_bound(v: u8)
    ensures
        sky_of(v) <= 15,
{
    assert(v >> 4u8 <= 15) by (bit_vector);
}

pub proof fn lemma_darkness_update(ld: Seq<u8>, i: int, v: u8)
    requires
        0 <= i < ld.len(),
    ensures
        darkness(ld.update(i, v)) + sky_of(v) == darkness(ld) + sky_of(ld[i]),
    decreases ld.len(),
{
    lemma_sky_of_bound(v);
    lemma_sky_of_bound(ld[i]);
    lemma_sky_of_bound(ld.last());
    let t = ld.update(i, v);
    if i == ld.len() - 1 {
        assert(t.drop_last() =~= ld.drop_last());
    } else {
        assert(t.drop_last() =~= ld.drop_last().update(i, v));
        lemma_darkness_update(ld.drop_last(), i, v);
    }
}

/// A voxel index splits into in-bounds coordinates that index back to it.
pub proof fn lemma_coords(i: int)
    requires
        0 <= i < 32768,
    ensures
        local_in_bounds(coord_x(i), coord_y(i), coord_z(i)),
        voxel_index(coord_x(i), coord_y(i), coord_z(i)) == i,
{
    assert(i / 32 == coord_y(i) + 32 * coord_z(i)) by {
        assert((i / 32) / 32 == i / 1024) by {
            vstd::arithmetic::div_mod::lemma_div_denominator(i, 32, 32);
        }
    }
}

/// Coordinates that are in bounds are recovered from their index.
pub proof fn lemma_index_coords(x: int, y: int, z: int)
    requires
        local_in_bounds(x, y, z),
    ensures
        coord_x(voxel_index(x, y, z)) == x,
        coord_y(voxel_index(x, y, z)) == y,
        coord_z(voxel_index(x, y, z)) == z,
        0 <= voxel_index(x, y, z) < 32768,
{
    let i = voxel_index(x, y, z);
    lemma_coords(i);
    crate::math::lemma_index_injective(x, y, z, coord_x(i), coord_y(i), coord_z(i));
}

/// Index of the neighbour of voxel `idx` in direction `dir`, if it lies inside the chunk.
pub fn neighbor_index(idx: usize, dir: usize) -> (r: Option<usize>)
    requires
        idx < 32768,
        dir < 6,
    ensures
        r matches Some(n) ==> nbr(idx as int, dir as int) == Some(n as int) && n < 32768,
        r is None ==> nbr(idx as int, dir as int) is None,
{
    proof {
        lemma_coords(idx as int);
    }
    let bx = idx % 32;
    let by = (idx / 32) % 32;
    let bz = idx / 1024;
    let r = if dir == 0 {
        if bx > 0 { Some(idx - 1) } else { None }
    } else if dir == 1 {
        if bx < 31 { Some(idx + 1) } else { None }
    } else if dir == 2 {
        if by > 0 { Some(idx - 32) } else { None }
    } else if dir == 3 {
        if by < 31 { Some(idx + 32) } else { None }
    } else if dir == 4 {
        if bz > 0 { Some(idx - 1024) } else { None }
    } else {
        if bz < 31 { Some(idx + 1024) } else { None }
    };
    r
}

/// Whether every voxel of column `(x, z)` of a chunk from local height `y` up is air.
pub open spec fn column_open_from(blocks: Seq<BlockType>, x: int, z: int, y: int) -> bool {
    forall|yy: int| y <= yy < 32 ==> #[trigger] blocks[voxel_index(x, yy, z)] == BlockType::Air
}

/// Sky light of every voxel after sunlight first reaches a chunk: an air voxel above the surface
/// of its column is fully lit when nothing but air stands above it in the chunk (sunlight coming
/// straight down stops at the first block that is not air, such as leaves); everything else is
/// dark.
pub open spec fn initial_sky(chunk_y: int, blocks: Seq<BlockType>, heights: Seq<i32>, i: int) -> u8 {
    if chunk_y * 32 + coord_y(i) > heights[coord_x(i) + coord_z(i) * 32] && column_open_from(
        blocks,
        coord_x(i),
        coord_z(i),
        coord_y(i),
    ) {
        15
    } else {
        0
    }
}

/// Seeds the sky light of a freshly generated chunk, column by column from the top down: air
/// voxels above the highest surface of their column (`max_surface_y_map[x + z * 32]`) with
/// nothing but air above them in the chunk get full sky light, every other voxel none.
pub fn init_sunlight(
    chunk_pos: IVec3,
    blocks: &ChunkBuffer,
    light_buffer: &mut ChunkLightBuffer,
    max_surface_y_map: &Vec<i32>,
)
    requires
        blocks.wf(),
        old(light_buffer).wf(),
        max_surface_y_map@.len() == 1024,
        i32::MIN <= chunk_pos.y * 32,
        chunk_pos.y * 32 + 31 <= i32::MAX,
    ensures
        final(light_buffer).wf(),
        forall|i: int|
            0 <= i < 32768 ==> sky_of(#[trigger] final(light_buffer).light_data@[i]) == initial_sky(
                chunk_pos.y as int,
                blocks.blocks@,
                max_surface_y_map@,
                i,
            ),
        forall|i: int|
            0 <= i < 32768 ==> #[trigger] final(light_buffer).light_data@[i] & 0x0Fu8
                == old(light_buffer).light_data@[i] & 0x0Fu8,
{
    let mut col: usize = 0;
    while col < 1024
        invariant
            0 <= col <= 1024,
            blocks.wf(),
            light_buffer.wf(),
            max_surface_y_map@.len() == 1024,
            i32::MIN <= chunk_pos.y * 32,
            chunk_pos.y * 32 + 31 <= i32::MAX,
            forall|i: int|
                0 <= i < 32768 && coord_x(i) + coord_z(i) * 32 < col ==> sky_of(
                    #[trigger] light_buffer.light_data@[i],
                ) == initial_sky(chunk_pos.y as int, blocks.blocks@, max_surface_y_map@, i),
            forall|i: int|
                0 <= i < 32768 ==> #[trigger] light_buffer.light_data@[i] & 0x0Fu8
                    == old(light_buffer).light_data@[i] & 0x0Fu8,
        decreases 1024 - col,
    {
        let bx = col % 32;
        let bz = col / 32;
        let max_surface_y = max_surface_y_map[col];
        let mut blocked = false;
        let mut k: usize = 0;
        while k < 32
            invariant
                0 <= k <= 32,
                col < 1024,
                bx == col % 32,
                bz == col / 32,
                max_surface_y == max_surface_y_map@[col as int],
                blocks.wf(),
                light_buffer.wf(),
                max_surface_y_map@.len() == 1024,
                i32::MIN <= chunk_pos.y * 32,
                chunk_pos.y * 32 + 31 <= i32::MAX,
                blocked == !column_open_from(blocks.blocks@, bx as int, bz as int, 32 - k),
                forall|i: int|
                    0 <= i < 32768 && (coord_x(i) + coord_z(i) * 32 < col || (coord_x(i) + coord_z(i) * 32
                        == col && coord_y(i) >= 32 - k)) ==> sky_of(
                        #[trigger] light_buffer.light_data@[i],
                    ) == initial_sky(chunk_pos.y as int, blocks.blocks@, max_surface_y_map@, i),
                forall|i: int|
                    0 <= i < 32768 ==> #[trigger] light_buffer.light_data@[i] & 0x0Fu8
                        == old(light_buffer).light_data@[i] & 0x0Fu8,
            decreases 32 - k,
        {
            let by = 31 - k;
            let idx = bx + by * 32 + bz * 1024;
            proof {
                lemma_index_coords(bx as int, by as int, bz as int);
                assert(coord_x(idx as int) + coord_z(idx as int) * 32 == col);
            }
            let gy = chunk_pos.y * 32 + by as i32;
            let block = blocks.blocks[idx];
            if block != BlockType::Air {
                blocked = true;
            }
            proof {
                assert(column_open_from(blocks.blocks@, bx as int, bz as int, by as int) == (column_open_from(
                    blocks.blocks@,
                    bx as int,
                    bz as int,
                    32 - k,
                ) && block == BlockType::Air)) by {
                    if column_open_from(blocks.blocks@, bx as int, bz as int, 32 - k) && block == BlockType::Air {
                        assert forall|yy: int| by <= yy < 32 implies #[trigger] blocks.blocks@[voxel_index(
                            bx as int,
                            yy,
                            bz as int,
                        )] == BlockType::Air by {
                            if yy == by {
                            }
                        }
                    }
                }
            }
            if gy > max_surface_y && !blocked {
                light_buffer.set_sky_light(idx, 15);
            } else {
                light_buffer.set_sky_light(idx, 0);
            }
            proof {
                assert(15u8 & 0x0Fu8 == 15u8) by (bit_vector);
                assert(0u8 & 0x0Fu8 == 0u8) by (bit_vector);
                assert(sky_of(light_buffer.light_data@[idx as int]) == initial_sky(
                    chunk_pos.y as int,
                    blocks.blocks@,
                    max_surface_y_map@,
                    idx as int,
                ));
                assert forall|i: int|
                    0 <= i < 32768 && (coord_x(i) + coord_z(i) * 32 < col || (coord_x(i) + coord_z(i) * 32
                        == col && coord_y(i) >= 32 - (k + 1))) implies sky_of(
                        #[trigger] light_buffer.light_data@[i],
                    ) == initial_sky(chunk_pos.y as int, blocks.blocks@, max_surface_y_map@, i) by {
                    if i != idx {
                        lemma_coords(i);
                        if coord_x(i) + coord_z(i) * 32 == col && coord_y(i) == by {
                            assert(coord_x(i) == bx && coord_z(i) == bz) by (nonlinear_arith)
                                requires
                                    coord_x(i) + coord_z(i) * 32 == col,
                                    0 <= coord_x(i) < 32,
                                    bx == col % 32,
                                    bz == col / 32,
                            ;
                            crate::math::lemma_index_injective(coord_x(i), coord_y(i), coord_z(i), bx as int, by as int, bz as int);
                        }
                    }
                }
            }
            k = k + 1;
        }
        col = col + 1;
    }
    proof {
        assert forall|i: int| 0 <= i < 32768 implies sky_of(#[trigger] light_buffer.light_data@[i]) == initial_sky(
            chunk_pos.y as int,
            blocks.blocks@,
            max_surface_y_map@,
            i,
        ) by {
            lemma_coords(i);
        }
    }
}

/// The opposite of direction `d`.
pub open spec fn opposite(d: int) -> int {
    if d % 2 == 0 {
        d + 1
    } else {
        d - 1
    }
}

/// Neighbourhood is symmetric, and a voxel is never its own neighbour.
pub proof fn lemma_nbr_symmetric(i: int, d: int)
    requires
        0 <= i < 32768,
        0 <= d < 6,
    ensures
        nbr(i, d) matches Some(n) ==> {
            &&& 0 <= n < 32768
            &&& n != i
            &&& nbr(n, opposite(d)) == Some(i)
            &&& 0 <= opposite(d) < 6
        },
{
    lemma_coords(i);
    if let Some(n) = nbr(i, d) {
        let (dx, dy, dz) = dir_offset(d);
        lemma_index_coords(coord_x(i) + dx, coord_y(i) + dy, coord_z(i) + dz);
    }
}

/// Spreads sky light through the air of one chunk: light flows from each voxel into air
/// neighbours, losing one level per step, until no air voxel is more than one level darker
/// than a neighbour. Light only ever grows, only air voxels change, and every voxel that
/// changed has a brighter neighbour it took its light from; the low nibble of every light
/// byte is kept.
#[verifier::rlimit(40)]
pub fn propagate_sky_light(blocks: &ChunkBuffer, light_buffer: &mut ChunkLightBuffer)
    requires
        blocks.wf(),
        old(light_buffer).wf(),
    ensures
        final(light_buffer).wf(),
        forall|i: int|
            0 <= i < 32768 ==> #[trigger] sky_levels(final(light_buffer).light_data@)[i] >= sky_levels(
                old(light_buffer).light_data@,
            )[i],
        forall|i: int|
            0 <= i < 32768 && #[trigger] sky_levels(final(light_buffer).light_data@)[i] != sky_levels(
                old(light_buffer).light_data@,
            )[i] ==> blocks.blocks@[i] == BlockType::Air && sky_supported(
                sky_levels(final(light_buffer).light_data@),
                i,
            ),
        forall|i: int|
            0 <= i < 32768 ==> #[trigger] sky_stable(
                blocks.blocks@,
                sky_levels(final(light_buffer).light_data@),
                i,
            ),
        forall|i: int|
            0 <= i < 32768 ==> #[trigger] final(light_buffer).light_data@[i] & 0x0Fu8
                == old(light_buffer).light_data@[i] & 0x0Fu8,
{
    let ghost ld0 = light_buffer.light_data@;
    let ghost bl = blocks.blocks@;
    let mut queue: VecDeque<usize> = VecDeque::new();
    let mut idx: usize = 0;
    while idx < 32768
        invariant
            0 <= idx <= 32768,
            blocks.wf(),
            bl == blocks.blocks@,
            light_buffer.wf(),
            light_buffer.light_data@ == ld0,
            forall|k: int| 0 <= k < queue@.len() ==> queue@[k] < 32768,
            forall|c: int|
                0 <= c < idx && !#[trigger] sky_stable(bl, sky_levels(ld0), c) ==> queue@.contains(
                    c as usize,
                ),
        decreases 32768 - idx,
    {
        let light = light_buffer.get_sky_light(idx);
        let ghost q_before = queue@;
        if light > 0 {
            let mut should_enqueue = false;
            let mut dir: usize = 0;
            while dir < 6
                invariant_except_break
                    !should_enqueue,
                invariant
                    0 <= dir <= 6,
                    idx < 32768,
                    blocks.wf(),
                    bl == blocks.blocks@,
                    light_buffer.wf(),
                    light_buffer.light_data@ == ld0,
                    light == sky_levels(ld0)[idx as int],
                    forall|d: int|
                        0 <= d < dir ==> match #[trigger] nbr(idx as int, d) {
                            Some(n) => !(bl[n] == BlockType::Air && sky_levels(ld0)[n] < light),
                            None => true,
                        },
                ensures
                    !should_enqueue ==> forall|d: int|
                        0 <= d < 6 ==> match #[trigger] nbr(idx as int, d) {
                            Some(n) => !(bl[n] == BlockType::Air && sky_levels(ld0)[n] < light),
                            None => true,
                        },
                decreases 6 - dir,
            {
                if let Some(nidx) = neighbor_index(idx, dir) {
                    if blocks.blocks[nidx] == BlockType::Air && light_buffer.get_sky_light(nidx)
                        < light {
                        should_enqueue = true;
                        break;
                    }
                }
                dir = dir + 1;
            }
            if should_enqueue {
                queue.push_back(idx);
            }
        }
        proof {
            assert forall|c: int|
                0 <= c < idx + 1 && !#[trigger] sky_stable(bl, sky_levels(ld0), c) implies queue@.contains(
                c as usize,
            ) by {
                if c < idx {
                    assert(q_before.contains(c as usize));
                    let k = choose|k: int| 0 <= k < q_before.len() && q_before[k] == c as usize;
                    assert(queue@[k] == c as usize);
                } else {
                    let d = choose|d: int|
                        0 <= d < 6 && !match #[trigger] nbr(c, d) {
                            Some(n) => bl[n] == BlockType::Air ==> sky_levels(ld0)[n] + 1 >= sky_levels(
                                ld0,
                            )[c],
                            None => true,
                        };
                    lemma_nbr_symmetric(c, d);
                    assert(queue@.last() == idx);
                }
            }
        }
        idx = idx + 1;
    }
    while queue.len() > 0
        invariant
            blocks.wf(),
            bl == blocks.blocks@,
            light_buffer.wf(),
            forall|k: int| 0 <= k < queue@.len() ==> queue@[k] < 32768,
            forall|i: int|
                0 <= i < 32768 ==> #[trigger] sky_levels(light_buffer.light_data@)[i] >= sky_levels(
                    ld0,
                )[i],
            forall|i: int|
                0 <= i < 32768 && #[trigger] sky_levels(light_buffer.light_data@)[i] != sky_levels(
                    ld0,
                )[i] ==> bl[i] == BlockType::Air && sky_supported(
                    sky_levels(light_buffer.light_data@),
                    i,
                ),
            forall|i: int|
                0 <= i < 32768 ==> #[trigger] light_buffer.light_data@[i] & 0x0Fu8 == ld0[i]
                    & 0x0Fu8,
            forall|c: int|
                0 <= c < 32768 && !#[trigger] sky_stable(bl, sky_levels(light_buffer.light_data@), c)
                    ==> queue@.contains(c as usize),
        decreases 7 * darkness(light_buffer.light_data@) + queue@.len(),
    {
        let ghost m0 = 7 * darkness(light_buffer.light_data@) + queue@.len();
        let ghost q0 = queue@;
        let idx = match queue.pop_front() {
            Some(i) => i,
            None => {
                proof {
                    assert(false);
                }
                0
            },
        };
        let light = light_buffer.get_sky_light(idx);
        proof {
            assert forall|c: int|
                0 <= c < 32768 && c != idx && !#[trigger] sky_stable(
                    bl,
                    sky_levels(light_buffer.light_data@),
                    c,
                ) implies queue@.contains(c as usize) by {
                let k = choose|k: int| 0 <= k < q0.len() && q0[k] == c as usize;
                assert(k != 0);
                assert(queue@[k - 1] == c as usize);
            }
        }
        if light > 1 {
            let mut dir: usize = 0;
            while dir < 6
                invariant
                    0 <= dir <= 6,
                    idx < 32768,
                    1 < light <= 15,
                    blocks.wf(),
                    bl == blocks.blocks@,
                    light_buffer.wf(),
                    light == sky_levels(light_buffer.light_data@)[idx as int],
                    7 * darkness(light_buffer.light_data@) + queue@.len() < m0,
                    forall|k: int| 0 <= k < queue@.len() ==> queue@[k] < 32768,
                    forall|i: int|
                        0 <= i < 32768 ==> #[trigger] sky_levels(light_buffer.light_data@)[i]
                            >= sky_levels(ld0)[i],
                    forall|i: int|
                        0 <= i < 32768 && #[trigger] sky_levels(light_buffer.light_data@)[i]
                            != sky_levels(ld0)[i] ==> bl[i] == BlockType::Air && sky_supported(
                            sky_levels(light_buffer.light_data@),
                            i,
                        ),
                    forall|i: int|
                        0 <= i < 32768 ==> #[trigger] light_buffer.light_data@[i] & 0x0Fu8 == ld0[i]
                            & 0x0Fu8,
                    forall|c: int|
                        0 <= c < 32768 && c != idx && !#[trigger] sky_stable(
                            bl,
                            sky_levels(light_buffer.light_data@),
                            c,
                        ) ==> queue@.contains(c as usize),
                    forall|d: int|
                        0 <= d < dir ==> match #[trigger] nbr(idx as int, d) {
                            Some(n) => bl[n] == BlockType::Air ==> sky_levels(
                                light_buffer.light_data@,
                            )[n] + 1 >= light,
                            None => true,
                        },
                decreases 6 - dir,
            {
                proof {
                    lemma_nbr_symmetric(idx as int, dir as int);
                }
                if let Some(nidx) = neighbor_index(idx, dir) {
                    if blocks.blocks[nidx] == BlockType::Air {
                        let nl = light_buffer.get_sky_light(nidx);
                        if nl < light - 1 {
                            let ghost ld1 = light_buffer.light_data@;
                            let ghost q1 = queue@;
                            light_buffer.set_sky_light(nidx, light - 1);
                            queue.push_back(nidx);
                            proof {
                                let ld2 = light_buffer.light_data@;
                                let s1 = sky_levels(ld1);
                                let s2 = sky_levels(ld2);
                                assert(((light - 1) as u8) & 0x0Fu8 == ((light - 1) as u8)) by (bit_vector)
                                    requires
                                        1 < light <= 15,
                                ;
                                assert(ld2 == ld1.update(nidx as int, ld2[nidx as int]));
                                lemma_darkness_update(ld1, nidx as int, ld2[nidx as int]);
                                assert forall|i: int| 0 <= i < 32768 && i != nidx implies s2[i]
                                    == s1[i] by {}
                                assert(s2[nidx as int] == light - 1);
                                assert forall|i: int|
                                    0 <= i < 32768 && #[trigger] s2[i] != sky_levels(ld0)[i] implies bl[i]
                                    == BlockType::Air && sky_supported(s2, i) by {
                                    if i == nidx {
                                        let od = opposite(dir as int);
                                        assert(nbr(i, od) == Some(idx as int));
                                        assert(s2[idx as int] == light);
                                    } else {
                                        assert(s1[i] != sky_levels(ld0)[i]);
                                        let d = choose|d: int|
                                            0 <= d < 6 && match #[trigger] nbr(i, d) {
                                                Some(n) => s1[n] >= s1[i] + 1,
                                                None => false,
                                            };
                                        lemma_nbr_symmetric(i, d);
                                        if let Some(n) = nbr(i, d) {
                                            assert(s2[n] >= s1[n]);
                                        }
                                    }
                                }
                                assert forall|c: int|
                                    0 <= c < 32768 && c != idx && !#[trigger] sky_stable(bl, s2, c)
                                        implies queue@.contains(c as usize) by {
                                    if c == nidx {
                                        assert(queue@.last() == nidx);
                                    } else {
                                        let d = choose|d: int|
                                            0 <= d < 6 && !match #[trigger] nbr(c, d) {
                                                Some(n) => bl[n] == BlockType::Air ==> s2[n] + 1
                                                    >= s2[c],
                                                None => true,
                                            };
                                        lemma_nbr_symmetric(c, d);
                                        if let Some(n) = nbr(c, d) {
                                            assert(s2[n] >= s1[n]);
                                            assert(!sky_stable(bl, s1, c));
                                        }
                                        let k = choose|k: int| 0 <= k < q1.len() && q1[k] == c as usize;
                                        assert(queue@[k] == c as usize);
                                    }
                                }
                                assert forall|d: int| 0 <= d < dir + 1 implies match #[trigger] nbr(
                                    idx as int,
                                    d,
                                ) {
                                    Some(n) => bl[n] == BlockType::Air ==> s2[n] + 1 >= light,
                                    None => true,
                                } by {
                                    lemma_nbr_symmetric(idx as int, d);
                                    if let Some(n) = nbr(idx as int, d) {
                                        assert(s2[n] >= s1[n]);
                                    }
                                }
                            }
                        }
                    }
                }
                dir = dir + 1;
            }
        }
        proof {
            assert(sky_stable(bl, sky_levels(light_buffer.light_data@), idx as int));
        }
    }
}

} // verus!
