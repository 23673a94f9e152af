use vstd::prelude::*;
use crate::voxel::BlockType;
use crate::math::{IVec3, voxel_index, local_in_bounds};
use crate::chunk::{Chunk, ChunkBuffer, count_non_air};
use crate::lighting::{coord_x, coord_y, coord_z, lemma_coords, lemma_index_coords};

verus! {

// ---------------------------------------------------------------------------
// Choosing the block of a voxel from its terrain density.

/// What the terrain density field says about one voxel and its column, reduced to the
/// comparisons the block choice depends on.
#[derive(Debug, Clone, Copy, PartialEq, Eq, Structural)]
pub struct DensityProbe {
    /// The density at the voxel is above zero (the voxel is inside the terrain).
    pub inside: bool,
    /// The density one voxel above is at most zero (the voxel is exposed to air).
    pub exposed: bool,
    /// The voxel lies within 12 voxels of the column's base height.
    pub near_base_12: bool,
    /// The voxel lies within 16 voxels of the column's base height.
    pub near_base_16: bool,
    /// One of the three voxels above (that the column sample covers) has density at most zero.
    pub air_within_3: bool,
    /// The column's base height, truncated towards zero.
    pub base_h_trunc: i32,
    /// The bit pattern of the density value, used to scatter ores.
    pub density_bits: u32,
}

/// Hash that scatters ores through the rock below height 80.
pub open spec fn ore_hash(gy: i32, density_bits: u32) -> u32 {
    (gy as u32).wrapping_mul(73856093u32) ^ density_bits
}

/// The block generated at height `gy` for a voxel described by `p`.
pub open spec fn terrain_block(gy: i32, p: DensityProbe) -> BlockType {
    if !p.inside {
        BlockType::Air
    } else if p.exposed {
        if gy >= 115 || p.near_base_12 {
            if 59 <= gy <= 64 {
                if (gy + p.base_h_trunc) % 3 == 0 {
                    BlockType::Gravel
                } else {
                    BlockType::Sand
                }
            } else {
                BlockType::Grass
            }
        } else {
            BlockType::Stone
        }
    } else if p.air_within_3 && (gy >= 115 || p.near_base_16) {
        BlockType::Dirt
    } else if gy < 80 && ore_hash(gy, p.density_bits) % 100 < 2 {
        BlockType::IronOre
    } else if gy < 80 && ore_hash(gy, p.density_bits) % 100 < 5 {
        BlockType::CoalOre
    } else {
        BlockType::Stone
    }
}

/// How the terrain's surface is dressed: voxels outside the terrain are air; exposed voxels near
/// the base height (or above the cave band) are grass, except on the shore band 59..=64 where
/// they are sand or gravel; other exposed voxels are bare stone; dirt only lies beneath the
/// surface, and nothing inside the terrain is air.
pub proof fn law_terrain_surface(gy: i32, p: DensityProbe)
    ensures
        (terrain_block(gy, p) == BlockType::Air) <==> !p.inside,
        p.inside && p.exposed && (gy >= 115 || p.near_base_12) && !(59 <= gy <= 64)
            ==> terrain_block(gy, p) == BlockType::Grass,
        p.inside && p.exposed && (gy >= 115 || p.near_base_12) && 59 <= gy <= 64 ==> (terrain_block(gy, p)
            == BlockType::Sand || terrain_block(gy, p) == BlockType::Gravel),
        p.inside && p.exposed && !(gy >= 115 || p.near_base_12) ==> terrain_block(gy, p) == BlockType::Stone,
        terrain_block(gy, p) == BlockType::Grass ==> p.inside && p.exposed,
        terrain_block(gy, p) == BlockType::Dirt ==> p.inside && !p.exposed && p.air_within_3,
{
}

/// The block generated at height `gy`: air outside the terrain; grass, or sand and gravel on
/// the shore band 59..=64, on exposed ground near the base height or above the cave band;
/// bare stone on other exposed ground; dirt within three voxels below the surface; iron and
/// coal ore scattered below height 80; stone everywhere else.
pub fn resolve_block_type(gy: i32, probe: DensityProbe) -> (r: BlockType)
    requires
        i32::MIN <= gy + probe.base_h_trunc <= i32::MAX,
    ensures
        r == terrain_block(gy, probe),
{
    if !probe.inside {
        return BlockType::Air;
    }
    if probe.exposed {
        if gy >= 115 || probe.near_base_12 {
            if gy <= 64 && gy >= 59 {
                if (gy + probe.base_h_trunc) % 3 == 0 {
                    return BlockType::Gravel;
                }
                return BlockType::Sand;
            }
            return BlockType::Grass;
        } else {
            return BlockType::Stone;
        }
    }
    if probe.air_within_3 {
        if gy >= 115 || probe.near_base_16 {
            return BlockType::Dirt;
        }
    }
    if gy < 80 {
        let hash = (gy as u32).wrapping_mul(73856093) ^ probe.density_bits;
        if hash % 100 < 2 {
            return BlockType::IronOre;
        } else if hash % 100 < 5 {
            return BlockType::CoalOre;
        }
    }
    BlockType::Stone
}

// ---------------------------------------------------------------------------
// Trees.

/// Deterministic hash of a world column that decides where trees grow.
pub open spec fn column_hash(gx: i32, gz: i32) -> u32 {
    let h0 = (gx as u32).wrapping_mul(374761393u32).wrapping_add((gz as u32).wrapping_mul(668265263u32));
    let h1 = (h0 ^ (h0 >> 13u32)).wrapping_mul(1274126177u32);
    h1 ^ (h1 >> 16u32)
}

/// Deterministic hash of a world column that decides where trees grow.
pub fn tree_hash(gx: i32, gz: i32) -> (r: u32)
    ensures
        r == column_hash(gx, gz),
{
    let mut h = (gx as u32).wrapping_mul(374761393).wrapping_add((gz as u32).wrapping_mul(668265263));
    h = (h ^ (h >> 13)).wrapping_mul(1274126177);
    h ^= h >> 16;
    h
}

/// Whether a tree grows in a column: about fifteen columns in a thousand.
pub open spec fn column_has_tree(gx: i32, gz: i32) -> bool {
    column_hash(gx, gz) % 1000 < 15
}

/// Whether a tree grows in a column.
pub fn has_tree(gx: i32, gz: i32) -> (r: bool)
    ensures
        r == column_has_tree(gx, gz),
{
    tree_hash(gx, gz) % 1000 < 15
}


/// A tree to plant: the column it grows from (local coordinates, possibly in a neighbouring
/// chunk), the height of the ground it stands on, and its column hash.
#[derive(Debug, Clone, Copy, PartialEq, Eq, Structural)]
pub struct TreeSite {
    pub bx: i32,
    pub bz: i32,
    pub gy: i32,
    pub hash: u32,
}

/// Trunk height of a tree: 4 to 6 voxels.
pub open spec fn trunk_height(t: TreeSite) -> int {
    4 + (t.hash % 3) as int
}

/// Whether local voxel `(x, y, z)` of the chunk at `cp` is part of the tree's trunk.
pub open spec fn in_trunk(cp: IVec3, t: TreeSite, x: int, y: int, z: int) -> bool {
    let ly = cp.y * 32 + y - t.gy;
    x == t.bx && z == t.bz && 1 <= ly <= trunk_height(t)
}

/// Whether local voxel `(x, y, z)` of the chunk at `cp` is in the tree's crown: the 5x5 layers
/// from one below the trunk's top to one above it, without the corners of the top layer and
/// without the trunk.
pub open spec fn in_crown(cp: IVec3, t: TreeSite, x: int, y: int, z: int) -> bool {
    let lx = x - t.bx;
    let lz = z - t.bz;
    let ly = cp.y * 32 + y - t.gy;
    let th = trunk_height(t);
    &&& -2 <= lx <= 2
    &&& -2 <= lz <= 2
    &&& th - 1 <= ly <= th + 1
    &&& !((lx == 2 || lx == -2) && (lz == 2 || lz == -2) && ly == th + 1)
    &&& !(lx == 0 && lz == 0 && ly <= th)
}

/// A voxel after planting a tree: oak log in the trunk, oak leaves in the crown where there was
/// air, unchanged elsewhere.
#[verifier::opaque]
pub open spec fn tree_voxel(old: BlockType, cp: IVec3, t: TreeSite, i: int) -> BlockType {
    if in_trunk(cp, t, coord_x(i), coord_y(i), coord_z(i)) {
        BlockType::OakLog
    } else if in_crown(cp, t, coord_x(i), coord_y(i), coord_z(i)) && old == BlockType::Air {
        BlockType::OakLeaves
    } else {
        old
    }
}

/// Blocks of a chunk after planting a tree.
pub open spec fn with_tree(blocks: Seq<BlockType>, cp: IVec3, t: TreeSite) -> Seq<BlockType> {
    Seq::new(blocks.len(), |i: int| tree_voxel(blocks[i], cp, t, i))
}

/// Trees are planted in the part of their 7x?x7 box that lies in the chunk; heights are such
/// that coordinates stay 32-bit.
pub open spec fn site_ok(cp: IVec3, t: TreeSite) -> bool {
    &&& -2 <= t.bx < 34
    &&& -2 <= t.bz < 34
    &&& -1000000000 <= t.gy <= 1000000000
    &&& -30000000 <= cp.y <= 30000000
}

/// Position of local voxel `i` in the scan of a tree's box (layers from the one above the ground,
/// rows along Z, voxels along X), or a number past the box when the voxel is outside it.
#[verifier::opaque]
pub open spec fn box_slot(t: TreeSite, base_y: int, i: int) -> int {
    let lx = coord_x(i) - t.bx;
    let lz = coord_z(i) - t.bz;
    let ly = coord_y(i) - base_y;
    if -2 <= lx <= 2 && -2 <= lz <= 2 && ly >= 1 {
        (ly - 1) * 25 + (lz + 2) * 5 + (lx + 2)
    } else {
        0x1_0000_0000_0000
    }
}

proof fn lemma_box_slot_nonneg(t: TreeSite, base_y: int)
    ensures
        forall|i: int| #[trigger] box_slot(t, base_y, i) >= 0,
{
    reveal(box_slot);
}

proof fn lemma_box_slot(t: TreeSite, base_y: int, lx: int, ly: int, lz: int)
    requires
        -2 <= lx <= 2,
        -2 <= lz <= 2,
        ly >= 1,
        crate::math::local_in_bounds(t.bx + lx, base_y + ly, t.bz + lz),
    ensures
        box_slot(t, base_y, voxel_index(t.bx + lx, base_y + ly, t.bz + lz)) == (ly - 1) * 25 + (lz
            + 2) * 5 + (lx + 2),
{
    reveal(box_slot);
    lemma_index_coords(t.bx + lx, base_y + ly, t.bz + lz);
}

proof fn lemma_box_slot_unique(t: TreeSite, base_y: int, i: int, k: int)
    requires
        0 <= i < 32768,
        0 <= k < 0x1_0000_0000_0000,
    ensures
        box_slot(t, base_y, i) == k ==> {
            &&& coord_x(i) == t.bx + k % 5 - 2
            &&& coord_z(i) == t.bz + (k / 5) % 5 - 2
            &&& coord_y(i) == base_y + k / 25 + 1
        },
{
    reveal(box_slot);
    if box_slot(t, base_y, i) == k {
        let lx = coord_x(i) - t.bx;
        let lz = coord_z(i) - t.bz;
        let ly = coord_y(i) - base_y;
        assert(-2 <= lx <= 2 && -2 <= lz <= 2 && ly >= 1);
        assert(k == (ly - 1) * 25 + (lz + 2) * 5 + (lx + 2));
        assert(k % 5 == lx + 2 && (k / 5) % 5 == lz + 2 && k / 25 == ly - 1) by (nonlinear_arith)
            requires
                k == (ly - 1) * 25 + (lz + 2) * 5 + (lx + 2),
                0 <= lx + 2 < 5,
                0 <= lz + 2 < 5,
                ly >= 1,
        ;
    }
}

/// The voxel at box offset `(lx, ly, lz)` after planting, as the planting loop decides it.
proof fn lemma_tree_step(cp: IVec3, t: TreeSite, base_y: int, lx: int, ly: int, lz: int, old: BlockType)
    requires
        base_y == t.gy - cp.y * 32,
        -2 <= lx <= 2,
        -2 <= lz <= 2,
        ly >= 1,
        crate::math::local_in_bounds(t.bx + lx, base_y + ly, t.bz + lz),
    ensures
        ({
            let i = voxel_index(t.bx + lx, base_y + ly, t.bz + lz);
            let th = trunk_height(t);
            let trunk = lx == 0 && lz == 0 && ly <= th;
            let corner = (lx == 2 || lx == -2) && (lz == 2 || lz == -2) && ly == th + 1;
            let crown = ly >= th - 1 && ly <= th + 1 && !corner && !trunk;
            tree_voxel(old, cp, t, i) == if trunk {
                BlockType::OakLog
            } else if crown && old == BlockType::Air {
                BlockType::OakLeaves
            } else {
                old
            }
        }),
{
    reveal(tree_voxel);
    lemma_index_coords(t.bx + lx, base_y + ly, t.bz + lz);
}

proof fn lemma_outside_box(t: TreeSite, base_y: int, i: int)
    requires
        0 <= i < 32768,
        box_slot(t, base_y, i) >= 25 * (trunk_height(t) + 1),
    ensures
        forall|cp: IVec3, old: BlockType|
            cp.y * 32 - t.gy == -base_y ==> #[trigger] tree_voxel(old, cp, t, i) == old,
{
    reveal(tree_voxel);
    reveal(box_slot);
}

/// Plants one tree into a chunk's blocks: its trunk of oak logs, then its crown of oak leaves
/// where there is air; parts outside the chunk are left out.
#[verifier::rlimit(60)]
pub fn plant_tree(buffer: &mut ChunkBuffer, chunk_pos: IVec3, site: TreeSite)
    requires
        old(buffer).wf(),
        site_ok(chunk_pos, site),
    ensures
        final(buffer).wf(),
        final(buffer).blocks@ == with_tree(old(buffer).blocks@, chunk_pos, site),
{
    let ghost b0 = buffer.blocks@;
    let th: i64 = 4 + (site.hash % 3) as i64;
    let base_y: i64 = site.gy as i64 - chunk_pos.y as i64 * 32;
    // Every voxel of the tree's box, trunk and crown together: the result is the same as
    // writing the trunk first and the crown after, since no crown voxel is a trunk voxel.
    let mut k: i64 = 0;
    let count: i64 = 25 * (th + 1);
    proof {
        lemma_box_slot_nonneg(site, base_y as int);
    }
    while k < count
        invariant
            buffer.wf(),
            site_ok(chunk_pos, site),
            th == trunk_height(site),
            base_y == site.gy - chunk_pos.y * 32,
            count == 25 * (th + 1),
            0 <= k <= count,
            forall|i: int|
                0 <= i < 32768 ==> #[trigger] buffer.blocks@[i] == if box_slot(site, base_y as int, i) < k {
                    tree_voxel(b0[i], chunk_pos, site, i)
                } else {
                    b0[i]
                },
        decreases count - k,
    {
        let lx = k % 5 - 2;
        let lz = (k / 5) % 5 - 2;
        let ly = k / 25 + 1;
        let x = site.bx as i64 + lx;
        let z = site.bz as i64 + lz;
        let y = base_y + ly;
        if 0 <= x && x < 32 && 0 <= y && y < 32 && 0 <= z && z < 32 {
            let idx = (x + y * 32 + z * 1024) as usize;
            proof {
                lemma_index_coords(x as int, y as int, z as int);
                assert(box_slot(site, base_y as int, idx as int) == k) by {
                    lemma_box_slot(site, base_y as int, lx as int, ly as int, lz as int);
                }
                lemma_tree_step(chunk_pos, site, base_y as int, lx as int, ly as int, lz as int, b0[idx as int]);
                assert(ly <= th + 1) by (nonlinear_arith)
                    requires
                        ly == k / 25 + 1,
                        k < 25 * (th + 1),
                        k >= 0,
                ;
            }
            let old_b = buffer.blocks[idx];
            let trunk = lx == 0 && lz == 0 && ly <= th;
            let corner = (lx == 2 || lx == -2) && (lz == 2 || lz == -2) && ly == th + 1;
            let crown = ly >= th - 1 && !corner && !trunk;
            if trunk {
                buffer.blocks.set(idx, BlockType::OakLog);
            } else if crown && old_b == BlockType::Air {
                buffer.blocks.set(idx, BlockType::OakLeaves);
            }
            proof {
                assert(buffer.blocks@[idx as int] == tree_voxel(b0[idx as int], chunk_pos, site, idx as int));
                assert forall|i: int| 0 <= i < 32768 implies #[trigger] buffer.blocks@[i] == if box_slot(
                    site,
                    base_y as int,
                    i,
                ) < k + 1 {
                    tree_voxel(b0[i], chunk_pos, site, i)
                } else {
                    b0[i]
                } by {
                    if i != idx {
                        lemma_box_slot_unique(site, base_y as int, i, k as int);
                        lemma_coords(i);
                        if box_slot(site, base_y as int, i) == k {
                            crate::math::lemma_index_injective(coord_x(i), coord_y(i), coord_z(i), x as int, y as int, z as int);
                        }
                    }
                }
            }
        } else {
            proof {
                assert forall|i: int| 0 <= i < 32768 implies #[trigger] buffer.blocks@[i] == if box_slot(
                    site,
                    base_y as int,
                    i,
                ) < k + 1 {
                    tree_voxel(b0[i], chunk_pos, site, i)
                } else {
                    b0[i]
                } by {
                    lemma_box_slot_unique(site, base_y as int, i, k as int);
                    lemma_coords(i);
                }
            }
        }
        k = k + 1;
    }
    proof {
        assert forall|i: int| 0 <= i < 32768 implies #[trigger] buffer.blocks@[i] == tree_voxel(b0[i], chunk_pos, site, i) by {
            if box_slot(site, base_y as int, i) >= count {
                lemma_outside_box(site, base_y as int, i);
            }
        }
        assert(buffer.blocks@ =~= with_tree(b0, chunk_pos, site));
    }
}


/// The tree site of column `k` of the 36x36 columns around a chunk (local `bx`, `bz` from -2 to
/// 33), when a tree grows there: its column hash says so and its ground `surfaces[k]` is above
/// height 64.
pub open spec fn tree_site_at(cp: IVec3, surfaces: Seq<i32>, k: int) -> Option<TreeSite> {
    let bx = k % 36 - 2;
    let bz = k / 36 - 2;
    let gx = (cp.x * 32 + bx) as i32;
    let gz = (cp.z * 32 + bz) as i32;
    if column_has_tree(gx, gz) && surfaces[k] > 64 {
        Some(TreeSite { bx: bx as i32, bz: bz as i32, gy: surfaces[k], hash: column_hash(gx, gz) })
    } else {
        None
    }
}

/// Blocks after planting the trees of the first `k` columns around a chunk, in column order.
pub open spec fn with_trees(blocks: Seq<BlockType>, cp: IVec3, surfaces: Seq<i32>, k: int) -> Seq<BlockType>
    decreases k,
{
    if k <= 0 {
        blocks
    } else {
        let prev = with_trees(blocks, cp, surfaces, k - 1);
        match tree_site_at(cp, surfaces, k - 1) {
            Some(t) => with_tree(prev, cp, t),
            None => prev,
        }
    }
}

/// Chunk positions whose voxels and the tree columns around them have 32-bit coordinates.
pub open spec fn gen_chunk_ok(cp: IVec3) -> bool {
    &&& -60000000 <= cp.x <= 60000000
    &&& -30000000 <= cp.y <= 30000000
    &&& -60000000 <= cp.z <= 60000000
}

/// Plants the trees whose crowns can reach into a chunk: every column within two of it (local
/// `bx`, `bz` from -2 to 33, rows along X), where the column hash grows a tree and the ground
/// `surfaces[(bz + 2) * 36 + (bx + 2)]` is above height 64.
pub fn plant_trees(buffer: &mut ChunkBuffer, chunk_pos: IVec3, surfaces: &Vec<i32>)
    requires
        old(buffer).wf(),
        gen_chunk_ok(chunk_pos),
        surfaces@.len() == 1296,
        forall|k: int| 0 <= k < 1296 ==> -1000000000 <= #[trigger] surfaces@[k] <= 1000000000,
    ensures
        final(buffer).wf(),
        final(buffer).blocks@ == with_trees(old(buffer).blocks@, chunk_pos, surfaces@, 1296),
{
    let ghost b0 = buffer.blocks@;
    let mut k: usize = 0;
    while k < 1296
        invariant
            buffer.wf(),
            gen_chunk_ok(chunk_pos),
            surfaces@.len() == 1296,
            forall|kk: int| 0 <= kk < 1296 ==> -1000000000 <= #[trigger] surfaces@[kk] <= 1000000000,
            k <= 1296,
            buffer.blocks@ == with_trees(b0, chunk_pos, surfaces@, k as int),
        decreases 1296 - k,
    {
        let bx = (k % 36) as i32 - 2;
        let bz = (k / 36) as i32 - 2;
        let gx = chunk_pos.x * 32 + bx;
        let gz = chunk_pos.z * 32 + bz;
        let h = tree_hash(gx, gz);
        if h % 1000 < 15 {
            let gy = surfaces[k];
            if gy > 64 {
                let site = TreeSite { bx, bz, gy, hash: h };
                proof {
                    assert(tree_site_at(chunk_pos, surfaces@, k as int) == Some(site));
                }
                plant_tree(buffer, chunk_pos, site);
            }
        }
        k = k + 1;
    }
}

/// Blocks of a chunk chosen from the density probes of its voxels: voxel `i` at height
/// `cp.y * 32 + coord_y(i)` takes `terrain_block` of `probes[i]`.
pub open spec fn terrain_blocks(cp: IVec3, probes: Seq<DensityProbe>) -> Seq<BlockType> {
    Seq::new(32768, |i: int| terrain_block((cp.y * 32 + coord_y(i)) as i32, probes[i]))
}

/// Probes whose base heights keep the block choice's arithmetic 32-bit.
pub open spec fn probes_ok(probes: Seq<DensityProbe>) -> bool {
    &&& probes.len() == 32768
    &&& forall|i: int|
        0 <= i < 32768 ==> -1000000000 <= (#[trigger] probes[i]).base_h_trunc <= 1000000000
}

/// The blocks of a generated chunk: each voxel chosen from its density probe, then the trees
/// planted; also the number of voxels that are not air.
pub fn generate_chunk_data(chunk_pos: IVec3, probes: &Vec<DensityProbe>, tree_surfaces: &Vec<i32>) -> (r: (ChunkBuffer, u16))
    requires
        gen_chunk_ok(chunk_pos),
        probes_ok(probes@),
        tree_surfaces@.len() == 1296,
        forall|k: int| 0 <= k < 1296 ==> -1000000000 <= #[trigger] tree_surfaces@[k] <= 1000000000,
    ensures
        r.0.wf(),
        r.0.blocks@ == with_trees(terrain_blocks(chunk_pos, probes@), chunk_pos, tree_surfaces@, 1296),
        r.1 as nat == count_non_air(r.0.blocks@),
{
    let mut blocks: Vec<BlockType> = Vec::new();
    let mut i: usize = 0;
    while i < 32768
        invariant
            gen_chunk_ok(chunk_pos),
            probes_ok(probes@),
            i <= 32768,
            blocks@.len() == i,
            forall|j: int| 0 <= j < i ==> #[trigger] blocks@[j] == terrain_blocks(chunk_pos, probes@)[j],
        decreases 32768 - i,
    {
        let by = ((i / 32) % 32) as i32;
        let gy = chunk_pos.y * 32 + by;
        let b = resolve_block_type(gy, probes[i]);
        blocks.push(b);
        i = i + 1;
    }
    let mut buffer = ChunkBuffer { blocks };
    proof {
        assert(buffer.blocks@ =~= terrain_blocks(chunk_pos, probes@));
    }
    plant_trees(&mut buffer, chunk_pos, tree_surfaces);
    let count = buffer.non_air_count();
    (buffer, count)
}

/// Position of local voxel `i` in the scan of the flat world's ground layers (columns along X,
/// then Z, heights 0 to 4), or past the scan above them.
pub open spec fn flat_slot(i: int) -> int {
    if coord_y(i) < 5 {
        (coord_x(i) * 32 + coord_z(i)) * 5 + coord_y(i)
    } else {
        0x1_0000_0000
    }
}

/// Block of the flat world at local height `y`: stone up to 3, grass at 4.
pub open spec fn flat_block(y: int) -> BlockType {
    if y == 4 {
        BlockType::Grass
    } else {
        BlockType::Stone
    }
}

/// Lays the flat world's ground into a chunk: four layers of stone under a layer of grass in
/// every column, keeping the non-air counter in step.
pub fn generate(chunk: &mut Chunk)
    requires
        old(chunk).wf(),
    ensures
        final(chunk).wf(),
        final(chunk).position == old(chunk).position,
        final(chunk).light_buffer == old(chunk).light_buffer,
        forall|i: int|
            0 <= i < 32768 ==> #[trigger] final(chunk).buffer.blocks@[i] == if coord_y(i) < 5 {
                flat_block(coord_y(i))
            } else {
                old(chunk).buffer.blocks@[i]
            },
{
    let ghost b0 = chunk.buffer.blocks@;
    let ghost c0 = *chunk;
    let mut k: usize = 0;
    while k < 5120
        invariant
            chunk.wf(),
            chunk.position == c0.position,
            chunk.light_buffer == c0.light_buffer,
            k <= 5120,
            b0.len() == 32768,
            forall|i: int|
                0 <= i < 32768 ==> #[trigger] chunk.buffer.blocks@[i] == if flat_slot(i) < k {
                    flat_block(coord_y(i))
                } else {
                    b0[i]
                },
        decreases 5120 - k,
    {
        let x = k / 160;
        let z = (k / 5) % 32;
        let y = k % 5;
        let block = if y == 4 { BlockType::Grass } else { BlockType::Stone };
        let ghost before = chunk.buffer.blocks@;
        proof {
            lemma_index_coords(x as int, y as int, z as int);
            assert(flat_slot(voxel_index(x as int, y as int, z as int)) == k) by (nonlinear_arith)
                requires
                    x == k / 160,
                    z == (k / 5) % 32,
                    y == k % 5,
                    k < 5120,
                    coord_x(voxel_index(x as int, y as int, z as int)) == x,
                    coord_y(voxel_index(x as int, y as int, z as int)) == y,
                    coord_z(voxel_index(x as int, y as int, z as int)) == z,
                    flat_slot(voxel_index(x as int, y as int, z as int)) == (x * 32 + z) * 5 + y,
            ;
        }
        chunk.set_block(x, y, z, block);
        proof {
            let idx = voxel_index(x as int, y as int, z as int);
            assert forall|i: int| 0 <= i < 32768 implies #[trigger] chunk.buffer.blocks@[i] == if flat_slot(i) < k + 1 {
                flat_block(coord_y(i))
            } else {
                b0[i]
            } by {
                if i != idx {
                    lemma_coords(i);
                    if flat_slot(i) == k {
                        assert(coord_x(i) == x && coord_z(i) == z && coord_y(i) == y) by (nonlinear_arith)
                            requires
                                flat_slot(i) == k,
                                coord_y(i) < 5,
                                flat_slot(i) == (coord_x(i) * 32 + coord_z(i)) * 5 + coord_y(i),
                                0 <= coord_x(i) < 32,
                                0 <= coord_z(i) < 32,
                                0 <= coord_y(i),
                                x == k / 160,
                                z == (k / 5) % 32,
                                y == k % 5,
                        ;
                        crate::math::lemma_index_injective(coord_x(i), coord_y(i), coord_z(i), x as int, y as int, z as int);
                    }
                }
            }
        }
        k = k + 1;
    }
    proof {
        assert forall|i: int| 0 <= i < 32768 implies #[trigger] chunk.buffer.blocks@[i] == if coord_y(i) < 5 {
            flat_block(coord_y(i))
        } else {
            b0[i]
        } by {
            lemma_coords(i);
            if coord_y(i) < 5 {
                assert(flat_slot(i) < 5120) by (nonlinear_arith)
                    requires
                        flat_slot(i) == (coord_x(i) * 32 + coord_z(i)) * 5 + coord_y(i),
                        0 <= coord_x(i) < 32,
                        0 <= coord_z(i) < 32,
                        0 <= coord_y(i) < 5,
                ;
            }
        }
    }
}


/// Block of the rolling-hills terrain at height `gy` in a column whose surface is at `surface`:
/// grass on the surface, three layers of dirt under it, stone below and air above.
pub open spec fn hills_block(gy: int, surface: int) -> BlockType {
    if gy > surface {
        BlockType::Air
    } else if gy == surface {
        BlockType::Grass
    } else if gy >= surface - 3 {
        BlockType::Dirt
    } else {
        BlockType::Stone
    }
}

/// Fills a chunk with rolling hills, given the surface height of each of its columns (indexed
/// `x + z * 32`): every voxel that is not air in the hills is written, the others keep what the
/// chunk held.
pub fn fill_hill_columns(chunk: &mut Chunk, chunk_pos: IVec3, surface_heights: &Vec<i32>)
    requires
        old(chunk).wf(),
        surface_heights@.len() == 1024,
    ensures
        final(chunk).wf(),
        final(chunk).position == old(chunk).position,
        final(chunk).light_buffer == old(chunk).light_buffer,
        forall|i: int|
            0 <= i < 32768 ==> #[trigger] final(chunk).buffer.blocks@[i] == {
                let b = hills_block(
                    chunk_pos.y * 32 + coord_y(i),
                    surface_heights@[coord_x(i) + coord_z(i) * 32] as int,
                );
                if b != BlockType::Air {
                    b
                } else {
                    old(chunk).buffer.blocks@[i]
                }
            },
{
    let ghost b0 = chunk.buffer.blocks@;
    let ghost c0 = *chunk;
    let base_y: i64 = chunk_pos.y as i64 * 32;
    let mut k: usize = 0;
    while k < 32768
        invariant
            chunk.wf(),
            chunk.position == c0.position,
            chunk.light_buffer == c0.light_buffer,
            k <= 32768,
            b0.len() == 32768,
            surface_heights@.len() == 1024,
            base_y == chunk_pos.y * 32,
            forall|i: int|
                0 <= i < 32768 ==> #[trigger] chunk.buffer.blocks@[i] == if i < k {
                    let b = hills_block(
                        chunk_pos.y * 32 + coord_y(i),
                        surface_heights@[coord_x(i) + coord_z(i) * 32] as int,
                    );
                    if b != BlockType::Air {
                        b
                    } else {
                        b0[i]
                    }
                } else {
                    b0[i]
                },
        decreases 32768 - k,
    {
        let x = k % 32;
        let y = (k / 32) % 32;
        let z = k / 1024;
        proof {
            lemma_coords(k as int);
        }
        let max_y = surface_heights[x + z * 32] as i64;
        let global_y = base_y + y as i64;
        let block = if global_y > max_y {
            BlockType::Air
        } else if global_y == max_y {
            BlockType::Grass
        } else if global_y + 3 >= max_y {
            BlockType::Dirt
        } else {
            BlockType::Stone
        };
        if block != BlockType::Air {
            chunk.set_block(x, y, z, block);
        }
        proof {
            assert forall|i: int| 0 <= i < 32768 implies #[trigger] chunk.buffer.blocks@[i] == if i < k + 1 {
                let b = hills_block(
                    chunk_pos.y * 32 + coord_y(i),
                    surface_heights@[coord_x(i) + coord_z(i) * 32] as int,
                );
                if b != BlockType::Air {
                    b
                } else {
                    b0[i]
                }
            } else {
                b0[i]
            } by {
                if i == k {
                    assert(block == hills_block(
                        chunk_pos.y * 32 + coord_y(i),
                        surface_heights@[coord_x(i) + coord_z(i) * 32] as int,
                    ));
                }
            }
        }
        k = k + 1;
    }
}


/// A tree whose trunk stands more than two columns outside a chunk leaves the chunk as it was,
/// so the columns scanned around a chunk (two on each side) hold every tree that reaches into it
/// and no tree is cut off at a chunk border.
pub proof fn law_distant_tree_leaves_chunk_unchanged(blocks: Seq<BlockType>, cp: IVec3, t: TreeSite)
    requires
        blocks.len() == 32768,
        t.bx < -2 || t.bx >= 34 || t.bz < -2 || t.bz >= 34,
    ensures
        with_tree(blocks, cp, t) == blocks,
{
    assert forall|i: int| 0 <= i < 32768 implies #[trigger] with_tree(blocks, cp, t)[i] == blocks[i] by {
        reveal(tree_voxel);
        lemma_coords(i);
    }
    assert(with_tree(blocks, cp, t) =~= blocks);
}

} // verus!
