use vstd::prelude::*;
use crate::voxel::{BlockType, block_definition};
use crate::math::{IVec3, voxel_index, voxel_pos_to_index};
use crate::chunk::{ChunkBuffer, ChunkLightBuffer, sky_of};
use std::collections::{HashMap, HashSet, VecDeque};

verus! {

broadcast use vstd::std_specs::hash::group_hash_axioms;

// ---------------------------------------------------------------------------
// Coordinates.

/// Chunk coordinate of a world coordinate (floor division by the chunk size).
pub open spec fn chunk_coord(v: i32) -> i32 {
    (v as int / 32) as i32
}

/// Local coordinate of a world coordinate inside its chunk.
pub open spec fn local_coord(v: i32) -> i32 {
    (v as int % 32) as i32
}

/// Chunk holding a world position.
pub open spec fn chunk_of(p: IVec3) -> IVec3 {
    IVec3 { x: chunk_coord(p.x), y: chunk_coord(p.y), z: chunk_coord(p.z) }
}

/// Position of a world position inside its chunk.
pub open spec fn local_of(p: IVec3) -> IVec3 {
    IVec3 { x: local_coord(p.x), y: local_coord(p.y), z: local_coord(p.z) }
}

/// Index of a world position inside its chunk's buffers.
pub open spec fn local_index(p: IVec3) -> int {
    voxel_index(local_coord(p.x) as int, local_coord(p.y) as int, local_coord(p.z) as int)
}

/// Whether a world position lies in the vertical range of the world.
pub open spec fn in_world(p: IVec3) -> bool {
    0 <= p.y < 256
}

/// Floor division and remainder of one coordinate by the chunk size.
fn split_coord(v: i32) -> (r: (i32, i32))
    ensures
        r.0 == chunk_coord(v),
        r.1 == local_coord(v),
        0 <= r.1 < 32,
        r.0 * 32 + r.1 == v,
{
    if v >= 0 {
        (v / 32, v % 32)
    } else {
        let m = -(v + 1);
        let q = -(m / 32) - 1;
        let r = v - q * 32;
        (q, r)
    }
}

/// Chunk positions reachable from 32-bit world positions.
pub open spec fn chunk_pos_bounded(cp: IVec3) -> bool {
    &&& -67108864 <= cp.x <= 67108864
    &&& -67108864 <= cp.y <= 67108864
    &&& -67108864 <= cp.z <= 67108864
}

/// Key under which the chunk at a chunk position is stored.
pub open spec fn chunk_key(p: IVec3) -> u128 {
    ((p.x as int + 0x8000_0000) * 0x1_0000_0000_0000_0000 + (p.y as int + 0x8000_0000)
        * 0x1_0000_0000 + (p.z as int + 0x8000_0000)) as u128
}

/// Key under which a chunk column's height map is stored.
pub open spec fn column_key(x: i32, z: i32) -> u64 {
    ((x as int + 0x8000_0000) * 0x1_0000_0000 + (z as int + 0x8000_0000)) as u64
}

/// Distinct chunk positions have distinct keys.
pub proof fn lemma_chunk_key_injective(a: IVec3, b: IVec3)
    ensures
        chunk_key(a) == chunk_key(b) ==> a == b,
{
}

/// Key under which the chunk at a chunk position is stored.
pub fn chunk_key_of(p: IVec3) -> (r: u128)
    ensures
        r == chunk_key(p),
{
    let x = (p.x as i64 + 0x8000_0000) as u128;
    let y = (p.y as i64 + 0x8000_0000) as u128;
    let z = (p.z as i64 + 0x8000_0000) as u128;
    x * 0x1_0000_0000_0000_0000 + y * 0x1_0000_0000 + z
}

/// Chunk position stored under a key.
pub fn chunk_pos_of_key(k: u128) -> (r: IVec3)
    requires
        k < 0x1_0000_0000_0000_0000_0000_0000,
    ensures
        chunk_key(r) == k,
{
    let x = (k / 0x1_0000_0000_0000_0000) as i64 - 0x8000_0000;
    let y = ((k / 0x1_0000_0000) % 0x1_0000_0000) as i64 - 0x8000_0000;
    let z = (k % 0x1_0000_0000) as i64 - 0x8000_0000;
    IVec3 { x: x as i32, y: y as i32, z: z as i32 }
}

/// Key under which a chunk column's height map is stored.
pub fn column_key_of(x: i32, z: i32) -> (r: u64)
    ensures
        r == column_key(x, z),
{
    let a = (x as i64 + 0x8000_0000) as u64;
    let b = (z as i64 + 0x8000_0000) as u64;
    a * 0x1_0000_0000 + b
}

/// A world position is its chunk's corner plus its local position.
pub proof fn lemma_pos_decomp(p: IVec3)
    ensures
        p.x == chunk_of(p).x * 32 + local_of(p).x,
        p.y == chunk_of(p).y * 32 + local_of(p).y,
        p.z == chunk_of(p).z * 32 + local_of(p).z,
        crate::math::local_in_bounds(local_of(p).x as int, local_of(p).y as int, local_of(p).z as int),
        0 <= local_index(p) < 32768,
        chunk_pos_bounded(chunk_of(p)),
{
}

/// Two positions in the same chunk at the same buffer index are the same position.
pub proof fn lemma_same_slot(p: IVec3, q: IVec3)
    requires
        chunk_of(p) == chunk_of(q),
        local_index(p) == local_index(q),
    ensures
        p == q,
{
    lemma_pos_decomp(p);
    lemma_pos_decomp(q);
    crate::math::lemma_index_injective(
        local_of(p).x as int,
        local_of(p).y as int,
        local_of(p).z as int,
        local_of(q).x as int,
        local_of(q).y as int,
        local_of(q).z as int,
    );
}

// ---------------------------------------------------------------------------
// The world.

/// How new terrain is generated.
#[derive(Debug, Clone, Copy, PartialEq, Eq, Default, Structural)]
pub enum WorldType {
    Flat,
    #[default]
    PerlinHills,
    FloatingIslands,
}

/// A loaded chunk as the world keeps it: blocks, light, optional fluid levels (one byte per
/// voxel: level in the low nibble, bit 7 marks a source), the handle of the entity that draws
/// it (none for chunks that were never drawn), whether it differs from what was saved, and
/// whether its light is settled.
#[derive(Clone)]
pub struct ChunkEntry {
    pub buffer: ChunkBuffer,
    pub light_buffer: ChunkLightBuffer,
    pub fluid_buffer: Option<Vec<u8>>,
    pub entity: Option<u64>,
    pub is_modified: bool,
    pub is_lighting_ready: bool,
}

impl ChunkEntry {
    /// All buffers cover one chunk.
    pub open spec fn wf(&self) -> bool {
        &&& self.buffer.wf()
        &&& self.light_buffer.wf()
        &&& self.fluid_buffer matches Some(f) ==> f@.len() == 32768
    }
}

/// The loaded part of the world: chunks by position, chunks being generated, chunks known to
/// be empty, the terrain surface height of every generated column, the chunks whose meshes
/// must be rebuilt, and the positions whose fluid must be re-evaluated.
pub struct WorldManager {
    pub chunks: HashMap<u128, ChunkEntry>,
    pub loading_chunks: HashSet<u128>,
    pub vacuum_chunks: HashSet<u128>,
    pub world_type: WorldType,
    pub seed: u32,
    pub heightmap_cache: HashMap<u64, Vec<i32>>,
    pub dirty_chunks_for_meshing: HashSet<u128>,
    pub fluid_queue: VecDeque<IVec3>,
}

/// A chunk created where none was loaded: rock below height 64, open sky above.
pub open spec fn revived_entry_spec(cp: IVec3, e: ChunkEntry) -> bool {
    &&& e.wf()
    &&& forall|i: int|
        0 <= i < 32768 ==> #[trigger] e.buffer.blocks@[i] == if cp.y < 2 {
            BlockType::Stone
        } else {
            BlockType::Air
        }
    &&& forall|i: int|
        0 <= i < 32768 ==> #[trigger] e.light_buffer.light_data@[i] == if cp.y < 2 {
            0u8
        } else {
            0xF0u8
        }
    &&& e.fluid_buffer is None
    &&& e.entity is None
    &&& e.is_modified
    &&& !e.is_lighting_ready
}

/// Two states of one loaded chunk that differ at most in fluid: the same blocks, light, entity
/// and lighting state, and still marked modified when the first was.
pub open spec fn same_but_fluid(a: ChunkEntry, b: ChunkEntry) -> bool {
    &&& b.buffer == a.buffer
    &&& b.light_buffer == a.light_buffer
    &&& b.entity == a.entity
    &&& b.is_lighting_ready == a.is_lighting_ready
    &&& a.is_modified ==> b.is_modified
}

/// Every chunk loaded in `a` is still loaded in `b` and differs at most in fluid.
pub open spec fn keeps_chunks_but_fluid(a: WorldManager, b: WorldManager) -> bool {
    forall|k: u128|
        #[trigger] a.chunks@.contains_key(k) ==> b.chunks@.contains_key(k) && same_but_fluid(
            a.chunks@[k],
            b.chunks@[k],
        )
}

/// Keeping every chunk but its fluid is transitive.
pub proof fn lemma_keeps_chunks_trans(a: WorldManager, b: WorldManager, c: WorldManager)
    requires
        keeps_chunks_but_fluid(a, b),
        keeps_chunks_but_fluid(b, c),
    ensures
        keeps_chunks_but_fluid(a, c),
{
    assert forall|k: u128| #[trigger] a.chunks@.contains_key(k) implies c.chunks@.contains_key(k)
        && same_but_fluid(a.chunks@[k], c.chunks@[k]) by {
        assert(b.chunks@.contains_key(k));
    }
}

impl WorldManager {
    /// Every loaded chunk and every cached height map has the right size.
    pub open spec fn wf(&self) -> bool {
        &&& forall|k: u128| #[trigger] self.chunks@.contains_key(k) ==> self.chunks@[k].wf()
        &&& forall|cp: IVec3| #[trigger] self.chunks@.contains_key(chunk_key(cp)) ==> chunk_pos_bounded(cp)
        &&& forall|k: u64|
            #[trigger] self.heightmap_cache@.contains_key(k) ==> self.heightmap_cache@[k]@.len() == 1024
    }

    /// The loaded chunk at a chunk position.
    pub open spec fn entry_at(&self, cp: IVec3) -> Option<ChunkEntry> {
        if self.chunks@.contains_key(chunk_key(cp)) {
            Some(self.chunks@[chunk_key(cp)])
        } else {
            None
        }
    }

    /// Block at a world position: air outside the world's height; a chunk that is not loaded
    /// reads as rock below height 64 and air above.
    pub open spec fn block_at(&self, p: IVec3) -> BlockType {
        if !in_world(p) {
            BlockType::Air
        } else {
            match self.entry_at(chunk_of(p)) {
                Some(e) => e.buffer.blocks@[local_index(p)],
                None => if chunk_of(p).y >= 2 {
                    BlockType::Air
                } else {
                    BlockType::Stone
                },
            }
        }
    }

    /// Fluid byte at a world position: zero outside the world, in chunks that are not loaded
    /// and in chunks without fluid.
    pub open spec fn fluid_at(&self, p: IVec3) -> u8 {
        if !in_world(p) {
            0
        } else {
            match self.entry_at(chunk_of(p)) {
                Some(e) => match e.fluid_buffer {
                    Some(f) => f@[local_index(p)],
                    None => 0,
                },
                None => 0,
            }
        }
    }

    /// Sky light at a world position: full outside the world; from the chunk when it is
    /// loaded; otherwise full above the column's cached terrain surface and dark below it,
    /// and dark when the column's surface is not known.
    pub open spec fn light_at(&self, p: IVec3) -> u8 {
        if !in_world(p) {
            15
        } else {
            match self.entry_at(chunk_of(p)) {
                Some(e) => sky_of(e.light_buffer.light_data@[local_index(p)]),
                None => {
                    let ck = column_key(chunk_of(p).x, chunk_of(p).z);
                    if self.heightmap_cache@.contains_key(ck) {
                        if p.y > self.heightmap_cache@[ck]@[local_of(p).x + local_of(p).z * 32] {
                            15
                        } else {
                            0
                        }
                    } else {
                        0
                    }
                },
            }
        }
    }

    /// An empty world of the default type and seed.
    pub fn new() -> (r: Self)
        ensures
            r.wf(),
            r.chunks@ == Map::<u128, ChunkEntry>::empty(),
            r.heightmap_cache@ == Map::<u64, Vec<i32>>::empty(),
            r.loading_chunks@ == Set::<u128>::empty(),
            r.vacuum_chunks@ == Set::<u128>::empty(),
            r.dirty_chunks_for_meshing@ == Set::<u128>::empty(),
            r.fluid_queue@ == Seq::<IVec3>::empty(),
            r.world_type == WorldType::PerlinHills,
            r.seed == 12345,
    {
        WorldManager {
            chunks: HashMap::new(),
            loading_chunks: HashSet::new(),
            vacuum_chunks: HashSet::new(),
            world_type: WorldType::PerlinHills,
            seed: 12345,
            heightmap_cache: HashMap::new(),
            dirty_chunks_for_meshing: HashSet::new(),
            fluid_queue: VecDeque::new(),
        }
    }

    /// Splits a world position into its chunk position and its position inside the chunk.
    pub fn global_to_chunk_pos(pos: IVec3) -> (r: (IVec3, IVec3))
        ensures
            r.0 == chunk_of(pos),
            r.1 == local_of(pos),
            0 <= r.1.x < 32 && 0 <= r.1.y < 32 && 0 <= r.1.z < 32,
    {
        let (cx, lx) = split_coord(pos.x);
        let (cy, ly) = split_coord(pos.y);
        let (cz, lz) = split_coord(pos.z);
        (IVec3 { x: cx, y: cy, z: cz }, IVec3 { x: lx, y: ly, z: lz })
    }

    /// The loaded chunk at a chunk position.
    pub fn get_chunk_ref(&self, pos: IVec3) -> (r: Option<&ChunkEntry>)
        ensures
            r matches Some(e) ==> self.entry_at(pos) == Some(*e),
            r is None ==> self.entry_at(pos) is None,
    {
        let key = chunk_key_of(pos);
        self.chunks.get(&key)
    }

    /// Block at a world position.
    pub fn get_block_global(&self, pos: IVec3) -> (r: BlockType)
        requires
            self.wf(),
        ensures
            r == self.block_at(pos),
    {
        if pos.y < 0 || pos.y >= 256 {
            return BlockType::Air;
        }
        let (chunk_pos, local) = Self::global_to_chunk_pos(pos);
        if let Some(entry) = self.get_chunk_ref(chunk_pos) {
            proof {
                lemma_pos_decomp(pos);
                assert(self.chunks@.contains_key(chunk_key(chunk_pos)));
            }
            let idx = voxel_pos_to_index(local.x as usize, local.y as usize, local.z as usize);
            return entry.buffer.blocks[idx];
        }
        if chunk_pos.y >= 2 {
            BlockType::Air
        } else {
            BlockType::Stone
        }
    }

    /// Same as [`WorldManager::get_block_global`].
    pub fn get_block_global_mut(&self, pos: IVec3) -> (r: BlockType)
        requires
            self.wf(),
        ensures
            r == self.block_at(pos),
    {
        self.get_block_global(pos)
    }

    /// Fluid byte at a world position.
    pub fn get_fluid_global(&self, pos: IVec3) -> (r: u8)
        requires
            self.wf(),
        ensures
            r == self.fluid_at(pos),
    {
        if pos.y < 0 || pos.y >= 256 {
            return 0;
        }
        let (chunk_pos, local) = Self::global_to_chunk_pos(pos);
        if let Some(entry) = self.get_chunk_ref(chunk_pos) {
            proof {
                lemma_pos_decomp(pos);
                assert(self.chunks@.contains_key(chunk_key(chunk_pos)));
            }
            if let Some(fluid_buf) = &entry.fluid_buffer {
                let idx = voxel_pos_to_index(local.x as usize, local.y as usize, local.z as usize);
                return fluid_buf[idx];
            }
        }
        0
    }

    /// Sky light at a world position.
    pub fn get_light_global(&self, pos: IVec3) -> (r: u8)
        requires
            self.wf(),
        ensures
            r == self.light_at(pos),
            r <= 15,
    {
        if pos.y < 0 || pos.y >= 256 {
            return 15;
        }
        let (chunk_pos, local) = Self::global_to_chunk_pos(pos);
        proof {
            lemma_pos_decomp(pos);
        }
        if let Some(entry) = self.get_chunk_ref(chunk_pos) {
            proof {
                assert(self.chunks@.contains_key(chunk_key(chunk_pos)));
            }
            let idx = voxel_pos_to_index(local.x as usize, local.y as usize, local.z as usize);
            return entry.light_buffer.get_sky_light(idx);
        }
        let col = column_key_of(chunk_pos.x, chunk_pos.z);
        if let Some(heightmap) = self.heightmap_cache.get(&col) {
            proof {
                assert(self.heightmap_cache@.contains_key(col));
            }
            let local_x = local.x as usize;
            let local_z = local.z as usize;
            let max_surface_y = heightmap[local_x + local_z * 32];
            if pos.y > max_surface_y {
                return 15;
            } else {
                return 0;
            }
        }
        0
    }

    /// Number of loaded chunks.
    pub fn chunk_data_count(&self) -> (r: usize)
        ensures
            r == self.chunks@.len(),
    {
        self.chunks.len()
    }

    /// Whether the chunk at a chunk position is loaded and its light is settled.
    pub fn is_chunk_lighting_ready(&self, chunk_pos: IVec3) -> (r: bool)
        ensures
            r == (self.entry_at(chunk_pos) matches Some(e) && e.is_lighting_ready),
    {
        match self.get_chunk_ref(chunk_pos) {
            Some(e) => e.is_lighting_ready,
            None => false,
        }
    }
}

impl WorldManager {
    /// A chunk for a position where none is loaded: rock below height 64, open sky above.
    pub fn revived_entry(chunk_pos: IVec3) -> (r: ChunkEntry)
        ensures
            revived_entry_spec(chunk_pos, r),
    {
        let mut entry = ChunkEntry {
            buffer: ChunkBuffer::default(),
            light_buffer: ChunkLightBuffer::default(),
            fluid_buffer: None,
            entity: None,
            is_modified: true,
            is_lighting_ready: false,
        };
        if chunk_pos.y < 2 {
            entry.buffer = ChunkBuffer { blocks: vec![BlockType::Stone; 32768] };
        } else {
            entry.light_buffer = ChunkLightBuffer { light_data: vec![0xF0u8; 32768] };
        }
        entry
    }

    /// Sets the fluid byte at a world position, loading a fresh chunk there first (rock below
    /// height 64, open sky above) when none is loaded and the byte is not zero. The chunk is
    /// marked modified and queued for meshing. Positions outside the world are ignored.
    #[verifier::rlimit(40)]
    pub fn set_fluid_global(&mut self, pos: IVec3, val: u8)
        requires
            old(self).wf(),
        ensures
            final(self).wf(),
            forall|p: IVec3| #[trigger] final(self).block_at(p) == old(self).block_at(p),
            forall|p: IVec3|
                #[trigger] final(self).fluid_at(p) == if p == pos && in_world(pos) {
                    val
                } else {
                    old(self).fluid_at(p)
                },
            forall|cp: IVec3|
                cp != chunk_of(pos) ==> #[trigger] final(self).entry_at(cp) == old(self).entry_at(cp),
            final(self).heightmap_cache@ == old(self).heightmap_cache@,
            final(self).fluid_queue@ == old(self).fluid_queue@,
            final(self).loading_chunks@ == old(self).loading_chunks@,
            final(self).vacuum_chunks@ == old(self).vacuum_chunks@,
            final(self).dirty_chunks_for_meshing@.subset_of(
                old(self).dirty_chunks_for_meshing@.insert(chunk_key(chunk_of(pos))),
            ),
            old(self).dirty_chunks_for_meshing@.subset_of(final(self).dirty_chunks_for_meshing@),
            final(self).world_type == old(self).world_type,
            final(self).seed == old(self).seed,
            in_world(pos) && (old(self).chunks@.contains_key(chunk_key(chunk_of(pos))) || val != 0) ==> {
                &&& final(self).chunks@.dom() == old(self).chunks@.dom().insert(chunk_key(chunk_of(pos)))
                &&& final(self).chunks@[chunk_key(chunk_of(pos))].is_modified
                &&& final(self).dirty_chunks_for_meshing@ == old(self).dirty_chunks_for_meshing@.insert(
                    chunk_key(chunk_of(pos)),
                )
            },
            !(in_world(pos) && (old(self).chunks@.contains_key(chunk_key(chunk_of(pos))) || val != 0)) ==> {
                &&& final(self).chunks@ == old(self).chunks@
                &&& final(self).dirty_chunks_for_meshing@ == old(self).dirty_chunks_for_meshing@
            },
            keeps_chunks_but_fluid(*old(self), *final(self)),
    {
        if pos.y < 0 || pos.y >= 256 {
            return;
        }
        let (chunk_pos, local) = Self::global_to_chunk_pos(pos);
        let key = chunk_key_of(chunk_pos);
        let ghost old_chunks = self.chunks@;
        proof {
            lemma_pos_decomp(pos);
        }
        let mut entry = match self.chunks.remove(&key) {
            Some(e) => e,
            None => {
                if val == 0 {
                    proof {
                        assert(self.chunks@ =~= old_chunks);
                        assert forall|p: IVec3| #[trigger] self.fluid_at(p) == if p == pos && in_world(pos) {
                            val
                        } else {
                            old(self).fluid_at(p)
                        } by {}
                    }
                    return;
                }
                Self::revived_entry(chunk_pos)
            },
        };
        let idx = voxel_pos_to_index(local.x as usize, local.y as usize, local.z as usize);
        let mut fb = match entry.fluid_buffer {
            Some(f) => f,
            None => vec![0u8; 32768],
        };
        let ghost fb0 = fb@;
        fb.set(idx, val);
        entry.fluid_buffer = Some(fb);
        entry.is_modified = true;
        self.chunks.insert(key, entry);
        self.dirty_chunks_for_meshing.insert(key);
        proof {
            assert forall|k: u128| #[trigger] self.chunks@.contains_key(k) implies self.chunks@[k].wf() by {
                if k != key {
                    assert(old_chunks.contains_key(k));
                }
            }
            assert forall|cp: IVec3| #[trigger] self.chunks@.contains_key(chunk_key(cp)) implies chunk_pos_bounded(
                cp,
            ) by {
                lemma_chunk_key_injective(cp, chunk_pos);
                if chunk_key(cp) != key {
                    assert(old_chunks.contains_key(chunk_key(cp)));
                }
            }
            assert forall|cp: IVec3| cp != chunk_of(pos) implies #[trigger] self.entry_at(cp)
                == old(self).entry_at(cp) by {
                lemma_chunk_key_injective(cp, chunk_pos);
            }
            assert forall|p: IVec3| #[trigger] self.block_at(p) == old(self).block_at(p) by {
                if in_world(p) {
                    lemma_pos_decomp(p);
                    if chunk_of(p) != chunk_pos {
                        lemma_chunk_key_injective(chunk_of(p), chunk_pos);
                    }
                }
            }
            assert forall|p: IVec3| #[trigger] self.fluid_at(p) == if p == pos && in_world(pos) {
                val
            } else {
                old(self).fluid_at(p)
            } by {
                if in_world(p) {
                    lemma_pos_decomp(p);
                    if chunk_of(p) != chunk_pos {
                        lemma_chunk_key_injective(chunk_of(p), chunk_pos);
                    } else if p != pos {
                        if local_index(p) == local_index(pos) {
                            lemma_same_slot(p, pos);
                        }
                    }
                }
            }
        }
    }

    /// Sets the sky light at a world position inside the world when its chunk is loaded,
    /// and queues that chunk for meshing.
    #[verifier::rlimit(40)]
    fn update_sky_at(&mut self, pos: IVec3, light: u8)
        requires
            old(self).wf(),
            in_world(pos),
        ensures
            final(self).wf(),
            forall|p: IVec3| #[trigger] final(self).block_at(p) == old(self).block_at(p),
            forall|p: IVec3| #[trigger] final(self).fluid_at(p) == old(self).fluid_at(p),
            forall|p: IVec3|
                #[trigger] final(self).light_at(p) == if p == pos && in_world(pos) && old(
                    self,
                ).entry_at(chunk_of(pos)) is Some {
                    light & 0x0Fu8
                } else {
                    old(self).light_at(p)
                },
            final(self).chunks@.dom() == old(self).chunks@.dom(),
            forall|k: u128|
                #[trigger] old(self).chunks@.contains_key(k) ==> {
                    let (a, b) = (final(self).chunks@[k], old(self).chunks@[k]);
                    &&& a.buffer == b.buffer
                    &&& a.fluid_buffer == b.fluid_buffer
                    &&& a.entity == b.entity
                    &&& a.is_modified == b.is_modified
                    &&& a.is_lighting_ready == b.is_lighting_ready
                },
            forall|k: u128|
                #[trigger] old(self).chunks@.contains_key(k) && k != chunk_key(chunk_of(pos))
                    ==> final(self).chunks@[k].light_buffer == old(self).chunks@[k].light_buffer,
            in_world(pos) && old(self).chunks@.contains_key(chunk_key(chunk_of(pos))) ==> {
                let (a, b) = (
                    final(self).chunks@[chunk_key(chunk_of(pos))].light_buffer.light_data@,
                    old(self).chunks@[chunk_key(chunk_of(pos))].light_buffer.light_data@,
                );
                &&& a == b.update(local_index(pos), a[local_index(pos)])
                &&& sky_of(a[local_index(pos)]) == light & 0x0Fu8
            },
            final(self).heightmap_cache@ == old(self).heightmap_cache@,
            final(self).fluid_queue@ == old(self).fluid_queue@,
            final(self).loading_chunks@ == old(self).loading_chunks@,
            final(self).vacuum_chunks@ == old(self).vacuum_chunks@,
            final(self).dirty_chunks_for_meshing@ == if old(self).chunks@.contains_key(chunk_key(chunk_of(pos))) {
                old(self).dirty_chunks_for_meshing@.insert(chunk_key(chunk_of(pos)))
            } else {
                old(self).dirty_chunks_for_meshing@
            },
            final(self).world_type == old(self).world_type,
            final(self).seed == old(self).seed,
    {
        let (chunk_pos, local) = Self::global_to_chunk_pos(pos);
        let key = chunk_key_of(chunk_pos);
        let ghost old_chunks = self.chunks@;
        proof {
            lemma_pos_decomp(pos);
        }
        match self.chunks.remove(&key) {
            Some(mut entry) => {
                let idx = voxel_pos_to_index(local.x as usize, local.y as usize, local.z as usize);
                entry.light_buffer.set_sky_light(idx, light);
                self.chunks.insert(key, entry);
                self.dirty_chunks_for_meshing.insert(key);
                proof {
                    assert(self.chunks@.dom() =~= old_chunks.dom());
                    assert forall|k: u128| #[trigger] self.chunks@.contains_key(k) implies self.chunks@[k].wf() by {
                        if k != key {
                            assert(old_chunks.contains_key(k));
                        }
                    }
                    assert forall|p: IVec3| #[trigger] self.block_at(p) == old(self).block_at(p) by {
                        if in_world(p) && chunk_of(p) != chunk_pos {
                            lemma_chunk_key_injective(chunk_of(p), chunk_pos);
                        }
                    }
                    assert forall|p: IVec3| #[trigger] self.fluid_at(p) == old(self).fluid_at(p) by {
                        if in_world(p) && chunk_of(p) != chunk_pos {
                            lemma_chunk_key_injective(chunk_of(p), chunk_pos);
                        }
                    }
                    assert forall|p: IVec3| #[trigger] self.light_at(p) == if p == pos && in_world(pos)
                        && old(self).entry_at(chunk_of(pos)) is Some {
                        light & 0x0Fu8
                    } else {
                        old(self).light_at(p)
                    } by {
                        if in_world(p) {
                            lemma_pos_decomp(p);
                            if chunk_of(p) != chunk_pos {
                                lemma_chunk_key_injective(chunk_of(p), chunk_pos);
                            } else if p != pos {
                                if local_index(p) == local_index(pos) {
                                    lemma_same_slot(p, pos);
                                }
                            }
                        }
                    }
                }
            },
            None => {
                proof {
                    assert(self.chunks@ =~= old_chunks);
                }
            },
        }
    }

    /// Sets the sky light at a world position when its chunk is loaded, and queues for
    /// meshing that chunk and every loaded chunk that shares the face the position lies on.
    pub fn set_light_global(&mut self, pos: IVec3, light: u8)
        requires
            old(self).wf(),
        ensures
            final(self).wf(),
            forall|p: IVec3| #[trigger] final(self).block_at(p) == old(self).block_at(p),
            forall|p: IVec3| #[trigger] final(self).fluid_at(p) == old(self).fluid_at(p),
            forall|p: IVec3|
                #[trigger] final(self).light_at(p) == if p == pos && in_world(pos) && old(
                    self,
                ).entry_at(chunk_of(pos)) is Some {
                    light & 0x0Fu8
                } else {
                    old(self).light_at(p)
                },
            final(self).chunks@.dom() == old(self).chunks@.dom(),
            forall|k: u128|
                #[trigger] old(self).chunks@.contains_key(k) ==> {
                    let (a, b) = (final(self).chunks@[k], old(self).chunks@[k]);
                    &&& a.buffer == b.buffer
                    &&& a.fluid_buffer == b.fluid_buffer
                    &&& a.entity == b.entity
                    &&& a.is_modified == b.is_modified
                    &&& a.is_lighting_ready == b.is_lighting_ready
                },
            forall|k: u128|
                #[trigger] old(self).chunks@.contains_key(k) && k != chunk_key(chunk_of(pos))
                    ==> final(self).chunks@[k].light_buffer == old(self).chunks@[k].light_buffer,
            in_world(pos) && old(self).chunks@.contains_key(chunk_key(chunk_of(pos))) ==> {
                let (a, b) = (
                    final(self).chunks@[chunk_key(chunk_of(pos))].light_buffer.light_data@,
                    old(self).chunks@[chunk_key(chunk_of(pos))].light_buffer.light_data@,
                );
                &&& a == b.update(local_index(pos), a[local_index(pos)])
                &&& sky_of(a[local_index(pos)]) == light & 0x0Fu8
            },
            final(self).heightmap_cache@ == old(self).heightmap_cache@,
            final(self).fluid_queue@ == old(self).fluid_queue@,
            final(self).loading_chunks@ == old(self).loading_chunks@,
            final(self).vacuum_chunks@ == old(self).vacuum_chunks@,
            old(self).dirty_chunks_for_meshing@.subset_of(final(self).dirty_chunks_for_meshing@),
            in_world(pos) ==> forall|k: u128|
                #[trigger] final(self).dirty_chunks_for_meshing@.contains(k) == (old(
                    self,
                ).dirty_chunks_for_meshing@.contains(k) || (k == chunk_key(chunk_of(pos)) && old(
                    self,
                ).chunks@.contains_key(k)) || remeshed_neighbor(*old(self), chunk_of(pos), local_of(pos), false, k)),
            !in_world(pos) ==> final(self).dirty_chunks_for_meshing@ == old(self).dirty_chunks_for_meshing@,
            final(self).world_type == old(self).world_type,
            final(self).seed == old(self).seed,
    {
        if pos.y < 0 || pos.y >= 256 {
            return;
        }
        self.update_sky_at(pos, light);
        let (chunk_pos, local) = Self::global_to_chunk_pos(pos);
        proof {
            lemma_pos_decomp(pos);
        }
        let ghost mid = *self;
        self.mark_face_neighbors_dirty(chunk_pos, local, false);
        proof {
            assert forall|p: IVec3| #[trigger] self.block_at(p) == mid.block_at(p) by {}
            assert forall|p: IVec3| #[trigger] self.fluid_at(p) == mid.fluid_at(p) by {}
            assert forall|p: IVec3| #[trigger] self.light_at(p) == mid.light_at(p) by {}
            assert forall|k: u128| remeshed_neighbor(mid, chunk_pos, local, false, k) == remeshed_neighbor(
                *old(self),
                chunk_pos,
                local,
                false,
                k,
            ) by {
                assert(mid.chunks@.dom() == old(self).chunks@.dom());
                if remeshed_neighbor(mid, chunk_pos, local, false, k) {
                    assert(old(self).chunks@.contains_key(k));
                }
                if remeshed_neighbor(*old(self), chunk_pos, local, false, k) {
                    assert(mid.chunks@.contains_key(k));
                }
            }
        }
    }
}

/// Offset of the chunk across face `i` of a chunk: -X, +X, -Y, +Y, -Z, +Z.
pub open spec fn face_step(i: int) -> (i32, i32, i32) {
    if i == 0 {
        (-1i32, 0, 0)
    } else if i == 1 {
        (1, 0, 0)
    } else if i == 2 {
        (0, -1i32, 0)
    } else if i == 3 {
        (0, 1, 0)
    } else if i == 4 {
        (0, 0, -1i32)
    } else {
        (0, 0, 1)
    }
}

/// Distance of a local position from face `i` of its chunk.
pub open spec fn face_distance(local: IVec3, i: int) -> int {
    if i == 0 {
        local.x as int
    } else if i == 1 {
        31 - local.x
    } else if i == 2 {
        local.y as int
    } else if i == 3 {
        31 - local.y
    } else if i == 4 {
        local.z as int
    } else {
        31 - local.z
    }
}

/// The chunk across face `i` of the chunk at `cp`.
pub open spec fn face_neighbor(cp: IVec3, i: int) -> IVec3 {
    IVec3 {
        x: (cp.x + face_step(i).0) as i32,
        y: (cp.y + face_step(i).1) as i32,
        z: (cp.z + face_step(i).2) as i32,
    }
}

/// Whether a change at local position `local` must remesh the chunk across face `i`: the
/// position touches that face, or every face counts.
pub open spec fn touches_face(local: IVec3, i: int, all_faces: bool) -> bool {
    all_faces || face_distance(local, i) == 0
}

/// Key of a loaded chunk across a face of `cp` that a change at `local` must remesh.
pub open spec fn remeshed_neighbor(w: WorldManager, cp: IVec3, local: IVec3, all_faces: bool, k: u128) -> bool {
    exists|i: int|
        0 <= i < 6 && touches_face(local, i, all_faces) && k == chunk_key(#[trigger] face_neighbor(cp, i))
            && w.chunks@.contains_key(k)
}

/// For face `i` of a chunk (-X, +X, -Y, +Y, -Z, +Z): the distance of a local position from
/// that face and the offset of the chunk across it.
pub fn face_offset(local: IVec3, i: usize) -> (r: (i32, i32, i32, i32))
    requires
        0 <= local.x < 32 && 0 <= local.y < 32 && 0 <= local.z < 32,
        i < 6,
    ensures
        r.0 == face_distance(local, i as int),
        (r.1, r.2, r.3) == face_step(i as int),
{
    if i == 0 {
        (local.x, -1, 0, 0)
    } else if i == 1 {
        (31 - local.x, 1, 0, 0)
    } else if i == 2 {
        (local.y, 0, -1, 0)
    } else if i == 3 {
        (31 - local.y, 0, 1, 0)
    } else if i == 4 {
        (local.z, 0, 0, -1)
    } else {
        (31 - local.z, 0, 0, 1)
    }
}

impl WorldManager {
    /// Queues for meshing every loaded chunk across a face of `chunk_pos` that the local
    /// position touches, or across every face when `all_faces` is set.
    pub fn mark_face_neighbors_dirty(&mut self, chunk_pos: IVec3, local: IVec3, all_faces: bool)
        requires
            0 <= local.x < 32 && 0 <= local.y < 32 && 0 <= local.z < 32,
            -67108864 <= chunk_pos.x <= 67108864,
            -67108864 <= chunk_pos.y <= 67108864,
            -67108864 <= chunk_pos.z <= 67108864,
        ensures
            final(self).chunks == old(self).chunks,
            final(self).heightmap_cache == old(self).heightmap_cache,
            final(self).fluid_queue == old(self).fluid_queue,
            final(self).loading_chunks == old(self).loading_chunks,
            final(self).vacuum_chunks == old(self).vacuum_chunks,
            final(self).world_type == old(self).world_type,
            final(self).seed == old(self).seed,
            forall|k: u128|
                #[trigger] final(self).dirty_chunks_for_meshing@.contains(k) == (old(
                    self,
                ).dirty_chunks_for_meshing@.contains(k) || remeshed_neighbor(*old(self), chunk_pos, local, all_faces, k)),
    {
        let ghost w0 = *self;
        let mut i: usize = 0;
        while i < 6
            invariant
                0 <= i <= 6,
                0 <= local.x < 32 && 0 <= local.y < 32 && 0 <= local.z < 32,
                -67108864 <= chunk_pos.x <= 67108864,
                -67108864 <= chunk_pos.y <= 67108864,
                -67108864 <= chunk_pos.z <= 67108864,
                self.chunks == old(self).chunks,
                self.heightmap_cache == old(self).heightmap_cache,
                self.fluid_queue == old(self).fluid_queue,
                self.loading_chunks == old(self).loading_chunks,
                self.vacuum_chunks == old(self).vacuum_chunks,
                self.world_type == old(self).world_type,
                self.seed == old(self).seed,
                w0 == *old(self),
                forall|k: u128|
                    #[trigger] self.dirty_chunks_for_meshing@.contains(k) == (w0.dirty_chunks_for_meshing@.contains(k)
                        || exists|j: int|
                        0 <= j < i && touches_face(local, j, all_faces) && k == chunk_key(
                            #[trigger] face_neighbor(chunk_pos, j),
                        ) && w0.chunks@.contains_key(k)),
            decreases 6 - i,
        {
            let (dist_to_edge, dx, dy, dz) = face_offset(local, i);
            if dist_to_edge == 0 || all_faces {
                let neighbor_chunk_pos = IVec3 {
                    x: chunk_pos.x + dx,
                    y: chunk_pos.y + dy,
                    z: chunk_pos.z + dz,
                };
                let nkey = chunk_key_of(neighbor_chunk_pos);
                assert(neighbor_chunk_pos == face_neighbor(chunk_pos, i as int));
                if self.chunks.contains_key(&nkey) {
                    self.dirty_chunks_for_meshing.insert(nkey);
                }
            }
            proof {
                assert forall|k: u128|
                    #[trigger] self.dirty_chunks_for_meshing@.contains(k) == (w0.dirty_chunks_for_meshing@.contains(k)
                        || exists|j: int|
                        0 <= j < i + 1 && touches_face(local, j, all_faces) && k == chunk_key(
                            #[trigger] face_neighbor(chunk_pos, j),
                        ) && w0.chunks@.contains_key(k)) by {
                    if touches_face(local, i as int, all_faces) && k == chunk_key(face_neighbor(chunk_pos, i as int))
                        && w0.chunks@.contains_key(k) {
                        assert(self.dirty_chunks_for_meshing@.contains(k));
                    }
                }
            }
            i = i + 1;
        }
    }
}


impl WorldManager {
    /// Whether any chunk of the column of chunks over world column `(px, pz)` is loaded, from
    /// chunk height 0 up to 7.
    pub open spec fn column_loaded(&self, px: i32, pz: i32) -> bool {
        exists|cy: int|
            0 <= cy < 8 && #[trigger] self.entry_at(
                IVec3 { x: chunk_coord(px), y: cy as i32, z: chunk_coord(pz) },
            ) is Some
    }

    /// The highest height below `n` whose block in world column `(px, pz)` is solid.
    pub open spec fn topmost_solid(&self, px: i32, pz: i32, n: nat) -> Option<int>
        decreases n,
    {
        if n == 0 {
            None
        } else if block_definition(self.block_at(IVec3 { x: px, y: (n - 1) as i32, z: pz })).is_solid {
            Some(n - 1)
        } else {
            self.topmost_solid(px, pz, (n - 1) as nat)
        }
    }

    /// Where a player entering the world at column `(px, pz)` lands: on top of the highest
    /// solid block of the column, once some chunk of the column is loaded; `None` while none
    /// is, or when the column holds nothing solid.
    pub fn spawn_surface(&self, px: i32, pz: i32) -> (r: Option<i32>)
        requires
            self.wf(),
        ensures
            r == if self.column_loaded(px, pz) {
                match self.topmost_solid(px, pz, 256) {
                    Some(y) => Some((y + 1) as i32),
                    None => None,
                }
            } else {
                None
            },
    {
        let cx = px >> 5u32;
        let cz = pz >> 5u32;
        proof {
            assert(cx == chunk_coord(px)) by (bit_vector)
                requires
                    cx == px >> 5u32,
            ;
            assert(cz == chunk_coord(pz)) by (bit_vector)
                requires
                    cz == pz >> 5u32,
            ;
        }
        let mut loaded = false;
        let mut cy: i32 = 8;
        while cy > 0 && !loaded
            invariant
                0 <= cy <= 8,
                cx == chunk_coord(px),
                cz == chunk_coord(pz),
                loaded ==> self.column_loaded(px, pz),
                !loaded ==> forall|c: int|
                    cy <= c < 8 ==> #[trigger] self.entry_at(
                        IVec3 { x: chunk_coord(px), y: c as i32, z: chunk_coord(pz) },
                    ) is None,
            decreases cy,
        {
            cy = cy - 1;
            if self.get_chunk_ref(IVec3 { x: cx, y: cy, z: cz }).is_some() {
                loaded = true;
            }
        }
        if !loaded {
            return None;
        }
        let mut y: i32 = 256;
        while y > 0
            invariant
                0 <= y <= 256,
                self.wf(),
                self.column_loaded(px, pz),
                self.topmost_solid(px, pz, 256) == self.topmost_solid(px, pz, y as nat),
            decreases y,
        {
            let block = self.get_block_global(IVec3 { x: px, y: y - 1, z: pz });
            if block.is_solid() {
                assert(self.topmost_solid(px, pz, y as nat) == Some(y - 1));
                return Some(y);
            }
            y = y - 1;
        }
        None
    }
}


impl Default for WorldManager {
    /// An empty world of the rolling-hills type with seed 12345.
    fn default() -> (r: Self)
        ensures
            r.wf(),
            r.chunks@ == Map::<u128, ChunkEntry>::empty(),
            r.heightmap_cache@ == Map::<u64, Vec<i32>>::empty(),
            r.loading_chunks@ == Set::<u128>::empty(),
            r.vacuum_chunks@ == Set::<u128>::empty(),
            r.dirty_chunks_for_meshing@ == Set::<u128>::empty(),
            r.fluid_queue@ == Seq::<IVec3>::empty(),
            r.world_type == WorldType::PerlinHills,
            r.seed == 12345,
    {
        WorldManager::new()
    }
}


/// Whether voxel `a` comes before voxel `b` in the order boxes are scanned: by X, then Y, then Z.
pub open spec fn scanned_before(a: IVec3, b: IVec3) -> bool {
    a.x < b.x || (a.x == b.x && (a.y < b.y || (a.y == b.y && a.z < b.z)))
}

/// Whether a voxel lies in the box of voxels from `lo` (included) to `hi` (excluded).
pub open spec fn in_box(p: IVec3, lo: IVec3, hi: IVec3) -> bool {
    &&& lo.x <= p.x < hi.x
    &&& lo.y <= p.y < hi.y
    &&& lo.z <= p.z < hi.z
}

impl WorldManager {
    /// Whether some voxel of the box from `lo` to `hi` (excluded) holds fluid.
    pub fn any_fluid_in_box(&self, lo: IVec3, hi: IVec3) -> (r: bool)
        requires
            self.wf(),
        ensures
            r == exists|p: IVec3| in_box(p, lo, hi) && #[trigger] self.fluid_at(p) > 0,
    {
        let mut x = lo.x;
        while x < hi.x
            invariant
                self.wf(),
                lo.x <= x,
                forall|p: IVec3| in_box(p, lo, hi) && p.x < x ==> #[trigger] self.fluid_at(p) == 0,
            decreases hi.x - x,
        {
            let mut y = lo.y;
            while y < hi.y
                invariant
                    self.wf(),
                    lo.x <= x < hi.x,
                    lo.y <= y,
                    forall|p: IVec3|
                        in_box(p, lo, hi) && (p.x < x || (p.x == x && p.y < y)) ==> #[trigger] self.fluid_at(p) == 0,
                decreases hi.y - y,
            {
                let mut z = lo.z;
                while z < hi.z
                    invariant
                        self.wf(),
                        lo.x <= x < hi.x,
                        lo.y <= y < hi.y,
                        lo.z <= z,
                        forall|p: IVec3|
                            in_box(p, lo, hi) && (p.x < x || (p.x == x && p.y < y) || (p.x == x && p.y == y
                                && p.z < z)) ==> #[trigger] self.fluid_at(p) == 0,
                    decreases hi.z - z,
                {
                    let here = IVec3 { x, y, z };
                    if self.get_fluid_global(here) > 0 {
                        assert(in_box(here, lo, hi));
                        return true;
                    }
                    z = z + 1;
                }
                y = y + 1;
            }
            x = x + 1;
        }
        false
    }

    /// The solid voxels of the box from `lo` to `hi` (excluded), each once, in scan order.
    pub fn solid_blocks_in_box(&self, lo: IVec3, hi: IVec3) -> (r: Vec<IVec3>)
        requires
            self.wf(),
        ensures
            r@.no_duplicates(),
            forall|i: int, j: int| 0 <= i < j < r@.len() ==> scanned_before(#[trigger] r@[i], #[trigger] r@[j]),
            forall|i: int|
                0 <= i < r@.len() ==> in_box(r@[i], lo, hi) && block_definition(
                    self.block_at(#[trigger] r@[i]),
                ).is_solid,
            forall|p: IVec3|
                in_box(p, lo, hi) && block_definition(#[trigger] self.block_at(p)).is_solid
                    ==> r@.contains(p),
    {
        let mut hits: Vec<IVec3> = Vec::new();
        let mut x = lo.x;
        while x < hi.x
            invariant
                self.wf(),
                lo.x <= x,
                forall|i: int|
                    0 <= i < hits@.len() ==> in_box(hits@[i], lo, hi) && block_definition(
                        self.block_at(#[trigger] hits@[i]),
                    ).is_solid && hits@[i].x < x,
                forall|i: int, j: int| 0 <= i < j < hits@.len() ==> scanned_before(#[trigger] hits@[i], #[trigger] hits@[j]),
                forall|p: IVec3|
                    in_box(p, lo, hi) && p.x < x && block_definition(#[trigger] self.block_at(p)).is_solid
                        ==> hits@.contains(p),
            decreases hi.x - x,
        {
            let mut y = lo.y;
            let ghost before_x = hits@;
            while y < hi.y
                invariant
                    self.wf(),
                    lo.x <= x < hi.x,
                    lo.y <= y,
                    forall|i: int|
                        0 <= i < hits@.len() ==> in_box(hits@[i], lo, hi) && block_definition(
                            self.block_at(#[trigger] hits@[i]),
                        ).is_solid && (hits@[i].x < x || (hits@[i].x == x && hits@[i].y < y)),
                    forall|i: int, j: int| 0 <= i < j < hits@.len() ==> scanned_before(#[trigger] hits@[i], #[trigger] hits@[j]),
                    forall|p: IVec3|
                        in_box(p, lo, hi) && (p.x < x || (p.x == x && p.y < y)) && block_definition(
                            #[trigger] self.block_at(p),
                        ).is_solid ==> hits@.contains(p),
                decreases hi.y - y,
            {
                let mut z = lo.z;
                while z < hi.z
                    invariant
                        self.wf(),
                        lo.x <= x < hi.x,
                        lo.y <= y < hi.y,
                        lo.z <= z,
                        forall|i: int|
                            0 <= i < hits@.len() ==> in_box(hits@[i], lo, hi) && block_definition(
                                self.block_at(#[trigger] hits@[i]),
                            ).is_solid && (hits@[i].x < x || (hits@[i].x == x && hits@[i].y < y) || (
                            hits@[i].x == x && hits@[i].y == y && hits@[i].z < z)),
                        forall|i: int, j: int| 0 <= i < j < hits@.len() ==> scanned_before(#[trigger] hits@[i], #[trigger] hits@[j]),
                        forall|p: IVec3|
                            in_box(p, lo, hi) && (p.x < x || (p.x == x && p.y < y) || (p.x == x && p.y
                                == y && p.z < z)) && block_definition(#[trigger] self.block_at(p)).is_solid
                                ==> hits@.contains(p),
                    decreases hi.z - z,
                {
                    let here = IVec3 { x, y, z };
                    let ghost old_hits = hits@;
                    if self.get_block_global(here).is_solid() {
                        hits.push(here);
                        proof {
                            assert forall|p: IVec3|
                                in_box(p, lo, hi) && (p.x < x || (p.x == x && p.y < y) || (p.x == x
                                    && p.y == y && p.z < z + 1)) && block_definition(
                                    #[trigger] self.block_at(p),
                                ).is_solid implies hits@.contains(p) by {
                                if p == here {
                                    assert(hits@[hits@.len() - 1] == here);
                                } else {
                                    assert(old_hits.contains(p));
                                    let k = choose|k: int| 0 <= k < old_hits.len() && old_hits[k] == p;
                                    assert(hits@[k] == p);
                                }
                            }
                        }
                    } else {
                        proof {
                            assert forall|p: IVec3|
                                in_box(p, lo, hi) && (p.x < x || (p.x == x && p.y < y) || (p.x == x
                                    && p.y == y && p.z < z + 1)) && block_definition(
                                    #[trigger] self.block_at(p),
                                ).is_solid implies hits@.contains(p) by {
                                if p == here {
                                } else {
                                    assert(old_hits.contains(p));
                                }
                            }
                        }
                    }
                    z = z + 1;
                }
                y = y + 1;
            }
            x = x + 1;
        }
        proof {
            assert forall|i: int, j: int| 0 <= i < hits@.len() && 0 <= j < hits@.len() && i != j implies hits@[i]
                != hits@[j] by {
                if i < j {
                    assert(scanned_before(hits@[i], hits@[j]));
                } else {
                    assert(scanned_before(hits@[j], hits@[i]));
                }
            }
        }
        hits
    }
}

} // verus!
