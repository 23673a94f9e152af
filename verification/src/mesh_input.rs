use vstd::prelude::*;
use crate::voxel::BlockType;
use crate::math::{IVec3, voxel_pos_to_index};
use crate::chunk::{ChunkBuffer, ChunkLightBuffer, sky_of};
use crate::world::{WorldManager, chunk_of, local_of, local_index, lemma_pos_decomp};

verus! {

/// Chunk positions whose voxels, and those of a one-voxel margin around them, have 32-bit
/// coordinates.
pub open spec fn mesh_chunk_ok(cp: IVec3) -> bool {
    &&& -67000000 <= cp.x <= 67000000
    &&& -67000000 <= cp.y <= 67000000
    &&& -67000000 <= cp.z <= 67000000
}

/// Whether chunk `cp` is `center` or one of its 26 neighbours.
pub open spec fn is_near(center: IVec3, cp: IVec3) -> bool {
    &&& -1 <= cp.x - center.x <= 1
    &&& -1 <= cp.y - center.y <= 1
    &&& -1 <= cp.z - center.z <= 1
}

/// Slot of chunk `cp` among the 27 chunks around `center`.
pub open spec fn near_index(center: IVec3, cp: IVec3) -> int {
    (cp.x - center.x + 1) * 9 + (cp.y - center.y + 1) * 3 + (cp.z - center.z + 1)
}

/// What a voxel of a chunk that is not at hand is taken to be: rock below height 64, air above.
pub open spec fn default_block(gp: IVec3) -> BlockType {
    if gp.y >= 64 {
        BlockType::Air
    } else {
        BlockType::Stone
    }
}

/// Copies of the blocks, fluids and settled light of a chunk and its 26 neighbours (slot
/// `(dx + 1) * 9 + (dy + 1) * 3 + (dz + 1)`), and the terrain surface height of the 34x34
/// columns over the chunk and a one-column margin (index `(lz + 1) * 34 + (lx + 1)`).
pub struct ChunkMeshInputData {
    pub chunk_pos: IVec3,
    pub blocks: Vec<Option<ChunkBuffer>>,
    pub fluids: Vec<Option<Vec<u8>>>,
    pub lights: Vec<Option<ChunkLightBuffer>>,
    pub surface_heights: Option<Vec<i32>>,
}

impl ChunkMeshInputData {
    /// Every slot is present, every copy covers one chunk, and the surface heights are there.
    pub open spec fn wf(&self) -> bool {
        &&& mesh_chunk_ok(self.chunk_pos)
        &&& self.blocks@.len() == 27
        &&& self.fluids@.len() == 27
        &&& self.lights@.len() == 27
        &&& forall|i: int|
            0 <= i < 27 ==> (#[trigger] self.blocks@[i] matches Some(b) ==> b.wf())
        &&& forall|i: int|
            0 <= i < 27 ==> (#[trigger] self.fluids@[i] matches Some(f) ==> f@.len() == 32768)
        &&& forall|i: int|
            0 <= i < 27 ==> (#[trigger] self.lights@[i] matches Some(l) ==> l.wf())
        &&& self.surface_heights matches Some(h) && h@.len() == 1156
    }

    /// Block at a world position.
    pub open spec fn block_at(&self, gp: IVec3) -> BlockType {
        let cp = chunk_of(gp);
        if is_near(self.chunk_pos, cp) {
            match self.blocks@[near_index(self.chunk_pos, cp)] {
                Some(b) => b.blocks@[local_index(gp)],
                None => default_block(gp),
            }
        } else {
            default_block(gp)
        }
    }

    /// Fluid byte at a world position: zero where no fluid is at hand.
    pub open spec fn fluid_at(&self, gp: IVec3) -> u8 {
        let cp = chunk_of(gp);
        if is_near(self.chunk_pos, cp) {
            match self.fluids@[near_index(self.chunk_pos, cp)] {
                Some(f) => f@[local_index(gp)],
                None => 0,
            }
        } else {
            0
        }
    }

    /// Surface-based guess of the sky light at a world position: full at or above the terrain
    /// surface of its column (columns beyond the margin use the nearest margin column), dark
    /// below.
    pub open spec fn surface_light(&self, gp: IVec3) -> u8 {
        let lx = gp.x - self.chunk_pos.x * 32;
        let lz = gp.z - self.chunk_pos.z * 32;
        let cx = if lx < -1 { -1 } else if lx > 32 { 32 } else { lx };
        let cz = if lz < -1 { -1 } else if lz > 32 { 32 } else { lz };
        let h = self.surface_heights->Some_0@[(cz + 1) * 34 + (cx + 1)];
        if gp.y >= h {
            15
        } else {
            0
        }
    }

    /// Sky light at a world position: none inside blocks; the settled light of a chunk at hand;
    /// otherwise the surface-based guess.
    pub open spec fn light_at(&self, gp: IVec3) -> u8 {
        if self.block_at(gp) != BlockType::Air {
            0
        } else {
            let cp = chunk_of(gp);
            if is_near(self.chunk_pos, cp) {
                match self.lights@[near_index(self.chunk_pos, cp)] {
                    Some(l) => sky_of(l.light_data@[local_index(gp)]),
                    None => self.surface_light(gp),
                }
            } else {
                self.surface_light(gp)
            }
        }
    }

    /// Slot of the chunk holding `gp` when it is one of the 27 at hand.
    fn slot_of(&self, gp: IVec3) -> (r: (Option<usize>, usize))
        requires
            mesh_chunk_ok(self.chunk_pos),
        ensures
            r.0 matches Some(i) ==> is_near(self.chunk_pos, chunk_of(gp)) && i == near_index(
                self.chunk_pos,
                chunk_of(gp),
            ) && i < 27,
            r.0 is None ==> !is_near(self.chunk_pos, chunk_of(gp)),
            r.1 == local_index(gp),
            r.1 < 32768,
    {
        let (cp, lp) = WorldManager::global_to_chunk_pos(gp);
        proof {
            lemma_pos_decomp(gp);
        }
        let dx = cp.x as i64 - self.chunk_pos.x as i64;
        let dy = cp.y as i64 - self.chunk_pos.y as i64;
        let dz = cp.z as i64 - self.chunk_pos.z as i64;
        let li = voxel_pos_to_index(lp.x as usize, lp.y as usize, lp.z as usize);
        if dx < -1 || dx > 1 || dy < -1 || dy > 1 || dz < -1 || dz > 1 {
            (None, li)
        } else {
            (Some(((dx + 1) * 9 + (dy + 1) * 3 + (dz + 1)) as usize), li)
        }
    }

    /// Block at a world position.
    pub fn get_block_global(&self, gp: IVec3) -> (r: BlockType)
        requires
            self.wf(),
        ensures
            r == self.block_at(gp),
    {
        let (slot, li) = self.slot_of(gp);
        match slot {
            Some(idx) => match &self.blocks[idx] {
                Some(buf) => buf.blocks[li],
                None => if gp.y >= 64 {
                    BlockType::Air
                } else {
                    BlockType::Stone
                },
            },
            None => if gp.y >= 64 {
                BlockType::Air
            } else {
                BlockType::Stone
            },
        }
    }

    /// Fluid byte at a world position.
    pub fn get_fluid_global(&self, gp: IVec3) -> (r: u8)
        requires
            self.wf(),
        ensures
            r == self.fluid_at(gp),
    {
        let (slot, li) = self.slot_of(gp);
        match slot {
            Some(idx) => match &self.fluids[idx] {
                Some(f) => f[li],
                None => 0,
            },
            None => 0,
        }
    }

    /// Surface-based guess of the sky light at a world position.
    fn surface_light_exec(&self, gp: IVec3) -> (r: u8)
        requires
            self.wf(),
        ensures
            r == self.surface_light(gp),
    {
        let lx = gp.x as i64 - self.chunk_pos.x as i64 * 32;
        let lz = gp.z as i64 - self.chunk_pos.z as i64 * 32;
        let cx = if lx < -1 { -1 } else if lx > 32 { 32 } else { lx };
        let cz = if lz < -1 { -1 } else if lz > 32 { 32 } else { lz };
        let h_idx = ((cz + 1) * 34 + (cx + 1)) as usize;
        match &self.surface_heights {
            Some(h) => {
                let surface_y = h[h_idx];
                if gp.y >= surface_y {
                    15
                } else {
                    0
                }
            },
            None => 0,
        }
    }

    /// Sky light at a world position.
    pub fn get_light_global(&self, gp: IVec3) -> (r: u8)
        requires
            self.wf(),
        ensures
            r == self.light_at(gp),
            r <= 15,
    {
        if self.get_block_global(gp) != BlockType::Air {
            return 0;
        }
        let (slot, li) = self.slot_of(gp);
        match slot {
            Some(idx) => match &self.lights[idx] {
                Some(l) => l.get_sky_light(li),
                None => self.surface_light_exec(gp),
            },
            None => self.surface_light_exec(gp),
        }
    }
}

} // verus!
