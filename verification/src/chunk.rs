use vstd::prelude::*;
use crate::voxel::{BlockType, block_id};
use crate::math::{IVec3, voxel_index, local_in_bounds, in_bounds};

verus! {

// ---------------------------------------------------------------------------
// Block buffers.

/// Number of voxels that are not air.
pub open spec fn count_non_air(s: Seq<BlockType>) -> nat
    decreases s.len(),
{
    if s.len() == 0 {
        0
    } else {
        count_non_air(s.drop_last()) + if s.last() != BlockType::Air { 1nat } else { 0nat }
    }
}

/// The count of non-air voxels never exceeds the length.
pub proof fn lemma_count_non_air_bound(s: Seq<BlockType>)
    ensures
        count_non_air(s) <= s.len(),
        count_non_air(s) == 0 <==> (forall|i: int| 0 <= i < s.len() ==> s[i] == BlockType::Air),
    decreases s.len(),
{
    if s.len() > 0 {
        lemma_count_non_air_bound(s.drop_last());
        if count_non_air(s) == 0 {
            assert forall|i: int| 0 <= i < s.len() implies s[i] == BlockType::Air by {
                if i < s.len() - 1 {
                    assert(s.drop_last()[i] == s[i]);
                }
            }
        } else if forall|i: int| 0 <= i < s.len() ==> s[i] == BlockType::Air {
            assert forall|i: int| 0 <= i < s.drop_last().len() implies s.drop_last()[i] == BlockType::Air by {
                assert(s.drop_last()[i] == s[i]);
            }
        }
    }
}

/// Replacing one voxel changes the non-air count by whether the old and the new block are air.
pub proof fn lemma_count_non_air_update(s: Seq<BlockType>, i: int, b: BlockType)
    requires
        0 <= i < s.len(),
    ensures
        count_non_air(s.update(i, b)) + (if s[i] != BlockType::Air { 1int } else { 0int })
            == count_non_air(s) + (if b != BlockType::Air { 1int } else { 0int }),
    decreases s.len(),
{
    let t = s.update(i, b);
    if i == s.len() - 1 {
        assert(t.drop_last() =~= s.drop_last());
    } else {
        assert(t.drop_last() =~= s.drop_last().update(i, b));
        lemma_count_non_air_update(s.drop_last(), i, b);
    }
}

/// Counting over a prefix extended by one element.
pub proof fn lemma_count_non_air_take(s: Seq<BlockType>, i: int)
    requires
        0 <= i < s.len(),
    ensures
        count_non_air(s.take(i + 1)) == count_non_air(s.take(i)) + if s[i] != BlockType::Air {
            1nat
        } else {
            0nat
        },
{
    assert(s.take(i + 1).drop_last() =~= s.take(i));
}

/// The blocks of one chunk, indexed by `x + y * 32 + z * 1024`.
#[derive(Clone)]
pub struct ChunkBuffer {
    pub blocks: Vec<BlockType>,
}

impl ChunkBuffer {
    /// A buffer covers exactly one chunk.
    pub open spec fn wf(&self) -> bool {
        self.blocks@.len() == 32768
    }

    /// Whether every voxel is air.
    pub fn is_pure_air(&self) -> (r: bool)
        requires
            self.wf(),
        ensures
            r == (forall|i: int| 0 <= i < 32768 ==> self.blocks@[i] == BlockType::Air),
    {
        let mut i: usize = 0;
        while i < 32768
            invariant
                0 <= i <= 32768,
                self.wf(),
                forall|j: int| 0 <= j < i ==> self.blocks@[j] == BlockType::Air,
            decreases 32768 - i,
        {
            if self.blocks[i] != BlockType::Air {
                return false;
            }
            i = i + 1;
        }
        true
    }

    /// A copy of the buffer.
    pub fn copy(&self) -> (r: Self)
        ensures
            r.blocks@ == self.blocks@,
    {
        let r = ChunkBuffer { blocks: self.blocks.clone() };
        proof {
            assert(r.blocks@ =~= self.blocks@);
        }
        r
    }

    /// Number of voxels that are not air.
    pub fn non_air_count(&self) -> (r: u16)
        requires
            self.wf(),
        ensures
            r as nat == count_non_air(self.blocks@),
    {
        let mut count: u16 = 0;
        let mut i: usize = 0;
        while i < 32768
            invariant
                0 <= i <= 32768,
                self.wf(),
                count as nat == count_non_air(self.blocks@.take(i as int)),
            decreases 32768 - i,
        {
            proof {
                lemma_count_non_air_take(self.blocks@, i as int);
                lemma_count_non_air_bound(self.blocks@.take(i as int));
            }
            if self.blocks[i] != BlockType::Air {
                count = count + 1;
            }
            i = i + 1;
        }
        proof {
            assert(self.blocks@.take(32768) =~= self.blocks@);
        }
        count
    }
}

impl Default for ChunkBuffer {
    /// A chunk of air.
    fn default() -> (r: Self)
        ensures
            r.wf(),
            forall|i: int| 0 <= i < 32768 ==> r.blocks@[i] == BlockType::Air,
    {
        ChunkBuffer { blocks: vec![BlockType::Air; 32768] }
    }
}

// ---------------------------------------------------------------------------
// Run-length encoding of block buffers.

/// Block ids spelled out by a list of `(id, count)` runs.
pub open spec fn rle_expand(runs: Seq<(u8, u16)>) -> Seq<u8>
    decreases runs.len(),
{
    if runs.len() == 0 {
        Seq::empty()
    } else {
        rle_expand(runs.drop_last()) + Seq::new(runs.last().1 as nat, |k: int| runs.last().0)
    }
}

/// Total number of voxels covered by a list of runs.
pub open spec fn rle_total(runs: Seq<(u8, u16)>) -> nat
    decreases runs.len(),
{
    if runs.len() == 0 {
        0
    } else {
        rle_total(runs.drop_last()) + runs.last().1 as nat
    }
}

/// Runs are non-empty, and two neighbouring runs only repeat an id when the first run is
/// full.
pub open spec fn rle_maximal(runs: Seq<(u8, u16)>) -> bool {
    &&& forall|k: int| 0 <= k < runs.len() ==> #[trigger] runs[k].1 >= 1
    &&& forall|k: int|
        0 <= k < runs.len() - 1 ==> (#[trigger] runs[k]).0 != runs[k + 1].0 || runs[k].1 == u16::MAX
}

/// Ids of a sequence of blocks.
pub open spec fn block_ids(s: Seq<BlockType>) -> Seq<u8> {
    Seq::new(s.len(), |i: int| block_id(s[i]))
}

/// The block that a stored id is read back as: every block kind keeps its id, and an id that
/// names no block kind reads as air.
pub open spec fn stored_block(id: u8) -> BlockType {
    match id {
        1 => BlockType::Grass,
        2 => BlockType::Stone,
        3 => BlockType::Dirt,
        4 => BlockType::OakLog,
        5 => BlockType::OakLeaves,
        6 => BlockType::Sand,
        7 => BlockType::Gravel,
        8 => BlockType::CoalOre,
        9 => BlockType::IronOre,
        10 => BlockType::Glass,
        11 => BlockType::Torch,
        12 => BlockType::TorchWallN,
        13 => BlockType::TorchWallS,
        14 => BlockType::TorchWallE,
        15 => BlockType::TorchWallW,
        _ => BlockType::Air,
    }
}

/// Chunk read back from a list of runs that fits in one chunk: the runs in order, then air.
pub open spec fn rle_decoded(runs: Seq<(u8, u16)>) -> Seq<BlockType> {
    let e = rle_expand(runs);
    Seq::new(32768, |i: int| if i < e.len() { stored_block(e[i]) } else { BlockType::Air })
}

/// Why a list of runs cannot be read back as a chunk.
#[derive(Debug, Clone, Copy, PartialEq, Eq, Structural)]
pub enum RleError {
    /// The runs cover more voxels than a chunk holds.
    OutOfBounds,
}

proof fn lemma_expand_push(runs: Seq<(u8, u16)>, r: (u8, u16))
    ensures
        rle_expand(runs.push(r)) == rle_expand(runs) + Seq::new(r.1 as nat, |k: int| r.0),
        rle_total(runs.push(r)) == rle_total(runs) + r.1,
{
    assert(runs.push(r).drop_last() =~= runs);
}

proof fn lemma_expand_len(runs: Seq<(u8, u16)>)
    ensures
        rle_expand(runs).len() == rle_total(runs),
    decreases runs.len(),
{
    if runs.len() > 0 {
        lemma_expand_len(runs.drop_last());
    }
}

/// Encodes the blocks of a chunk as runs of equal ids, each at most `u16::MAX` long.
pub fn rle_encode(buffer: &ChunkBuffer) -> (runs: Vec<(u8, u16)>)
    requires
        buffer.wf(),
    ensures
        rle_expand(runs@) == block_ids(buffer.blocks@),
        rle_maximal(runs@),
{
    let mut rle_encoded: Vec<(u8, u16)> = Vec::new();
    let mut current_id = buffer.blocks[0].id();
    let mut current_run: u16 = 1;
    let ghost ids = block_ids(buffer.blocks@);
    let mut i: usize = 1;
    while i < 32768
        invariant
            1 <= i <= 32768,
            buffer.wf(),
            ids == block_ids(buffer.blocks@),
            current_run >= 1,
            rle_expand(rle_encoded@) + Seq::new(current_run as nat, |k: int| current_id) =~= ids.take(
                i as int,
            ),
            rle_maximal(rle_encoded@),
            rle_encoded@.len() > 0 ==> (rle_encoded@.last().0 != current_id || rle_encoded@.last().1
                == u16::MAX),
        decreases 32768 - i,
    {
        let id = buffer.blocks[i].id();
        let ghost before = rle_encoded@;
        let ghost run_before = current_run;
        let ghost id_before = current_id;
        if id == current_id && current_run < u16::MAX {
            current_run = current_run + 1;
            proof {
                assert(Seq::new(current_run as nat, |k: int| current_id) =~= Seq::new(
                    run_before as nat,
                    |k: int| current_id,
                ).push(id));
                assert(ids.take(i + 1) =~= ids.take(i as int).push(ids[i as int]));
            }
        } else {
            rle_encoded.push((current_id, current_run));
            current_id = id;
            current_run = 1;
            proof {
                lemma_expand_push(before, (id_before, run_before));
                assert(ids.take(i + 1) =~= ids.take(i as int).push(ids[i as int]));
                assert(Seq::new(1nat, |k: int| current_id) =~= seq![id]);
                assert forall|k: int| 0 <= k < rle_encoded@.len() - 1 implies (
                #[trigger] rle_encoded@[k]).0 != rle_encoded@[k + 1].0 || rle_encoded@[k].1 == u16::MAX by {
                    if k < before.len() - 1 {
                        assert(rle_encoded@[k] == before[k]);
                        assert(rle_encoded@[k + 1] == before[k + 1]);
                    } else {
                        assert(rle_encoded@[k] == before.last());
                    }
                }
            }
        }
        i = i + 1;
    }
    let ghost before = rle_encoded@;
    rle_encoded.push((current_id, current_run));
    proof {
        lemma_expand_push(before, (current_id, current_run));
        assert(ids.take(32768) =~= ids);
        assert forall|k: int| 0 <= k < rle_encoded@.len() - 1 implies (
        #[trigger] rle_encoded@[k]).0 != rle_encoded@[k + 1].0 || rle_encoded@[k].1 == u16::MAX by {
            if k < before.len() - 1 {
                assert(rle_encoded@[k] == before[k]);
                assert(rle_encoded@[k + 1] == before[k + 1]);
            } else {
                assert(rle_encoded@[k] == before.last());
            }
        }
    }
    rle_encoded
}

/// Reads a chunk back from a list of runs. Runs are laid down in order from the first voxel;
/// voxels past the last run stay air. Fails when the runs cover more than one chunk.
pub fn rle_decode(runs: &Vec<(u8, u16)>) -> (r: Result<ChunkBuffer, RleError>)
    ensures
        rle_total(runs@) > 32768 <==> r is Err,
        r matches Ok(buf) ==> buf.wf() && buf.blocks@ == rle_decoded(runs@),
        r matches Err(e) ==> e == RleError::OutOfBounds,
{
    let mut chunk_buffer = ChunkBuffer::default();
    let mut idx: usize = 0;
    let mut n: usize = 0;
    proof {
        lemma_expand_len(runs@);
    }
    while n < runs.len()
        invariant
            0 <= n <= runs@.len(),
            chunk_buffer.wf(),
            idx as nat == rle_total(runs@.take(n as int)),
            idx <= 32768,
            forall|i: int|
                0 <= i < 32768 ==> #[trigger] chunk_buffer.blocks@[i] == if i < idx {
                    stored_block(rle_expand(runs@.take(n as int))[i])
                } else {
                    BlockType::Air
                },
        decreases runs@.len() - n,
    {
        let (id, run) = runs[n];
        let block = BlockType::from_stored_id(id);
        let run_len = run as usize;
        let ghost pre = runs@.take(n as int);
        proof {
            assert(runs@.take(n + 1) =~= pre.push(runs@[n as int]));
            lemma_expand_push(pre, runs@[n as int]);
            lemma_expand_len(pre);
        }
        if idx + run_len <= 32768 {
            let mut k: usize = idx;
            while k < idx + run_len
                invariant
                    idx <= k <= idx + run_len <= 32768,
                    chunk_buffer.wf(),
                    forall|i: int|
                        0 <= i < 32768 ==> #[trigger] chunk_buffer.blocks@[i] == if i < idx {
                            stored_block(rle_expand(pre)[i])
                        } else if i < k {
                            block
                        } else {
                            BlockType::Air
                        },
                decreases idx + run_len - k,
            {
                chunk_buffer.blocks.set(k, block);
                k = k + 1;
            }
            idx = idx + run_len;
        } else {
            proof {
                lemma_total_prefix_mono(runs@, n as int + 1);
            }
            return Err(RleError::OutOfBounds);
        }
        n = n + 1;
    }
    proof {
        assert(runs@.take(runs@.len() as int) =~= runs@);
        assert(chunk_buffer.blocks@ =~= rle_decoded(runs@));
    }
    Ok(chunk_buffer)
}

/// The total of a prefix never exceeds the total of the whole list.
proof fn lemma_total_prefix_mono(runs: Seq<(u8, u16)>, n: int)
    requires
        0 <= n <= runs.len(),
    ensures
        rle_total(runs.take(n)) <= rle_total(runs),
    decreases runs.len() - n,
{
    if n < runs.len() {
        assert(runs.take(n + 1) =~= runs.take(n).push(runs[n]));
        lemma_expand_push(runs.take(n), runs[n]);
        lemma_total_prefix_mono(runs, n + 1);
    } else {
        assert(runs.take(n) =~= runs);
    }
}

impl BlockType {
    /// The block that a stored id is read back as.
    pub fn from_stored_id(id: u8) -> (r: BlockType)
        ensures
            r == stored_block(id),
    {
        match id {
            1 => BlockType::Grass,
            2 => BlockType::Stone,
            3 => BlockType::Dirt,
            4 => BlockType::OakLog,
            5 => BlockType::OakLeaves,
            6 => BlockType::Sand,
            7 => BlockType::Gravel,
            8 => BlockType::CoalOre,
            9 => BlockType::IronOre,
            10 => BlockType::Glass,
            11 => BlockType::Torch,
            12 => BlockType::TorchWallN,
            13 => BlockType::TorchWallS,
            14 => BlockType::TorchWallE,
            15 => BlockType::TorchWallW,
            _ => BlockType::Air,
        }
    }
}

/// A stored id reads back as the block it was taken from exactly when that block kind is
/// saved to disk; torches read back as air.
pub proof fn lemma_stored_block_of_id(b: BlockType)
    ensures
        stored_block(block_id(b)) == b,
{
}

/// Saving a chunk as runs and reading the runs back yields the same chunk, torches included.
pub proof fn law_rle_roundtrip(blocks: Seq<BlockType>, runs: Seq<(u8, u16)>)
    requires
        blocks.len() == 32768,
        rle_expand(runs) == block_ids(blocks),
    ensures
        rle_total(runs) == 32768,
        rle_decoded(runs) == blocks,
{
    lemma_expand_len(runs);
    assert forall|i: int| 0 <= i < 32768 implies #[trigger] rle_decoded(runs)[i] == blocks[i] by {
        lemma_stored_block_of_id(blocks[i]);
    }
    assert(rle_decoded(runs) =~= blocks);
}

// ---------------------------------------------------------------------------
// Light buffers.

/// Sky light level packed in the high nibble of a light byte.
pub open spec fn sky_of(d: u8) -> u8 {
    d >> 4u8
}

/// Per-voxel light bytes of one chunk: sky light in the high nibble, the low nibble is kept
/// for other light.
#[derive(Clone)]
pub struct ChunkLightBuffer {
    pub light_data: Vec<u8>,
}

impl ChunkLightBuffer {
    /// A light buffer covers exactly one chunk.
    pub open spec fn wf(&self) -> bool {
        self.light_data@.len() == 32768
    }

    /// Sky light levels of every voxel.
    pub open spec fn sky(&self) -> Seq<u8> {
        Seq::new(self.light_data@.len(), |i: int| sky_of(self.light_data@[i]))
    }

    /// A copy of the buffer.
    pub fn copy(&self) -> (r: Self)
        ensures
            r.light_data@ == self.light_data@,
    {
        let r = ChunkLightBuffer { light_data: self.light_data.clone() };
        proof {
            assert(r.light_data@ =~= self.light_data@);
        }
        r
    }

    /// Sky light of voxel `idx`.
    pub fn get_sky_light(&self, idx: usize) -> (r: u8)
        requires
            idx < self.light_data@.len(),
        ensures
            r == sky_of(self.light_data@[idx as int]),
            r <= 15,
    {
        let d = self.light_data[idx];
        proof {
            assert((d >> 4u8) & 0x0Fu8 == d >> 4u8) by (bit_vector);
            assert(d >> 4u8 <= 15) by (bit_vector);
        }
        (d >> 4) & 0x0F
    }

    /// Sets the sky light of voxel `idx` to the low four bits of `value`, keeping the low
    /// nibble of the voxel's light byte.
    pub fn set_sky_light(&mut self, idx: usize, value: u8)
        requires
            idx < old(self).light_data@.len(),
        ensures
            final(self).light_data@.len() == old(self).light_data@.len(),
            sky_of(final(self).light_data@[idx as int]) == value & 0x0Fu8,
            final(self).light_data@[idx as int] & 0x0Fu8 == old(self).light_data@[idx as int] & 0x0Fu8,
            forall|j: int|
                0 <= j < old(self).light_data@.len() && j != idx ==> final(self).light_data@[j]
                    == old(self).light_data@[j],
    {
        let d = self.light_data[idx];
        let nd = (d & 0x0F) | ((value & 0x0F) << 4);
        proof {
            assert(((d & 0x0Fu8) | ((value & 0x0Fu8) << 4u8)) >> 4u8 == value & 0x0Fu8) by (bit_vector);
            assert(((d & 0x0Fu8) | ((value & 0x0Fu8) << 4u8)) & 0x0Fu8 == d & 0x0Fu8) by (bit_vector);
        }
        self.light_data.set(idx, nd);
    }
}

impl Default for ChunkLightBuffer {
    /// A light buffer that is dark everywhere.
    fn default() -> (r: Self)
        ensures
            r.wf(),
            forall|i: int| 0 <= i < 32768 ==> r.light_data@[i] == 0u8,
    {
        ChunkLightBuffer { light_data: vec![0u8; 32768] }
    }
}

/// Reading the sky light of a voxel gives back the level last written there (its low four
/// bits), and other voxels keep theirs.
pub proof fn law_sky_light_read_after_write(before: Seq<u8>, after: Seq<u8>, idx: int, value: u8)
    requires
        0 <= idx < before.len(),
        after.len() == before.len(),
        sky_of(after[idx]) == value & 0x0Fu8,
        forall|j: int| 0 <= j < before.len() && j != idx ==> after[j] == before[j],
    ensures
        sky_of(after[idx]) == value & 0x0Fu8,
        forall|j: int| 0 <= j < before.len() && j != idx ==> sky_of(after[j]) == sky_of(before[j]),
{
}

// ---------------------------------------------------------------------------
// Chunks.

/// A chunk as saved to disk: its blocks and, when it holds fluid, one fluid byte per voxel.
pub struct ChunkData {
    pub buffer: ChunkBuffer,
    pub fluid_buffer: Option<Vec<u8>>,
}

/// Whether every byte of a buffer is zero.
pub fn all_zero(v: &Vec<u8>) -> (r: bool)
    ensures
        r == (forall|j: int| 0 <= j < v@.len() ==> v@[j] == 0u8),
{
    let mut i: usize = 0;
    while i < v.len()
        invariant
            0 <= i <= v@.len(),
            forall|j: int| 0 <= j < i ==> v@[j] == 0u8,
        decreases v@.len() - i,
    {
        if v[i] != 0 {
            return false;
        }
        i = i + 1;
    }
    true
}

/// What saving a chunk does with its file: a chunk with nothing in it (only air and no fluid)
/// has its file removed, so that empty space never fills the disk; any other chunk is written.
#[derive(Debug, Clone, Copy, PartialEq, Eq, Structural)]
pub enum SaveAction {
    Write,
    RemoveFile,
}

impl ChunkData {
    /// What saving this chunk does: its file is removed when it holds only air and no fluid at
    /// all, so a chunk of air with water in it keeps its save; otherwise it is written.
    pub fn save_action(&self) -> (r: SaveAction)
        requires
            self.buffer.wf(),
        ensures
            r == if (forall|i: int| 0 <= i < 32768 ==> self.buffer.blocks@[i] == BlockType::Air) && match self.fluid_buffer {
                None => true,
                Some(f) => forall|i: int| 0 <= i < f@.len() ==> f@[i] == 0u8,
            } {
                SaveAction::RemoveFile
            } else {
                SaveAction::Write
            },
    {
        if self.buffer.is_pure_air() && self.is_fluid_pure_vacuum() {
            SaveAction::RemoveFile
        } else {
            SaveAction::Write
        }
    }

    /// Whether the chunk holds no fluid at all.
    pub fn is_fluid_pure_vacuum(&self) -> (r: bool)
        ensures
            r == match self.fluid_buffer {
                None => true,
                Some(f) => forall|i: int| 0 <= i < f@.len() ==> f@[i] == 0u8,
            },
    {
        match &self.fluid_buffer {
            None => true,
            Some(f) => all_zero(f),
        }
    }
}

/// A loaded chunk: its position in chunk coordinates, blocks, light, whether its mesh must be
/// rebuilt, whether it differs from what was saved, and how many of its voxels are not air.
pub struct Chunk {
    pub position: IVec3,
    pub buffer: ChunkBuffer,
    pub light_buffer: ChunkLightBuffer,
    pub is_dirty: bool,
    pub is_modified: bool,
    pub non_air_count: u16,
}

impl Chunk {
    /// Buffers cover one chunk and the non-air counter matches the blocks.
    pub open spec fn wf(&self) -> bool {
        &&& self.buffer.wf()
        &&& self.light_buffer.wf()
        &&& self.non_air_count as nat == count_non_air(self.buffer.blocks@)
    }

    /// An all-air, unlit chunk at `position` that still needs a mesh.
    pub fn new(position: IVec3) -> (r: Self)
        ensures
            r.wf(),
            r.position == position,
            forall|i: int| 0 <= i < 32768 ==> r.buffer.blocks@[i] == BlockType::Air,
            forall|i: int| 0 <= i < 32768 ==> r.light_buffer.light_data@[i] == 0u8,
            r.is_dirty,
            !r.is_modified,
            r.non_air_count == 0,
    {
        let buffer = ChunkBuffer::default();
        proof {
            lemma_count_non_air_bound(buffer.blocks@);
        }
        Self {
            position,
            buffer,
            light_buffer: ChunkLightBuffer::default(),
            is_dirty: true,
            is_modified: false,
            non_air_count: 0,
        }
    }

    /// The block at a local coordinate; air outside the chunk.
    pub fn get_block(&self, x: usize, y: usize, z: usize) -> (r: BlockType)
        requires
            self.buffer.wf(),
        ensures
            r == if local_in_bounds(x as int, y as int, z as int) {
                self.buffer.blocks@[voxel_index(x as int, y as int, z as int)]
            } else {
                BlockType::Air
            },
    {
        if in_bounds(x, y, z) {
            let idx = x + y * 32 + z * 1024;
            self.buffer.blocks[idx]
        } else {
            BlockType::Air
        }
    }

    /// Writes a block at a local coordinate, keeping the non-air counter in step and marking
    /// the chunk dirty and modified; coordinates outside the chunk are ignored.
    pub fn set_block(&mut self, x: usize, y: usize, z: usize, block: BlockType)
        requires
            old(self).wf(),
        ensures
            final(self).wf(),
            final(self).position == old(self).position,
            final(self).light_buffer == old(self).light_buffer,
            local_in_bounds(x as int, y as int, z as int) ==> {
                &&& final(self).buffer.blocks@ == old(self).buffer.blocks@.update(
                    voxel_index(x as int, y as int, z as int),
                    block,
                )
                &&& final(self).is_dirty
                &&& final(self).is_modified
            },
            !local_in_bounds(x as int, y as int, z as int) ==> *final(self) == *old(self),
    {
        if in_bounds(x, y, z) {
            let idx = x + y * 32 + z * 1024;
            let old_block = self.buffer.blocks[idx];
            proof {
                lemma_count_non_air_update(self.buffer.blocks@, idx as int, block);
                lemma_count_non_air_bound(self.buffer.blocks@.update(idx as int, block));
                lemma_count_non_air_bound(self.buffer.blocks@);
            }
            if old_block == BlockType::Air && block != BlockType::Air {
                self.non_air_count = self.non_air_count + 1;
            } else if old_block != BlockType::Air && block == BlockType::Air {
                self.non_air_count = self.non_air_count - 1;
            }
            self.buffer.blocks.set(idx, block);
            self.is_dirty = true;
            self.is_modified = true;
        }
    }

    /// Whether the chunk holds nothing but air.
    pub fn is_pure_air(&self) -> (r: bool)
        requires
            self.wf(),
        ensures
            r == (forall|i: int| 0 <= i < 32768 ==> self.buffer.blocks@[i] == BlockType::Air),
    {
        proof {
            lemma_count_non_air_bound(self.buffer.blocks@);
        }
        self.non_air_count == 0
    }
}


/// Reading a chunk back after `Chunk::set_block` wrote `block` at `(x, y, z)`: that voxel reads
/// as the block written and every other voxel of the chunk reads as before.
pub proof fn law_chunk_block_read_after_write(
    blocks: Seq<BlockType>,
    x: int,
    y: int,
    z: int,
    block: BlockType,
    qx: int,
    qy: int,
    qz: int,
)
    requires
        blocks.len() == 32768,
        local_in_bounds(x, y, z),
        local_in_bounds(qx, qy, qz),
    ensures
        blocks.update(voxel_index(x, y, z), block)[voxel_index(qx, qy, qz)] == if qx == x && qy == y && qz
            == z {
            block
        } else {
            blocks[voxel_index(qx, qy, qz)]
        },
{
    crate::math::lemma_index_in_volume(x, y, z);
    crate::math::lemma_index_in_volume(qx, qy, qz);
    if voxel_index(x, y, z) == voxel_index(qx, qy, qz) {
        crate::math::lemma_index_injective(x, y, z, qx, qy, qz);
    }
}

} // verus!
