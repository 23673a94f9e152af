use vstd::prelude::*;

verus! {

/// Width of a chunk along each axis, in voxels.
pub const CHUNK_SIZE: i32 = 32;
/// Number of chunk layers stacked vertically in the world.
pub const WORLD_CHUNKS_Y: i32 = 8;
/// Height of the world in voxels.
pub const WORLD_MAX_Y: i32 = 256;
/// Number of voxels in a chunk.
pub const CHUNK_VOLUME: usize = 32768;

/// Flattened index of a local voxel coordinate: x varies fastest, then y, then z.
pub open spec fn voxel_index(x: int, y: int, z: int) -> int {
    x + y * 32 + z * 1024
}

/// Whether a local coordinate lies inside a chunk.
pub open spec fn local_in_bounds(x: int, y: int, z: int) -> bool {
    0 <= x < 32 && 0 <= y < 32 && 0 <= z < 32
}

/// Flattened index of a local voxel coordinate.
pub fn voxel_pos_to_index(x: usize, y: usize, z: usize) -> (r: usize)
    requires
        x + y * 32 + z * 1024 <= usize::MAX,
    ensures
        r == voxel_index(x as int, y as int, z as int),
{
    x + y * 32 + z * 1024
}

/// Whether a local voxel coordinate lies inside a chunk.
pub fn in_bounds(x: usize, y: usize, z: usize) -> (r: bool)
    ensures
        r == local_in_bounds(x as int, y as int, z as int),
{
    x < 32 && y < 32 && z < 32
}

/// An inclusive-exclusive lower bound check that the index of an in-bounds voxel stays
/// inside the chunk volume.
pub proof fn lemma_index_in_volume(x: int, y: int, z: int)
    requires
        local_in_bounds(x, y, z),
    ensures
        0 <= voxel_index(x, y, z) < 32768,
{
}

/// The flattened index determines the coordinate it came from.
pub proof fn lemma_index_injective(x1: int, y1: int, z1: int, x2: int, y2: int, z2: int)
    requires
        local_in_bounds(x1, y1, z1),
        local_in_bounds(x2, y2, z2),
        voxel_index(x1, y1, z1) == voxel_index(x2, y2, z2),
    ensures
        x1 == x2 && y1 == y2 && z1 == z2,
{
}

/// A three-component integer vector, used for global voxel and chunk coordinates.
#[derive(Clone, Copy, PartialEq, Eq, Debug, Hash, Structural)]
pub struct IVec3 {
    pub x: i32,
    pub y: i32,
    pub z: i32,
}

impl IVec3 {
    /// Builds a vector from its components.
    pub fn new(x: i32, y: i32, z: i32) -> (r: Self)
        ensures
            r.x == x && r.y == y && r.z == z,
    {
        IVec3 { x, y, z }
    }
}

} // verus!
