use cavegame::chunk::{ChunkBuffer, ChunkLightBuffer};
use cavegame::lighting::{init_sunlight, neighbor_index, propagate_sky_light};
use cavegame::math::{voxel_pos_to_index, IVec3};
use cavegame::voxel::BlockType;

#[test]
fn neighbours_stop_at_chunk_edges() {
    assert_eq!(neighbor_index(0, 0), None);
    assert_eq!(neighbor_index(0, 1), Some(1));
    assert_eq!(neighbor_index(0, 3), Some(32));
    assert_eq!(neighbor_index(0, 5), Some(1024));
    assert_eq!(neighbor_index(31, 1), None);
    assert_eq!(neighbor_index(32767, 5), None);
}

#[test]
fn sunlight_spreads_out_of_an_open_column() {
    let blocks = ChunkBuffer::default();
    let mut light = ChunkLightBuffer::default();
    let mut heights = vec![31i32; 1024];
    heights[0] = -1;
    init_sunlight(IVec3::new(0, 0, 0), &blocks, &mut light, &heights);
    assert_eq!(light.get_sky_light(voxel_pos_to_index(0, 5, 0)), 15);
    assert_eq!(light.get_sky_light(voxel_pos_to_index(1, 5, 0)), 0);
    propagate_sky_light(&blocks, &mut light);
    assert_eq!(light.get_sky_light(voxel_pos_to_index(0, 5, 0)), 15);
    assert_eq!(light.get_sky_light(voxel_pos_to_index(1, 5, 0)), 14);
    assert_eq!(light.get_sky_light(voxel_pos_to_index(5, 5, 5)), 5);
    assert_eq!(light.get_sky_light(voxel_pos_to_index(10, 3, 4)), 1);
    assert_eq!(light.get_sky_light(voxel_pos_to_index(10, 3, 5)), 0);
}

#[test]
fn solid_blocks_stay_dark() {
    let mut blocks = ChunkBuffer::default();
    blocks.blocks[voxel_pos_to_index(1, 5, 0)] = BlockType::Stone;
    let mut light = ChunkLightBuffer::default();
    let mut heights = vec![31i32; 1024];
    heights[0] = -1;
    init_sunlight(IVec3::new(0, 0, 0), &blocks, &mut light, &heights);
    propagate_sky_light(&blocks, &mut light);
    assert_eq!(light.get_sky_light(voxel_pos_to_index(1, 5, 0)), 0);
    assert_eq!(light.get_sky_light(voxel_pos_to_index(1, 6, 0)), 14);
}

#[test]
fn leaves_cast_a_shadow_on_the_air_below() {
    let mut blocks = ChunkBuffer::default();
    blocks.blocks[voxel_pos_to_index(3, 20, 3)] = BlockType::OakLeaves;
    let mut light = ChunkLightBuffer::default();
    let heights = vec![5i32; 1024];
    init_sunlight(IVec3::new(0, 0, 0), &blocks, &mut light, &heights);
    assert_eq!(light.get_sky_light(voxel_pos_to_index(3, 21, 3)), 15);
    assert_eq!(light.get_sky_light(voxel_pos_to_index(3, 20, 3)), 0);
    assert_eq!(light.get_sky_light(voxel_pos_to_index(3, 19, 3)), 0);
    assert_eq!(light.get_sky_light(voxel_pos_to_index(3, 6, 3)), 0);
    assert_eq!(light.get_sky_light(voxel_pos_to_index(4, 19, 3)), 15);
    assert_eq!(light.get_sky_light(voxel_pos_to_index(4, 5, 3)), 0);
    propagate_sky_light(&blocks, &mut light);
    assert_eq!(light.get_sky_light(voxel_pos_to_index(3, 19, 3)), 14);
}
