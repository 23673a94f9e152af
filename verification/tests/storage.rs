use cavegame::chunk::{rle_decode, rle_encode, Chunk, ChunkBuffer, ChunkData, ChunkLightBuffer, RleError};
use cavegame::math::{in_bounds, voxel_pos_to_index, IVec3};
use cavegame::palette::Palette;
use cavegame::voxel::BlockType;
use cavegame::chunk::SaveAction;

#[test]
fn voxel_index_layout() {
    assert_eq!(voxel_pos_to_index(0, 0, 0), 0);
    assert_eq!(voxel_pos_to_index(1, 0, 0), 1);
    assert_eq!(voxel_pos_to_index(0, 1, 0), 32);
    assert_eq!(voxel_pos_to_index(0, 0, 1), 1024);
    assert_eq!(voxel_pos_to_index(31, 31, 31), 32767);
    assert!(in_bounds(31, 0, 31));
    assert!(!in_bounds(32, 0, 0));
}

#[test]
fn palette_read_after_write() {
    let mut p = Palette::new();
    assert_eq!(p.get(100), BlockType::Air);
    p.set(100, BlockType::Stone);
    p.set(200, BlockType::Dirt);
    p.set(300, BlockType::Grass);
    assert_eq!(p.get(100), BlockType::Stone);
    assert_eq!(p.get(200), BlockType::Dirt);
    assert_eq!(p.get(300), BlockType::Grass);
    assert_eq!(p.get(101), BlockType::Air);
    assert_eq!(p.palette.len(), 4);
}

#[test]
fn palette_grows_to_every_block_type() {
    let mut p = Palette::new();
    for id in 0u8..16 {
        p.set(id as usize * 7, BlockType::from_id(id));
    }
    for id in 0u8..16 {
        assert_eq!(p.get(id as usize * 7), BlockType::from_id(id));
    }
    assert_eq!(p.bits_per_block, 4);
    assert_eq!(p.get(1), BlockType::Air);
}

#[test]
fn rle_of_empty_chunk_is_one_run() {
    let buffer = ChunkBuffer::default();
    let runs = rle_encode(&buffer);
    assert_eq!(runs, vec![(0u8, 32768u16)]);
    assert!(rle_decode(&runs).unwrap().is_pure_air());
}

#[test]
fn rle_round_trip() {
    let mut buffer = ChunkBuffer::default();
    buffer.blocks[5] = BlockType::Stone;
    buffer.blocks[6] = BlockType::Stone;
    buffer.blocks[32767] = BlockType::Glass;
    let runs = rle_encode(&buffer);
    assert_eq!(runs, vec![(0u8, 5u16), (2, 2), (0, 32760), (10, 1)]);
    let back = rle_decode(&runs).unwrap();
    assert_eq!(back.blocks, buffer.blocks);
}

#[test]
fn rle_decode_rejects_overlong_runs() {
    let runs = vec![(0u8, 30000u16), (2u8, 3000u16)];
    assert_eq!(rle_decode(&runs).err(), Some(RleError::OutOfBounds));
}

#[test]
fn rle_decode_fills_short_runs_with_air() {
    let runs = vec![(3u8, 2u16)];
    let back = rle_decode(&runs).unwrap();
    assert_eq!(back.blocks[0], BlockType::Dirt);
    assert_eq!(back.blocks[1], BlockType::Dirt);
    assert_eq!(back.blocks[2], BlockType::Air);
}

#[test]
fn chunk_set_block_counts_non_air() {
    let mut chunk = Chunk::new(IVec3::new(0, 0, 0));
    assert!(chunk.is_pure_air());
    chunk.set_block(1, 2, 3, BlockType::Stone);
    assert_eq!(chunk.get_block(1, 2, 3), BlockType::Stone);
    assert_eq!(chunk.non_air_count, 1);
    assert!(!chunk.is_pure_air());
    chunk.set_block(1, 2, 3, BlockType::Air);
    assert_eq!(chunk.non_air_count, 0);
    assert!(chunk.is_pure_air());
    chunk.set_block(40, 0, 0, BlockType::Stone);
    assert_eq!(chunk.get_block(40, 0, 0), BlockType::Air);
    assert_eq!(chunk.non_air_count, 0);
}

#[test]
fn sky_light_nibbles() {
    let mut light = ChunkLightBuffer::default();
    assert_eq!(light.get_sky_light(7), 0);
    light.set_sky_light(7, 12);
    assert_eq!(light.get_sky_light(7), 12);
    assert_eq!(light.get_sky_light(8), 0);
}

#[test]
fn fluid_vacuum_detection() {
    let data = ChunkData { buffer: ChunkBuffer::default(), fluid_buffer: None };
    assert!(data.is_fluid_pure_vacuum());
    let data = ChunkData { buffer: ChunkBuffer::default(), fluid_buffer: Some(vec![0u8; 32768]) };
    assert!(data.is_fluid_pure_vacuum());
    let mut fluid = vec![0u8; 32768];
    fluid[9] = 3;
    let data = ChunkData { buffer: ChunkBuffer::default(), fluid_buffer: Some(fluid) };
    assert!(!data.is_fluid_pure_vacuum());
}

#[test]
fn palette_widens_only_as_needed() {
    let mut p = Palette::new();
    p.set(0, BlockType::Stone);
    assert_eq!(p.bits_per_block, 1);
    p.set(1, BlockType::Dirt);
    assert_eq!(p.palette, vec![BlockType::Air, BlockType::Stone, BlockType::Dirt]);
    assert_eq!(p.bits_per_block, 2);
    assert_eq!(p.mask, 3);
    assert_eq!(p.data.len(), 1024);
    assert_eq!(p.get(0), BlockType::Stone);
    assert_eq!(p.get(1), BlockType::Dirt);
    assert_eq!(p.get(2), BlockType::Air);
    assert_eq!(p.get(32767), BlockType::Air);
    p.set(2, BlockType::Stone);
    assert_eq!(p.bits_per_block, 2);
}

#[test]
fn torches_survive_a_save() {
    let mut buffer = ChunkBuffer::default();
    buffer.blocks[10] = BlockType::Torch;
    buffer.blocks[11] = BlockType::TorchWallE;
    let back = rle_decode(&rle_encode(&buffer)).unwrap();
    assert_eq!(back.blocks[10], BlockType::Torch);
    assert_eq!(back.blocks[11], BlockType::TorchWallE);
}

#[test]
fn empty_chunks_lose_their_save_but_water_keeps_it() {
    let data = ChunkData { buffer: ChunkBuffer::default(), fluid_buffer: None };
    assert_eq!(data.save_action(), SaveAction::RemoveFile);
    let mut fluid = vec![0u8; 32768];
    fluid[3] = 0x88;
    let data = ChunkData { buffer: ChunkBuffer::default(), fluid_buffer: Some(fluid) };
    assert_eq!(data.save_action(), SaveAction::Write);
    let mut buffer = ChunkBuffer::default();
    buffer.blocks[0] = BlockType::Stone;
    let data = ChunkData { buffer, fluid_buffer: None };
    assert_eq!(data.save_action(), SaveAction::Write);
}
