use cavegame::chunk::ChunkBuffer;
use cavegame::fluid::{fluid_target, get_distance_to_drop, wake_up_fluids_in_radius};
use cavegame::generator::{fill_hill_columns, generate, plant_tree, TreeSite};
use cavegame::chunk::Chunk;
use cavegame::math::IVec3;
use cavegame::voxel::BlockType;
use cavegame::world::{chunk_key_of, chunk_pos_of_key, WorldManager, WorldType};

#[test]
fn world_position_splits_into_chunk_and_local() {
    let (c, l) = WorldManager::global_to_chunk_pos(IVec3::new(-1, 33, 64));
    assert_eq!(c, IVec3::new(-1, 1, 2));
    assert_eq!(l, IVec3::new(31, 1, 0));
    let (c, l) = WorldManager::global_to_chunk_pos(IVec3::new(-33, 0, 31));
    assert_eq!(c, IVec3::new(-2, 0, 0));
    assert_eq!(l, IVec3::new(31, 0, 31));
}

#[test]
fn chunk_keys_round_trip() {
    for p in [IVec3::new(0, 0, 0), IVec3::new(-5, 7, 123456), IVec3::new(i32::MIN, i32::MAX, -1)] {
        assert_eq!(chunk_pos_of_key(chunk_key_of(p)), p);
    }
    assert_ne!(chunk_key_of(IVec3::new(1, 0, 0)), chunk_key_of(IVec3::new(0, 1, 0)));
}

#[test]
fn default_world_is_empty_hills() {
    let w = WorldManager::default();
    assert_eq!(w.chunk_data_count(), 0);
    assert_eq!(w.world_type, WorldType::PerlinHills);
    assert_eq!(w.seed, 12345);
}

#[test]
fn unloaded_world_reads_rock_below_sixty_four() {
    let w = WorldManager::default();
    assert_eq!(w.get_block_global(IVec3::new(3, 10, 3)), BlockType::Stone);
    assert_eq!(w.get_block_global(IVec3::new(3, 63, 3)), BlockType::Stone);
    assert_eq!(w.get_block_global(IVec3::new(3, 64, 3)), BlockType::Air);
    assert_eq!(w.get_block_global(IVec3::new(3, -1, 3)), BlockType::Air);
    assert_eq!(w.get_block_global(IVec3::new(3, 256, 3)), BlockType::Air);
    assert_eq!(w.get_fluid_global(IVec3::new(3, 100, 3)), 0);
}

#[test]
fn set_block_global_then_read_back() {
    let mut w = WorldManager::default();
    let spawn = w.set_block_global(IVec3::new(5, 100, 5), BlockType::Stone, 80);
    assert_eq!(spawn, Some(IVec3::new(0, 3, 0)));
    assert_eq!(w.get_block_global(IVec3::new(5, 100, 5)), BlockType::Stone);
    assert_eq!(w.get_block_global(IVec3::new(5, 101, 5)), BlockType::Air);
    assert_eq!(w.chunk_data_count(), 1);
    assert!(w.is_chunk_lighting_ready(IVec3::new(0, 3, 0)));
    assert_eq!(w.get_light_global(IVec3::new(5, 100, 5)), 0);
    let (old, spawn) = w.break_block(IVec3::new(5, 100, 5), 80);
    assert_eq!(old, BlockType::Stone);
    assert_eq!(spawn, None);
    assert_eq!(w.get_block_global(IVec3::new(5, 100, 5)), BlockType::Air);
}

#[test]
fn removing_air_where_nothing_is_loaded_changes_nothing() {
    let mut w = WorldManager::default();
    assert_eq!(w.set_block_global(IVec3::new(5, 10, 5), BlockType::Air, 80), None);
    assert_eq!(w.chunk_data_count(), 0);
    assert_eq!(w.get_block_global(IVec3::new(5, 10, 5)), BlockType::Stone);
    assert_eq!(w.set_block_global(IVec3::new(5, 300, 5), BlockType::Stone, 80), None);
    assert_eq!(w.chunk_data_count(), 0);
}

#[test]
fn fluid_read_after_write() {
    let mut w = WorldManager::default();
    w.set_block_global(IVec3::new(1, 70, 1), BlockType::Glass, 80);
    w.set_fluid_global(IVec3::new(2, 70, 1), 0x88);
    assert_eq!(w.get_fluid_global(IVec3::new(2, 70, 1)), 0x88);
    assert_eq!(w.get_fluid_global(IVec3::new(3, 70, 1)), 0);
    assert!(w.any_fluid_in_box(IVec3::new(0, 69, 0), IVec3::new(3, 72, 3)));
    assert!(!w.any_fluid_in_box(IVec3::new(3, 69, 0), IVec3::new(6, 72, 3)));
    assert!(!w.any_fluid_in_box(IVec3::new(3, 69, 0), IVec3::new(0, 72, 3)));
}

#[test]
fn solid_blocks_in_a_box() {
    let w = WorldManager::default();
    let hits = w.solid_blocks_in_box(IVec3::new(0, 62, 0), IVec3::new(2, 66, 1));
    assert_eq!(hits.len(), 4);
    for p in [IVec3::new(0, 62, 0), IVec3::new(0, 63, 0), IVec3::new(1, 62, 0), IVec3::new(1, 63, 0)] {
        assert!(hits.contains(&p));
    }
    assert!(w.solid_blocks_in_box(IVec3::new(0, 70, 0), IVec3::new(4, 80, 4)).is_empty());
}

#[test]
fn spawn_lands_on_highest_solid_block() {
    let mut w = WorldManager::default();
    assert_eq!(w.spawn_surface(5, 5), None);
    w.set_block_global(IVec3::new(5, 100, 5), BlockType::Stone, 80);
    assert_eq!(w.spawn_surface(5, 5), Some(101));
    assert_eq!(w.spawn_surface(6, 5), Some(64));
    assert_eq!(w.spawn_surface(40, 5), None);
}

#[test]
fn drop_distance_along_a_direction() {
    let w = WorldManager::default();
    assert_eq!(get_distance_to_drop(&w, IVec3::new(0, 64, 0), IVec3::new(1, 0, 0)), 999);
    assert_eq!(get_distance_to_drop(&w, IVec3::new(0, 70, 0), IVec3::new(1, 0, 0)), 1);
    assert_eq!(get_distance_to_drop(&w, IVec3::new(0, 63, 0), IVec3::new(1, 0, 0)), 999);
}

#[test]
fn fluid_wakes_the_box_around_a_change() {
    let mut w = WorldManager::default();
    wake_up_fluids_in_radius(&mut w, IVec3::new(0, 100, 0));
    assert_eq!(w.fluid_queue.len(), 243);
    let mut w = WorldManager::default();
    wake_up_fluids_in_radius(&mut w, IVec3::new(0, 10, 0));
    assert_eq!(w.fluid_queue.len(), 0);
}

#[test]
fn source_keeps_its_level_and_dry_air_stays_dry() {
    let mut w = WorldManager::default();
    w.set_fluid_global(IVec3::new(0, 64, 0), 0x88);
    assert_eq!(fluid_target(&w, IVec3::new(0, 64, 0)), 0x88);
    assert_eq!(fluid_target(&w, IVec3::new(10, 64, 10)), 0);
}

#[test]
fn flat_world_layers() {
    let mut chunk = Chunk::new(IVec3::new(0, 0, 0));
    generate(&mut chunk);
    assert_eq!(chunk.get_block(3, 0, 3), BlockType::Stone);
    assert_eq!(chunk.get_block(3, 3, 3), BlockType::Stone);
    assert_eq!(chunk.get_block(3, 4, 3), BlockType::Grass);
    assert_eq!(chunk.get_block(3, 5, 3), BlockType::Air);
    assert_eq!(chunk.non_air_count, 5 * 1024);
}

#[test]
fn hill_columns_follow_surface() {
    let mut chunk = Chunk::new(IVec3::new(0, 0, 0));
    let mut heights = vec![20i32; 1024];
    heights[1 + 2 * 32] = 10;
    fill_hill_columns(&mut chunk, IVec3::new(0, 0, 0), &heights);
    assert_eq!(chunk.get_block(0, 20, 0), BlockType::Grass);
    assert_eq!(chunk.get_block(0, 19, 0), BlockType::Dirt);
    assert_eq!(chunk.get_block(0, 17, 0), BlockType::Dirt);
    assert_eq!(chunk.get_block(0, 16, 0), BlockType::Stone);
    assert_eq!(chunk.get_block(0, 21, 0), BlockType::Air);
    assert_eq!(chunk.get_block(1, 10, 2), BlockType::Grass);
    assert_eq!(chunk.get_block(1, 11, 2), BlockType::Air);
    let mut upper = Chunk::new(IVec3::new(0, 1, 0));
    fill_hill_columns(&mut upper, IVec3::new(0, 1, 0), &heights);
    assert!(upper.is_pure_air());
    let _ = ChunkBuffer::default();
}

#[test]
fn water_source_spreads_one_level_down_per_step() {
    let mut w = WorldManager::default();
    w.set_block_global(IVec3::new(5, 70, 5), BlockType::Stone, 80);
    w.toggle_fluid_source(IVec3::new(5, 71, 5));
    assert_eq!(w.get_fluid_global(IVec3::new(5, 71, 5)), 0x88);
    assert_eq!(w.fluid_queue.len(), 7);
    w.fluid_tick();
    assert_eq!(w.get_fluid_global(IVec3::new(5, 71, 5)), 0x88);
    assert_eq!(w.get_fluid_global(IVec3::new(6, 71, 5)), 7);
    assert_eq!(w.get_fluid_global(IVec3::new(4, 71, 5)), 7);
    assert_eq!(w.get_fluid_global(IVec3::new(5, 71, 6)), 7);
    assert_eq!(w.get_fluid_global(IVec3::new(5, 71, 4)), 7);
    assert_eq!(w.get_fluid_global(IVec3::new(5, 72, 5)), 0);
    assert!(!w.fluid_queue.is_empty());
    w.toggle_fluid_source(IVec3::new(5, 71, 5));
    assert_eq!(w.get_fluid_global(IVec3::new(5, 71, 5)), 0);
}

#[test]
fn tree_from_a_neighbouring_column_reaches_across_the_border() {
    let mut buffer = ChunkBuffer::default();
    plant_tree(&mut buffer, IVec3::new(0, 0, 0), TreeSite { bx: -2, bz: 5, gy: 10, hash: 0 });
    let at = |x: usize, y: usize, z: usize| buffer.blocks[x + y * 32 + z * 1024];
    assert_eq!(at(0, 13, 5), BlockType::OakLeaves);
    assert_eq!(at(0, 14, 3), BlockType::OakLeaves);
    assert_eq!(at(0, 15, 5), BlockType::OakLeaves);
    assert_eq!(at(0, 15, 3), BlockType::Air);
    assert_eq!(at(1, 13, 5), BlockType::Air);
    assert_eq!(at(0, 12, 5), BlockType::Air);
    assert_eq!(at(0, 16, 5), BlockType::Air);
    let mut trunk = ChunkBuffer::default();
    plant_tree(&mut trunk, IVec3::new(0, 0, 0), TreeSite { bx: 3, bz: 3, gy: 10, hash: 2 });
    assert_eq!(trunk.blocks[3 + 11 * 32 + 3 * 1024], BlockType::OakLog);
    assert_eq!(trunk.blocks[3 + 16 * 32 + 3 * 1024], BlockType::OakLog);
    assert_eq!(trunk.blocks[3 + 17 * 32 + 3 * 1024], BlockType::OakLeaves);
    assert_eq!(trunk.blocks[3 + 10 * 32 + 3 * 1024], BlockType::Air);
}

#[test]
fn light_and_fluid_edits_queue_remeshing() {
    let mut w = WorldManager::default();
    w.set_block_global(IVec3::new(40, 100, 5), BlockType::Glass, 80);
    w.set_block_global(IVec3::new(5, 100, 5), BlockType::Glass, 80);
    let _ = w.drain_dirty_chunks();
    w.set_light_global(IVec3::new(31, 100, 5), 9);
    assert_eq!(w.get_light_global(IVec3::new(31, 100, 5)), 9);
    let dirty = w.drain_dirty_chunks();
    assert_eq!(dirty.len(), 2);
    assert!(dirty.contains(&IVec3::new(0, 3, 0)) && dirty.contains(&IVec3::new(1, 3, 0)));
    w.set_light_global(IVec3::new(5, 200, 5), 9);
    assert!(w.drain_dirty_chunks().is_empty());
    w.set_fluid_global(IVec3::new(5, 150, 5), 3);
    let dirty = w.drain_dirty_chunks();
    assert_eq!(dirty, vec![IVec3::new(0, 4, 0)]);
    assert!(w.get_chunk_ref(cavegame::math::IVec3::new(0, 4, 0)).unwrap().is_modified);
}

#[test]
fn fluid_tick_queues_what_it_wakes() {
    let mut w = WorldManager::default();
    w.set_block_global(IVec3::new(5, 70, 5), BlockType::Stone, 80);
    w.toggle_fluid_source(IVec3::new(5, 71, 5));
    w.fluid_tick();
    let q: Vec<IVec3> = w.fluid_queue.iter().copied().collect();
    assert!(q.contains(&IVec3::new(7, 71, 5)));
    assert!(q.contains(&IVec3::new(6, 70, 5)));
    for i in 0..q.len() {
        for j in 0..i {
            assert_ne!(q[i], q[j]);
        }
    }
}

#[test]
fn revived_chunk_above_ground_is_fully_lit() {
    let mut w = WorldManager::default();
    w.set_block_global(IVec3::new(5, 100, 5), BlockType::Stone, 80);
    assert_eq!(w.get_light_global(IVec3::new(5, 100, 5)), 0);
    assert_eq!(w.get_light_global(IVec3::new(5, 99, 5)), 15);
    assert_eq!(w.get_light_global(IVec3::new(6, 100, 5)), 15);
    assert_eq!(w.get_light_global(IVec3::new(31, 96, 31)), 15);
    assert_eq!(w.get_light_global(IVec3::new(0, 127, 0)), 15);
}

#[test]
fn revived_chunk_below_ground_stays_dark() {
    let mut w = WorldManager::default();
    w.set_block_global(IVec3::new(5, 20, 5), BlockType::Glass, 80);
    assert_eq!(w.get_block_global(IVec3::new(6, 20, 5)), BlockType::Stone);
    assert_eq!(w.get_light_global(IVec3::new(6, 20, 5)), 0);
    assert_eq!(w.get_light_global(IVec3::new(5, 20, 5)), 0);
}

#[test]
fn fluid_tick_with_nothing_queued_changes_nothing() {
    let mut w = WorldManager::default();
    w.set_block_global(IVec3::new(5, 70, 5), BlockType::Stone, 80);
    let _ = w.drain_dirty_chunks();
    w.fluid_tick();
    assert!(w.drain_dirty_chunks().is_empty());
    assert_eq!(w.chunk_data_count(), 1);
    assert!(w.fluid_queue.is_empty());
    assert_eq!(w.get_light_global(IVec3::new(5, 71, 5)), 15);
}

#[test]
fn fluid_tick_queues_changed_chunks_for_meshing() {
    let mut w = WorldManager::default();
    w.set_block_global(IVec3::new(5, 70, 5), BlockType::Stone, 80);
    w.set_fluid_global(IVec3::new(6, 71, 5), 0x80 | 8);
    w.toggle_fluid_source(IVec3::new(5, 71, 5));
    let _ = w.drain_dirty_chunks();
    w.fluid_tick();
    assert_eq!(w.drain_dirty_chunks(), vec![IVec3::new(0, 2, 0)]);
    assert_eq!(w.get_light_global(IVec3::new(5, 71, 5)), 15);
}

#[test]
fn breaking_a_placed_block_restores_open_sky_light() {
    let mut w = WorldManager::default();
    w.set_block_global(IVec3::new(5, 100, 5), BlockType::Stone, 80);
    w.set_block_global(IVec3::new(6, 100, 5), BlockType::Stone, 80);
    assert_eq!(w.get_light_global(IVec3::new(6, 100, 5)), 0);
    assert_eq!(w.get_light_global(IVec3::new(7, 100, 5)), 15);
    let (old, _) = w.break_block(IVec3::new(6, 100, 5), 80);
    assert_eq!(old, BlockType::Stone);
    assert_eq!(w.get_light_global(IVec3::new(6, 100, 5)), 15);
    assert_eq!(w.get_light_global(IVec3::new(5, 100, 5)), 0);
}
