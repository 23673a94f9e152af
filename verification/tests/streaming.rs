use cavegame::math::IVec3;
use cavegame::streaming::select_nearest;
use cavegame::world::{chunk_key_of, WorldManager};

#[test]
fn nearest_columns_load_first() {
    let mut w = WorldManager::default();
    let first = w.plan_chunk_loads(IVec3::new(0, 0, 0), 1);
    assert_eq!(first, vec![IVec3::new(0, 0, 0), IVec3::new(0, 1, 0), IVec3::new(0, 2, 0), IVec3::new(0, 3, 0)]);
    for p in &first {
        assert!(w.loading_chunks.contains(&chunk_key_of(*p)));
        assert!(w.is_known_chunk(*p));
    }
    let second = w.plan_chunk_loads(IVec3::new(0, 0, 0), 1);
    assert_eq!(second, vec![IVec3::new(0, 4, 0), IVec3::new(0, 5, 0), IVec3::new(0, 6, 0), IVec3::new(0, 7, 0)]);
    assert_eq!(w.chunk_load_candidates(IVec3::new(0, 0, 0), 1).len(), 72 - 8);
}

#[test]
fn select_nearest_keeps_ties_in_order() {
    let center = IVec3::new(0, 0, 0);
    let cands = vec![
        IVec3::new(2, 0, 0),
        IVec3::new(0, 0, 1),
        IVec3::new(1, 0, 0),
        IVec3::new(0, 3, 0),
        IVec3::new(0, 1, 0),
    ];
    let r = select_nearest(center, &cands, 3);
    assert_eq!(r, vec![IVec3::new(0, 1, 0), IVec3::new(0, 3, 0), IVec3::new(0, 0, 1)]);
    let all = select_nearest(center, &cands, 10);
    assert_eq!(all.len(), 5);
    assert_eq!(all[4], IVec3::new(2, 0, 0));
    assert!(select_nearest(center, &cands, 0).is_empty());
}

#[test]
fn far_chunks_are_unloaded() {
    let mut w = WorldManager::default();
    w.set_block_global(IVec3::new(5, 100, 5), cavegame::voxel::BlockType::Stone, 80);
    w.set_block_global(IVec3::new(5 + 32 * 10, 100, 5), cavegame::voxel::BlockType::Stone, 80);
    let far = w.far_chunks(IVec3::new(0, 0, 0), 4);
    assert_eq!(far, vec![IVec3::new(10, 3, 0)]);
    let entry = w.unload_chunk(IVec3::new(10, 3, 0));
    assert!(entry.is_some());
    assert_eq!(w.chunk_data_count(), 1);
}

#[test]
fn unloading_saves_only_modified_chunks() {
    let mut w = WorldManager::default();
    w.set_block_global(IVec3::new(5, 100, 5), cavegame::voxel::BlockType::Stone, 80);
    let entry = w.unload_chunk(IVec3::new(0, 3, 0)).unwrap();
    let (save, entity) = entry.into_unload_parts();
    let data = save.unwrap();
    assert_eq!(data.buffer.blocks[5 + 4 * 32 + 5 * 1024], cavegame::voxel::BlockType::Stone);
    assert_eq!(entity, None);
    let mut w = WorldManager::default();
    w.set_block_global(IVec3::new(5, 100, 5), cavegame::voxel::BlockType::Stone, 80);
    let mut entry = w.unload_chunk(IVec3::new(0, 3, 0)).unwrap();
    entry.is_modified = false;
    entry.entity = Some(7);
    let (save, entity) = entry.into_unload_parts();
    assert!(save.is_none());
    assert_eq!(entity, Some(7));
}

#[test]
fn mesh_uploads_stop_at_the_frame_budget() {
    let mut budget = cavegame::mesh_plan::UploadBudget::new(2);
    assert!(budget.has_room());
    budget.record_upload();
    assert!(budget.has_room());
    budget.record_upload();
    assert!(!budget.has_room());
    assert!(!cavegame::mesh_plan::UploadBudget::new(0).has_room());
}

#[test]
fn abandoned_load_is_no_longer_tracked() {
    let mut w = WorldManager::default();
    let planned = w.plan_chunk_loads(IVec3::new(0, 0, 0), 2);
    assert!(!planned.is_empty());
    let p = planned[0];
    assert!(w.is_known_chunk(p));
    w.abandon_loading(p);
    assert!(!w.is_known_chunk(p));
}
