use cavegame::fluid_mesh::generate_greedy_mesh;
use cavegame::greedy::{greedy_quads, FaceInfo, SkyCorners};
use cavegame::math::IVec3;
use cavegame::mesher::{get_texture_layer, MeshData};
use cavegame::voxel::BlockType;
use cavegame::world::WorldManager;
use cavegame::chunk::{ChunkBuffer, ChunkLightBuffer};
use cavegame::mesh_input::ChunkMeshInputData;

fn face(block: BlockType, light: u8) -> FaceInfo {
    FaceInfo {
        block,
        normal: 1,
        tex_layer: 0,
        sky_lights: SkyCorners(light, light, light, light),
        y_offset_down: 0,
    }
}

#[test]
fn empty_mask_gives_no_quads() {
    let mask: Vec<Option<FaceInfo>> = vec![None; 1024];
    assert!(greedy_quads(&mask, false).is_empty());
}

#[test]
fn full_mask_merges_into_one_quad() {
    let mask = vec![Some(face(BlockType::Stone, 15)); 1024];
    let qs = greedy_quads(&mask, false);
    assert_eq!(qs.len(), 1);
    assert_eq!((qs[0].i, qs[0].j, qs[0].w, qs[0].h), (0, 0, 32, 32));
}

#[test]
fn different_faces_do_not_merge() {
    let mut mask: Vec<Option<FaceInfo>> = vec![None; 1024];
    mask[0] = Some(face(BlockType::Stone, 15));
    mask[1] = Some(face(BlockType::Stone, 15));
    mask[2] = Some(face(BlockType::Dirt, 15));
    mask[32] = Some(face(BlockType::Stone, 15));
    mask[33] = Some(face(BlockType::Stone, 15));
    let qs = greedy_quads(&mask, false);
    assert_eq!(qs.len(), 2);
    assert_eq!((qs[0].i, qs[0].j, qs[0].w, qs[0].h), (0, 0, 2, 2));
    assert_eq!((qs[1].i, qs[1].j, qs[1].w, qs[1].h), (2, 0, 1, 1));
    assert_eq!(qs[1].face.block, BlockType::Dirt);
}

#[test]
fn smooth_lighting_splits_unequal_light() {
    let mut mask: Vec<Option<FaceInfo>> = vec![None; 1024];
    mask[0] = Some(face(BlockType::Stone, 15));
    mask[1] = Some(face(BlockType::Stone, 10));
    assert_eq!(greedy_quads(&mask, true).len(), 2);
    assert_eq!(greedy_quads(&mask, false).len(), 2);
}

#[test]
fn grass_texture_layers() {
    assert_eq!(get_texture_layer(BlockType::Grass, 1, 1), 2);
    assert_eq!(get_texture_layer(BlockType::Grass, 1, -1), 1);
    assert_eq!(get_texture_layer(BlockType::Grass, 0, 1), 3);
    assert_eq!(get_texture_layer(BlockType::Stone, 2, -1), 0);
}

#[test]
fn lone_block_has_six_faces() {
    let mut w = WorldManager::default();
    w.set_block_global(IVec3::new(5, 100, 5), BlockType::Stone, 80);
    let cp = IVec3::new(0, 3, 0);
    assert!(w.is_ready_for_mesh(cp));
    let (mut input, empty) = w.gather_mesh_input(cp);
    assert!(!empty);
    input.surface_heights = Some(vec![-1000; 1156]);
    let mut out = MeshData::new();
    generate_greedy_mesh(cp, &input, false, &mut out, false);
    assert_eq!(out.packed.len(), 24);
    assert_eq!(out.indices.len(), 36);
    let mut fluid = MeshData::new();
    generate_greedy_mesh(cp, &input, true, &mut fluid, false);
    assert!(fluid.packed.is_empty());
}

#[test]
fn empty_sky_chunk_needs_no_mesh() {
    let w = WorldManager::default();
    let (_, empty) = w.gather_mesh_input(IVec3::new(0, 5, 0));
    assert!(empty);
    let (_, empty) = w.gather_mesh_input(IVec3::new(0, 1, 0));
    assert!(!empty);
}

#[test]
fn border_face_is_drawn_by_the_solid_side_only() {
    let mut w = WorldManager::default();
    w.set_block_global(IVec3::new(31, 100, 5), BlockType::Stone, 80);
    w.set_block_global(IVec3::new(60, 120, 20), BlockType::Glass, 80);
    let mut stone_side = MeshData::new();
    let (mut input, _) = w.gather_mesh_input(IVec3::new(0, 3, 0));
    input.surface_heights = Some(vec![-1000; 1156]);
    generate_greedy_mesh(IVec3::new(0, 3, 0), &input, false, &mut stone_side, false);
    assert_eq!(stone_side.packed.len(), 24);
    let mut other_side = MeshData::new();
    let (mut input, _) = w.gather_mesh_input(IVec3::new(1, 3, 0));
    input.surface_heights = Some(vec![-1000; 1156]);
    generate_greedy_mesh(IVec3::new(1, 3, 0), &input, false, &mut other_side, false);
    assert_eq!(other_side.packed.len(), 24);
}

#[test]
fn border_change_remeshes_the_neighbour() {
    let mut w = WorldManager::default();
    w.set_block_global(IVec3::new(60, 120, 20), BlockType::Glass, 80);
    w.set_block_global(IVec3::new(10, 100, 10), BlockType::Glass, 80);
    let _ = w.drain_dirty_chunks();
    w.set_block_global(IVec3::new(31, 100, 5), BlockType::Stone, 80);
    let dirty = w.drain_dirty_chunks();
    assert!(dirty.contains(&IVec3::new(0, 3, 0)));
    assert!(dirty.contains(&IVec3::new(1, 3, 0)));
    w.set_block_global(IVec3::new(20, 100, 5), BlockType::Stone, 80);
    let dirty = w.drain_dirty_chunks();
    assert_eq!(dirty, vec![IVec3::new(0, 3, 0)]);
}

#[test]
fn faces_against_glass_are_kept() {
    let mut b = ChunkBuffer::default();
    b.blocks[5285] = BlockType::Stone;
    b.blocks[5286] = BlockType::Glass;
    let mut blocks = vec![None; 27];
    let mut lights = vec![None; 27];
    blocks[13] = Some(b);
    lights[13] = Some(ChunkLightBuffer::default());
    let w = ChunkMeshInputData {
        chunk_pos: IVec3::new(0, 4, 0),
        blocks,
        fluids: vec![None; 27],
        lights,
        surface_heights: Some(vec![0; 1156]),
    };
    let mut out = MeshData::new();
    generate_greedy_mesh(IVec3::new(0, 4, 0), &w, false, &mut out, false);
    assert_eq!(out.packed.len(), 44);
    assert_eq!(out.indices.len(), 66);
}
