use cavegame::item::{ItemKind, ItemRegistry, ItemType};
use cavegame::voxel::{BlockRegistry, BlockTextureMapping, BlockType, ToolTier, ToolType};

#[test]
fn test_item_registry_lookup() {
    let registry = ItemRegistry;
    assert!(registry.get(ItemType::Air).is_none());

    let stone = registry.get(ItemType::Stone).unwrap();
    assert_eq!(stone.name, "Stone");
    assert_eq!(stone.kind, ItemKind::Block(BlockType::Stone));
    assert_eq!(stone.max_stack, 64);

    let iron_pickaxe = registry.get(ItemType::IronPickaxe).unwrap();
    assert_eq!(iron_pickaxe.name, "Iron Pickaxe");
    assert_eq!(iron_pickaxe.max_stack, 1);
    if let ItemKind::Tool { tool_type, tier, efficiency_tenths, max_durability } = iron_pickaxe.kind {
        assert_eq!(tool_type, ToolType::Pickaxe);
        assert_eq!(tier, ToolTier::Iron);
        assert_eq!(efficiency_tenths as f32 / 10.0, 6.0);
        assert_eq!(max_durability, 250);
    } else {
        panic!("Expected Tool ItemKind");
    }
}

#[test]
fn test_block_definitions_coverage() {
    let registry = BlockRegistry;
    let blocks = [
        BlockType::Air,
        BlockType::Grass,
        BlockType::Stone,
        BlockType::Dirt,
        BlockType::OakLog,
        BlockType::OakLeaves,
        BlockType::Sand,
        BlockType::Gravel,
        BlockType::CoalOre,
        BlockType::IronOre,
        BlockType::Glass,
        BlockType::Torch,
        BlockType::TorchWallN,
        BlockType::TorchWallS,
        BlockType::TorchWallE,
        BlockType::TorchWallW,
    ];

    for block in blocks {
        let def = block.definition();
        assert_eq!(def.id, block);
        assert_eq!(block.is_solid(), def.is_solid);
        assert_eq!(block.is_opaque(), def.is_opaque);
        assert_eq!(block.emitted_light(), def.emitted_light);
        assert_eq!(block.is_torch(), def.is_torch);
        assert_eq!(block.get_aabb_offsets_milli(), def.aabb_offsets_milli);
        assert_eq!(block.hardness_tenths(), def.hardness_tenths);
        assert_eq!(block.required_tier(), def.required_tier);
        assert_eq!(block.preferred_tool(), def.preferred_tool);
        assert_eq!(block.sound_category(), def.sound_category);
        assert_eq!(block.drop_table(), def.drop_table);
        assert_eq!(registry.get(block).id, block);
    }
}

#[test]
fn test_six_faces_mapping() {
    let mapping = BlockTextureMapping::SixFaces([0, 1, 2, 3, 4, 5]);
    assert_eq!(mapping.get_layer(0, 1), 0);
    assert_eq!(mapping.get_layer(0, -1), 1);
    assert_eq!(mapping.get_layer(1, 1), 2);
    assert_eq!(mapping.get_layer(1, -1), 3);
    assert_eq!(mapping.get_layer(2, 1), 4);
    assert_eq!(mapping.get_layer(2, -1), 5);
}

#[test]
fn block_ids_round_trip() {
    for id in 0u8..16 {
        let block = BlockType::from_id(id);
        assert_eq!(block.id(), id);
        assert_eq!(BlockType::from_id(block.id()), block);
    }
}

#[test]
fn torch_emits_light_and_glass_is_transparent() {
    assert_eq!(BlockType::Torch.emitted_light(), 15);
    assert!(!BlockType::Torch.is_solid());
    assert!(BlockType::Glass.is_solid());
    assert!(!BlockType::Glass.is_opaque());
    assert!(BlockType::Stone.is_opaque());
}

#[test]
fn grass_has_top_bottom_and_side_layers() {
    let mapping = BlockType::Grass.texture_mapping();
    assert_eq!(mapping.get_layer(1, 1), 2);
    assert_eq!(mapping.get_layer(1, -1), 1);
    assert_eq!(mapping.get_layer(0, 1), 3);
}
