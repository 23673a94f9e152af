use cavegame::interaction::{hotbar_slot_view, next_hotbar_slot, torch_placement, DurabilityBand, DurabilityBar};
use cavegame::item::ItemType;
use cavegame::math::IVec3;
use cavegame::voxel::BlockType;
use cavegame::interaction::{Inventory, ItemStack};

#[test]
fn hotbar_scroll_wraps() {
    assert_eq!(next_hotbar_slot(0, 1), 8);
    assert_eq!(next_hotbar_slot(8, -1), 0);
    assert_eq!(next_hotbar_slot(4, 1), 3);
    assert_eq!(next_hotbar_slot(4, -1), 5);
}

#[test]
fn torch_attaches_to_the_face_it_is_placed_on() {
    let hit = IVec3::new(10, 64, 10);
    assert_eq!(torch_placement(BlockType::Torch, IVec3::new(10, 65, 10), hit), Some(BlockType::Torch));
    assert_eq!(torch_placement(BlockType::Torch, IVec3::new(11, 64, 10), hit), Some(BlockType::TorchWallW));
    assert_eq!(torch_placement(BlockType::Torch, IVec3::new(9, 64, 10), hit), Some(BlockType::TorchWallE));
    assert_eq!(torch_placement(BlockType::Torch, IVec3::new(10, 64, 11), hit), Some(BlockType::TorchWallN));
    assert_eq!(torch_placement(BlockType::Torch, IVec3::new(10, 64, 9), hit), Some(BlockType::TorchWallS));
    assert_eq!(torch_placement(BlockType::Torch, IVec3::new(10, 63, 10), hit), None);
    assert_eq!(torch_placement(BlockType::Stone, IVec3::new(10, 63, 10), hit), Some(BlockType::Stone));
}

#[test]
fn slot_views() {
    let v = hotbar_slot_view(ItemType::Stone, 5, None);
    assert!(v.show_block_preview && !v.show_icon && v.show_count);
    assert_eq!(v.durability_bar, None);

    let v = hotbar_slot_view(ItemType::IronPickaxe, 1, Some(250));
    assert!(!v.show_block_preview && v.show_icon && !v.show_count);
    assert_eq!(v.durability_bar, None);

    let v = hotbar_slot_view(ItemType::IronPickaxe, 1, Some(200));
    assert_eq!(v.durability_bar, Some(DurabilityBar { remaining: 200, max: 250, band: DurabilityBand::Green }));
    let v = hotbar_slot_view(ItemType::IronPickaxe, 1, Some(100));
    assert_eq!(v.durability_bar, Some(DurabilityBar { remaining: 100, max: 250, band: DurabilityBand::Yellow }));
    let v = hotbar_slot_view(ItemType::IronPickaxe, 1, Some(20));
    assert_eq!(v.durability_bar, Some(DurabilityBar { remaining: 20, max: 250, band: DurabilityBand::Red }));

    let v = hotbar_slot_view(ItemType::Coal, 1, None);
    assert!(v.show_icon && !v.show_block_preview);
}

#[test]
fn stacks_empty_when_used_up_or_broken() {
    let pick = ItemStack::new(ItemType::IronPickaxe, 1);
    assert_eq!(pick.durability, Some(250));
    assert_eq!(ItemStack::new(ItemType::Stone, 5).durability, None);
    let mut inv = Inventory { slots: vec![Some(ItemStack::new(ItemType::Stone, 2)), Some(pick)], selected_slot: 0 };
    inv.consume_selected(1);
    assert_eq!(inv.selected_item().unwrap().count, 1);
    inv.consume_selected(1);
    assert_eq!(inv.selected_item(), None);
    inv.selected_slot = 1;
    inv.damage_selected_tool(1);
    assert_eq!(inv.selected_item().unwrap().durability, Some(249));
    inv.damage_selected_tool(300);
    assert_eq!(inv.selected_item(), None);
    inv.selected_slot = 7;
    inv.consume_selected(1);
    assert_eq!(inv.slots.len(), 2);
}
