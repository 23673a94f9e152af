use vstd::prelude::*;
use crate::voxel::{BlockType, ToolTier, ToolType};

verus! {

/// Everything that can sit in an inventory slot: placeable blocks, materials and tools.
#[derive(Debug, Clone, Copy, PartialEq, Eq, Hash, Structural)]
pub enum ItemType {
    Air,
    Grass,
    Stone,
    Dirt,
    OakLog,
    OakLeaves,
    Sand,
    Gravel,
    CoalOre,
    IronOre,
    Glass,
    Torch,
    Coal,
    IronIngot,
    Stick,
    WoodenPickaxe,
    StonePickaxe,
    IronPickaxe,
    WoodenShovel,
    StoneShovel,
    IronShovel,
    WoodenAxe,
    StoneAxe,
    IronAxe,
}

/// Numeric id of an item type.
pub open spec fn item_id(item: ItemType) -> u16 {
    match item {
        ItemType::Air => 0,
        ItemType::Grass => 1,
        ItemType::Stone => 2,
        ItemType::Dirt => 3,
        ItemType::OakLog => 4,
        ItemType::OakLeaves => 5,
        ItemType::Sand => 6,
        ItemType::Gravel => 7,
        ItemType::CoalOre => 8,
        ItemType::IronOre => 9,
        ItemType::Glass => 10,
        ItemType::Torch => 11,
        ItemType::Coal => 100,
        ItemType::IronIngot => 101,
        ItemType::Stick => 102,
        ItemType::WoodenPickaxe => 200,
        ItemType::StonePickaxe => 201,
        ItemType::IronPickaxe => 202,
        ItemType::WoodenShovel => 203,
        ItemType::StoneShovel => 204,
        ItemType::IronShovel => 205,
        ItemType::WoodenAxe => 206,
        ItemType::StoneAxe => 207,
        ItemType::IronAxe => 208,
    }
}

impl ItemType {
    /// Numeric id of this item type.
    pub fn id(self) -> (r: u16)
        ensures
            r == item_id(self),
    {
        match self {
            ItemType::Air => 0,
            ItemType::Grass => 1,
            ItemType::Stone => 2,
            ItemType::Dirt => 3,
            ItemType::OakLog => 4,
            ItemType::OakLeaves => 5,
            ItemType::Sand => 6,
            ItemType::Gravel => 7,
            ItemType::CoalOre => 8,
            ItemType::IronOre => 9,
            ItemType::Glass => 10,
            ItemType::Torch => 11,
            ItemType::Coal => 100,
            ItemType::IronIngot => 101,
            ItemType::Stick => 102,
            ItemType::WoodenPickaxe => 200,
            ItemType::StonePickaxe => 201,
            ItemType::IronPickaxe => 202,
            ItemType::WoodenShovel => 203,
            ItemType::StoneShovel => 204,
            ItemType::IronShovel => 205,
            ItemType::WoodenAxe => 206,
            ItemType::StoneAxe => 207,
            ItemType::IronAxe => 208,
        }
    }
}

/// What an item is used as. A tool's mining speed multiplier is kept in tenths.
#[derive(Debug, Clone, Copy, PartialEq, Eq, Structural)]
pub enum ItemKind {
    Block(BlockType),
    Tool { tool_type: ToolType, tier: ToolTier, efficiency_tenths: u16, max_durability: u16 },
    Material,
}

/// Registry entry of an item type.
#[derive(Debug, Clone, Copy)]
pub struct ItemDefinition {
    pub id: ItemType,
    pub name: &'static str,
    pub kind: ItemKind,
    pub max_stack: u16,
}

/// The registry entry of each item type; air has none.
pub open spec fn item_definition(item: ItemType) -> Option<ItemDefinition> {
    match item {
        ItemType::Air => None,
        ItemType::Grass => Some(ItemDefinition { id: item, name: "Grass Block", kind: ItemKind::Block(BlockType::Grass), max_stack: 64 }),
        ItemType::Stone => Some(ItemDefinition { id: item, name: "Stone", kind: ItemKind::Block(BlockType::Stone), max_stack: 64 }),
        ItemType::Dirt => Some(ItemDefinition { id: item, name: "Dirt", kind: ItemKind::Block(BlockType::Dirt), max_stack: 64 }),
        ItemType::OakLog => Some(ItemDefinition { id: item, name: "Oak Log", kind: ItemKind::Block(BlockType::OakLog), max_stack: 64 }),
        ItemType::OakLeaves => Some(ItemDefinition { id: item, name: "Oak Leaves", kind: ItemKind::Block(BlockType::OakLeaves), max_stack: 64 }),
        ItemType::Sand => Some(ItemDefinition { id: item, name: "Sand", kind: ItemKind::Block(BlockType::Sand), max_stack: 64 }),
        ItemType::Gravel => Some(ItemDefinition { id: item, name: "Gravel", kind: ItemKind::Block(BlockType::Gravel), max_stack: 64 }),
        ItemType::CoalOre => Some(ItemDefinition { id: item, name: "Coal Ore", kind: ItemKind::Block(BlockType::CoalOre), max_stack: 64 }),
        ItemType::IronOre => Some(ItemDefinition { id: item, name: "Iron Ore", kind: ItemKind::Block(BlockType::IronOre), max_stack: 64 }),
        ItemType::Glass => Some(ItemDefinition { id: item, name: "Glass", kind: ItemKind::Block(BlockType::Glass), max_stack: 64 }),
        ItemType::Torch => Some(ItemDefinition { id: item, name: "Torch", kind: ItemKind::Block(BlockType::Torch), max_stack: 64 }),
        ItemType::Coal => Some(ItemDefinition { id: item, name: "Coal", kind: ItemKind::Material, max_stack: 64 }),
        ItemType::IronIngot => Some(ItemDefinition { id: item, name: "Iron Ingot", kind: ItemKind::Material, max_stack: 64 }),
        ItemType::Stick => Some(ItemDefinition { id: item, name: "Stick", kind: ItemKind::Material, max_stack: 64 }),
        ItemType::WoodenPickaxe => Some(ItemDefinition {
            id: item,
            name: "Wooden Pickaxe",
            kind: ItemKind::Tool {
                tool_type: ToolType::Pickaxe,
                tier: ToolTier::Wood,
                efficiency_tenths: 20,
                max_durability: 59,
            },
            max_stack: 1,
        }),
        ItemType::StonePickaxe => Some(ItemDefinition {
            id: item,
            name: "Stone Pickaxe",
            kind: ItemKind::Tool {
                tool_type: ToolType::Pickaxe,
                tier: ToolTier::Stone,
                efficiency_tenths: 40,
                max_durability: 131,
            },
            max_stack: 1,
        }),
        ItemType::IronPickaxe => Some(ItemDefinition {
            id: item,
            name: "Iron Pickaxe",
            kind: ItemKind::Tool {
                tool_type: ToolType::Pickaxe,
                tier: ToolTier::Iron,
                efficiency_tenths: 60,
                max_durability: 250,
            },
            max_stack: 1,
        }),
        ItemType::WoodenShovel => Some(ItemDefinition {
            id: item,
            name: "Wooden Shovel",
            kind: ItemKind::Tool {
                tool_type: ToolType::Shovel,
                tier: ToolTier::Wood,
                efficiency_tenths: 20,
                max_durability: 59,
            },
            max_stack: 1,
        }),
        ItemType::StoneShovel => Some(ItemDefinition {
            id: item,
            name: "Stone Shovel",
            kind: ItemKind::Tool {
                tool_type: ToolType::Shovel,
                tier: ToolTier::Stone,
                efficiency_tenths: 40,
                max_durability: 131,
            },
            max_stack: 1,
        }),
        ItemType::IronShovel => Some(ItemDefinition {
            id: item,
            name: "Iron Shovel",
            kind: ItemKind::Tool {
                tool_type: ToolType::Shovel,
                tier: ToolTier::Iron,
                efficiency_tenths: 60,
                max_durability: 250,
            },
            max_stack: 1,
        }),
        ItemType::WoodenAxe => Some(ItemDefinition {
            id: item,
            name: "Wooden Axe",
            kind: ItemKind::Tool {
                tool_type: ToolType::Axe,
                tier: ToolTier::Wood,
                efficiency_tenths: 20,
                max_durability: 59,
            },
            max_stack: 1,
        }),
        ItemType::StoneAxe => Some(ItemDefinition {
            id: item,
            name: "Stone Axe",
            kind: ItemKind::Tool {
                tool_type: ToolType::Axe,
                tier: ToolTier::Stone,
                efficiency_tenths: 40,
                max_durability: 131,
            },
            max_stack: 1,
        }),
        ItemType::IronAxe => Some(ItemDefinition {
            id: item,
            name: "Iron Axe",
            kind: ItemKind::Tool {
                tool_type: ToolType::Axe,
                tier: ToolTier::Iron,
                efficiency_tenths: 60,
                max_durability: 250,
            },
            max_stack: 1,
        }),
    }
}

/// Every registered item is filed under its own type, and only tools stack singly.
pub proof fn law_item_definitions(item: ItemType)
    ensures
        item_definition(item) matches Some(d) ==> d.id == item,
        item_definition(item) is None <==> item == ItemType::Air,
        item_definition(item) matches Some(d) ==> (d.max_stack == 1 <==> d.kind is Tool),
        item_definition(item) matches Some(d) ==> (d.max_stack == 64 <==> !(d.kind is Tool)),
{
}

/// Registry handle through which item definitions are looked up.
#[derive(Debug, Clone, Copy, Default)]
pub struct ItemRegistry;

impl ItemRegistry {
    /// The registry entry of an item type; `None` for air.
    pub fn get(&self, item: ItemType) -> (r: Option<ItemDefinition>)
        ensures
            r == item_definition(item),
    {
        match item {
            ItemType::Air => None,
            ItemType::Grass => Some(ItemDefinition { id: item, name: "Grass Block", kind: ItemKind::Block(BlockType::Grass), max_stack: 64 }),
            ItemType::Stone => Some(ItemDefinition { id: item, name: "Stone", kind: ItemKind::Block(BlockType::Stone), max_stack: 64 }),
            ItemType::Dirt => Some(ItemDefinition { id: item, name: "Dirt", kind: ItemKind::Block(BlockType::Dirt), max_stack: 64 }),
            ItemType::OakLog => Some(ItemDefinition { id: item, name: "Oak Log", kind: ItemKind::Block(BlockType::OakLog), max_stack: 64 }),
            ItemType::OakLeaves => Some(ItemDefinition { id: item, name: "Oak Leaves", kind: ItemKind::Block(BlockType::OakLeaves), max_stack: 64 }),
            ItemType::Sand => Some(ItemDefinition { id: item, name: "Sand", kind: ItemKind::Block(BlockType::Sand), max_stack: 64 }),
            ItemType::Gravel => Some(ItemDefinition { id: item, name: "Gravel", kind: ItemKind::Block(BlockType::Gravel), max_stack: 64 }),
            ItemType::CoalOre => Some(ItemDefinition { id: item, name: "Coal Ore", kind: ItemKind::Block(BlockType::CoalOre), max_stack: 64 }),
            ItemType::IronOre => Some(ItemDefinition { id: item, name: "Iron Ore", kind: ItemKind::Block(BlockType::IronOre), max_stack: 64 }),
            ItemType::Glass => Some(ItemDefinition { id: item, name: "Glass", kind: ItemKind::Block(BlockType::Glass), max_stack: 64 }),
            ItemType::Torch => Some(ItemDefinition { id: item, name: "Torch", kind: ItemKind::Block(BlockType::Torch), max_stack: 64 }),
            ItemType::Coal => Some(ItemDefinition { id: item, name: "Coal", kind: ItemKind::Material, max_stack: 64 }),
            ItemType::IronIngot => Some(ItemDefinition { id: item, name: "Iron Ingot", kind: ItemKind::Material, max_stack: 64 }),
            ItemType::Stick => Some(ItemDefinition { id: item, name: "Stick", kind: ItemKind::Material, max_stack: 64 }),
            ItemType::WoodenPickaxe => Some(ItemDefinition {
                id: item,
                name: "Wooden Pickaxe",
                kind: ItemKind::Tool {
                    tool_type: ToolType::Pickaxe,
                    tier: ToolTier::Wood,
                    efficiency_tenths: 20,
                    max_durability: 59,
                },
                max_stack: 1,
            }),
            ItemType::StonePickaxe => Some(ItemDefinition {
                id: item,
                name: "Stone Pickaxe",
                kind: ItemKind::Tool {
                    tool_type: ToolType::Pickaxe,
                    tier: ToolTier::Stone,
                    efficiency_tenths: 40,
                    max_durability: 131,
                },
                max_stack: 1,
            }),
            ItemType::IronPickaxe => Some(ItemDefinition {
                id: item,
                name: "Iron Pickaxe",
                kind: ItemKind::Tool {
                    tool_type: ToolType::Pickaxe,
                    tier: ToolTier::Iron,
                    efficiency_tenths: 60,
                    max_durability: 250,
                },
                max_stack: 1,
            }),
            ItemType::WoodenShovel => Some(ItemDefinition {
                id: item,
                name: "Wooden Shovel",
                kind: ItemKind::Tool {
                    tool_type: ToolType::Shovel,
                    tier: ToolTier::Wood,
                    efficiency_tenths: 20,
                    max_durability: 59,
                },
                max_stack: 1,
            }),
            ItemType::StoneShovel => Some(ItemDefinition {
                id: item,
                name: "Stone Shovel",
                kind: ItemKind::Tool {
                    tool_type: ToolType::Shovel,
                    tier: ToolTier::Stone,
                    efficiency_tenths: 40,
                    max_durability: 131,
                },
                max_stack: 1,
            }),
            ItemType::IronShovel => Some(ItemDefinition {
                id: item,
                name: "Iron Shovel",
                kind: ItemKind::Tool {
                    tool_type: ToolType::Shovel,
                    tier: ToolTier::Iron,
                    efficiency_tenths: 60,
                    max_durability: 250,
                },
                max_stack: 1,
            }),
            ItemType::WoodenAxe => Some(ItemDefinition {
                id: item,
                name: "Wooden Axe",
                kind: ItemKind::Tool {
                    tool_type: ToolType::Axe,
                    tier: ToolTier::Wood,
                    efficiency_tenths: 20,
                    max_durability: 59,
                },
                max_stack: 1,
            }),
            ItemType::StoneAxe => Some(ItemDefinition {
                id: item,
                name: "Stone Axe",
                kind: ItemKind::Tool {
                    tool_type: ToolType::Axe,
                    tier: ToolTier::Stone,
                    efficiency_tenths: 40,
                    max_durability: 131,
                },
                max_stack: 1,
            }),
            ItemType::IronAxe => Some(ItemDefinition {
                id: item,
                name: "Iron Axe",
                kind: ItemKind::Tool {
                    tool_type: ToolType::Axe,
                    tier: ToolTier::Iron,
                    efficiency_tenths: 60,
                    max_durability: 250,
                },
                max_stack: 1,
            }),
        }
    }
}

} // verus!
