use vstd::prelude::*;

verus! {

/// Minimum tool tier needed to harvest a block.
#[derive(Debug, Clone, Copy, PartialEq, Eq, PartialOrd, Ord, Hash, Structural)]
pub enum ToolTier {
    Hand,
    Wood,
    Stone,
    Iron,
    Diamond,
}

/// Kind of tool that mines a block fastest.
#[derive(Debug, Clone, Copy, PartialEq, Eq, Hash, Structural)]
pub enum ToolType {
    Hand,
    Pickaxe,
    Shovel,
    Axe,
    Sword,
    Hoe,
}

/// Sound family played when a block is stepped on or broken.
#[derive(Debug, Clone, Copy, PartialEq, Eq, Hash, Structural)]
pub enum SoundCategory {
    Silent,
    Grass,
    Dirt,
    Stone,
    Wood,
    Gravel,
    Sand,
    Glass,
}

/// What a block yields when broken.
#[derive(Debug, Clone, Copy, PartialEq, Eq, Hash, Structural)]
pub enum DropTable {
    Nothing,
    SelfDrop,
    ItemDrop { item_id: u16, count: u8 },
}

/// How a block picks a texture layer for each of its faces.
#[derive(Debug, Clone, Copy, PartialEq, Eq)]
pub enum BlockTextureMapping {
    Single(u32),
    TopBottomSide { top: u32, bottom: u32, side: u32 },
    /// Layers for [+X (East), -X (West), +Y (Top), -Y (Bottom), +Z (North), -Z (South)].
    SixFaces([u32; 6]),
}

/// Face index used by six-sided mappings: axis `d` (0 = X, 1 = Y, 2 = Z), positive
/// normals first.
pub open spec fn face_slot(d: int, normal: i32) -> int {
    d * 2 + if normal > 0 { 0int } else { 1int }
}

/// Texture layer of the face on axis `d` whose outward normal has sign `normal`.
pub open spec fn layer_of(m: BlockTextureMapping, d: int, normal: i32) -> u32 {
    match m {
        BlockTextureMapping::Single(layer) => layer,
        BlockTextureMapping::TopBottomSide { top, bottom, side } => {
            if d == 1 && normal == 1 {
                top
            } else if d == 1 && normal == -1 {
                bottom
            } else {
                side
            }
        },
        BlockTextureMapping::SixFaces(faces) => faces@[face_slot(d, normal)],
    }
}

impl BlockTextureMapping {
    /// Texture layer of the face on axis `d` whose outward normal has sign `normal`.
    pub fn get_layer(&self, d: usize, normal: i32) -> (r: u32)
        requires
            *self is SixFaces ==> d < 3,
        ensures
            r == layer_of(*self, d as int, normal),
    {
        match self {
            BlockTextureMapping::Single(layer) => *layer,
            BlockTextureMapping::TopBottomSide { top, bottom, side } => {
                if d == 1 && normal == 1 {
                    *top
                } else if d == 1 && normal == -1 {
                    *bottom
                } else {
                    *side
                }
            },
            BlockTextureMapping::SixFaces(faces) => {
                let face_id = d * 2 + if normal > 0 { 0 } else { 1 };
                faces[face_id]
            },
        }
    }
}

/// Kinds of voxel the world is built from.
#[derive(Clone, Copy, PartialEq, Eq, Debug, Hash, Structural)]
pub enum BlockType {
    Air,
    Grass,
    Stone,
    Dirt,
    OakLog,
    OakLeaves,
    Sand,
    Gravel,
    CoalOre,
    IronOre,
    Glass,
    Torch,
    TorchWallN,
    TorchWallS,
    TorchWallE,
    TorchWallW,
}

/// Static properties of a block type. Hardness is kept in tenths and collision offsets in
/// thousandths of a voxel, so that every property is an exact integer.
#[derive(Debug, Clone, Copy)]
pub struct BlockDefinition {
    pub id: BlockType,
    pub name: &'static str,
    pub is_solid: bool,
    pub is_opaque: bool,
    pub emitted_light: u8,
    pub hardness_tenths: u16,
    pub required_tier: ToolTier,
    pub preferred_tool: ToolType,
    pub drop_table: DropTable,
    pub sound_category: SoundCategory,
    pub aabb_offsets_milli: ((u16, u16, u16), (u16, u16, u16)),
    pub is_torch: bool,
    pub texture_mapping: BlockTextureMapping,
}

/// Numeric id of a block type, as stored on disk and in palettes.
pub open spec fn block_id(b: BlockType) -> u8 {
    match b {
        BlockType::Air => 0,
        BlockType::Grass => 1,
        BlockType::Stone => 2,
        BlockType::Dirt => 3,
        BlockType::OakLog => 4,
        BlockType::OakLeaves => 5,
        BlockType::Sand => 6,
        BlockType::Gravel => 7,
        BlockType::CoalOre => 8,
        BlockType::IronOre => 9,
        BlockType::Glass => 10,
        BlockType::Torch => 11,
        BlockType::TorchWallN => 12,
        BlockType::TorchWallS => 13,
        BlockType::TorchWallE => 14,
        BlockType::TorchWallW => 15,
    }
}

/// The block type with a given id; unknown ids read as air.
pub open spec fn block_from_id(id: u8) -> BlockType {
    match id {
        1 => BlockType::Grass,
        2 => BlockType::Stone,
        3 => BlockType::Dirt,
        4 => BlockType::OakLog,
        5 => BlockType::OakLeaves,
        6 => BlockType::Sand,
        7 => BlockType::Gravel,
        8 => BlockType::CoalOre,
        9 => BlockType::IronOre,
        10 => BlockType::Glass,
        11 => BlockType::Torch,
        12 => BlockType::TorchWallN,
        13 => BlockType::TorchWallS,
        14 => BlockType::TorchWallE,
        15 => BlockType::TorchWallW,
        _ => BlockType::Air,
    }
}

/// The registry entry of each block type.
pub open spec fn block_definition(b: BlockType) -> BlockDefinition {
    match b {
        BlockType::Air => BlockDefinition {
            id: BlockType::Air,
            name: "Air",
            is_solid: false,
            is_opaque: false,
            emitted_light: 0,
            hardness_tenths: 0,
            required_tier: ToolTier::Hand,
            preferred_tool: ToolType::Hand,
            drop_table: DropTable::Nothing,
            sound_category: SoundCategory::Silent,
            aabb_offsets_milli: ((0, 0, 0), (1000, 1000, 1000)),
            is_torch: false,
            texture_mapping: BlockTextureMapping::Single(0),
        },
        BlockType::Grass => BlockDefinition {
            id: BlockType::Grass,
            name: "Grass",
            is_solid: true,
            is_opaque: true,
            emitted_light: 0,
            hardness_tenths: 6,
            required_tier: ToolTier::Hand,
            preferred_tool: ToolType::Shovel,
            drop_table: DropTable::SelfDrop,
            sound_category: SoundCategory::Grass,
            aabb_offsets_milli: ((0, 0, 0), (1000, 1000, 1000)),
            is_torch: false,
            texture_mapping: BlockTextureMapping::TopBottomSide { top: 2, bottom: 1, side: 3 },
        },
        BlockType::Stone => BlockDefinition {
            id: BlockType::Stone,
            name: "Stone",
            is_solid: true,
            is_opaque: true,
            emitted_light: 0,
            hardness_tenths: 15,
            required_tier: ToolTier::Wood,
            preferred_tool: ToolType::Pickaxe,
            drop_table: DropTable::SelfDrop,
            sound_category: SoundCategory::Stone,
            aabb_offsets_milli: ((0, 0, 0), (1000, 1000, 1000)),
            is_torch: false,
            texture_mapping: BlockTextureMapping::Single(0),
        },
        BlockType::Dirt => BlockDefinition {
            id: BlockType::Dirt,
            name: "Dirt",
            is_solid: true,
            is_opaque: true,
            emitted_light: 0,
            hardness_tenths: 5,
            required_tier: ToolTier::Hand,
            preferred_tool: ToolType::Shovel,
            drop_table: DropTable::SelfDrop,
            sound_category: SoundCategory::Dirt,
            aabb_offsets_milli: ((0, 0, 0), (1000, 1000, 1000)),
            is_torch: false,
            texture_mapping: BlockTextureMapping::Single(1),
        },
        BlockType::OakLog => BlockDefinition {
            id: BlockType::OakLog,
            name: "Oak Log",
            is_solid: true,
            is_opaque: true,
            emitted_light: 0,
            hardness_tenths: 20,
            required_tier: ToolTier::Hand,
            preferred_tool: ToolType::Axe,
            drop_table: DropTable::SelfDrop,
            sound_category: SoundCategory::Wood,
            aabb_offsets_milli: ((0, 0, 0), (1000, 1000, 1000)),
            is_torch: false,
            texture_mapping: BlockTextureMapping::TopBottomSide { top: 6, bottom: 6, side: 5 },
        },
        BlockType::OakLeaves => BlockDefinition {
            id: BlockType::OakLeaves,
            name: "Oak Leaves",
            is_solid: true,
            is_opaque: false,
            emitted_light: 0,
            hardness_tenths: 2,
            required_tier: ToolTier::Hand,
            preferred_tool: ToolType::Hand,
            drop_table: DropTable::SelfDrop,
            sound_category: SoundCategory::Grass,
            aabb_offsets_milli: ((0, 0, 0), (1000, 1000, 1000)),
            is_torch: false,
            texture_mapping: BlockTextureMapping::Single(7),
        },
        BlockType::Sand => BlockDefinition {
            id: BlockType::Sand,
            name: "Sand",
            is_solid: true,
            is_opaque: true,
            emitted_light: 0,
            hardness_tenths: 5,
            required_tier: ToolTier::Hand,
            preferred_tool: ToolType::Shovel,
            drop_table: DropTable::SelfDrop,
            sound_category: SoundCategory::Sand,
            aabb_offsets_milli: ((0, 0, 0), (1000, 1000, 1000)),
            is_torch: false,
            texture_mapping: BlockTextureMapping::Single(8),
        },
        BlockType::Gravel => BlockDefinition {
            id: BlockType::Gravel,
            name: "Gravel",
            is_solid: true,
            is_opaque: true,
            emitted_light: 0,
            hardness_tenths: 6,
            required_tier: ToolTier::Hand,
            preferred_tool: ToolType::Shovel,
            drop_table: DropTable::SelfDrop,
            sound_category: SoundCategory::Gravel,
            aabb_offsets_milli: ((0, 0, 0), (1000, 1000, 1000)),
            is_torch: false,
            texture_mapping: BlockTextureMapping::Single(9),
        },
        BlockType::CoalOre => BlockDefinition {
            id: BlockType::CoalOre,
            name: "Coal Ore",
            is_solid: true,
            is_opaque: true,
            emitted_light: 0,
            hardness_tenths: 30,
            required_tier: ToolTier::Wood,
            preferred_tool: ToolType::Pickaxe,
            drop_table: DropTable::SelfDrop,
            sound_category: SoundCategory::Stone,
            aabb_offsets_milli: ((0, 0, 0), (1000, 1000, 1000)),
            is_torch: false,
            texture_mapping: BlockTextureMapping::Single(10),
        },
        BlockType::IronOre => BlockDefinition {
            id: BlockType::IronOre,
            name: "Iron Ore",
            is_solid: true,
            is_opaque: true,
            emitted_light: 0,
            hardness_tenths: 30,
            required_tier: ToolTier::Stone,
            preferred_tool: ToolType::Pickaxe,
            drop_table: DropTable::SelfDrop,
            sound_category: SoundCategory::Stone,
            aabb_offsets_milli: ((0, 0, 0), (1000, 1000, 1000)),
            is_torch: false,
            texture_mapping: BlockTextureMapping::Single(11),
        },
        BlockType::Glass => BlockDefinition {
            id: BlockType::Glass,
            name: "Glass",
            is_solid: true,
            is_opaque: false,
            emitted_light: 0,
            hardness_tenths: 3,
            required_tier: ToolTier::Hand,
            preferred_tool: ToolType::Hand,
            drop_table: DropTable::Nothing,
            sound_category: SoundCategory::Glass,
            aabb_offsets_milli: ((0, 0, 0), (1000, 1000, 1000)),
            is_torch: false,
            texture_mapping: BlockTextureMapping::Single(12),
        },
        BlockType::Torch => BlockDefinition {
            id: BlockType::Torch,
            name: "Torch",
            is_solid: false,
            is_opaque: false,
            emitted_light: 15,
            hardness_tenths: 0,
            required_tier: ToolTier::Hand,
            preferred_tool: ToolType::Hand,
            drop_table: DropTable::SelfDrop,
            sound_category: SoundCategory::Wood,
            aabb_offsets_milli: ((375, 0, 375), (625, 625, 625)),
            is_torch: true,
            texture_mapping: BlockTextureMapping::Single(13),
        },
        BlockType::TorchWallN => BlockDefinition {
            id: BlockType::TorchWallN,
            name: "Torch Wall North",
            is_solid: false,
            is_opaque: false,
            emitted_light: 15,
            hardness_tenths: 0,
            required_tier: ToolTier::Hand,
            preferred_tool: ToolType::Hand,
            drop_table: DropTable::SelfDrop,
            sound_category: SoundCategory::Wood,
            aabb_offsets_milli: ((350, 100, 0), (650, 800, 500)),
            is_torch: true,
            texture_mapping: BlockTextureMapping::Single(13),
        },
        BlockType::TorchWallS => BlockDefinition {
            id: BlockType::TorchWallS,
            name: "Torch Wall South",
            is_solid: false,
            is_opaque: false,
            emitted_light: 15,
            hardness_tenths: 0,
            required_tier: ToolTier::Hand,
            preferred_tool: ToolType::Hand,
            drop_table: DropTable::SelfDrop,
            sound_category: SoundCategory::Wood,
            aabb_offsets_milli: ((350, 100, 500), (650, 800, 1000)),
            is_torch: true,
            texture_mapping: BlockTextureMapping::Single(13),
        },
        BlockType::TorchWallE => BlockDefinition {
            id: BlockType::TorchWallE,
            name: "Torch Wall East",
            is_solid: false,
            is_opaque: false,
            emitted_light: 15,
            hardness_tenths: 0,
            required_tier: ToolTier::Hand,
            preferred_tool: ToolType::Hand,
            drop_table: DropTable::SelfDrop,
            sound_category: SoundCategory::Wood,
            aabb_offsets_milli: ((500, 100, 350), (1000, 800, 650)),
            is_torch: true,
            texture_mapping: BlockTextureMapping::Single(13),
        },
        BlockType::TorchWallW => BlockDefinition {
            id: BlockType::TorchWallW,
            name: "Torch Wall West",
            is_solid: false,
            is_opaque: false,
            emitted_light: 15,
            hardness_tenths: 0,
            required_tier: ToolTier::Hand,
            preferred_tool: ToolType::Hand,
            drop_table: DropTable::SelfDrop,
            sound_category: SoundCategory::Wood,
            aabb_offsets_milli: ((0, 100, 350), (500, 800, 650)),
            is_torch: true,
            texture_mapping: BlockTextureMapping::Single(13),
        },
    }
}

/// Every block type's id maps back to that block type, and ids are below sixteen.
pub proof fn lemma_block_id_roundtrip(b: BlockType)
    ensures
        block_from_id(block_id(b)) == b,
        block_id(b) < 16,
{
}

/// Every registry entry is filed under the block type it describes.
pub proof fn law_block_definition_id(b: BlockType)
    ensures
        block_definition(b).id == b,
{
}

impl BlockType {
    /// Numeric id of this block type.
    pub fn id(self) -> (r: u8)
        ensures
            r == block_id(self),
    {
        match self {
            BlockType::Air => 0,
            BlockType::Grass => 1,
            BlockType::Stone => 2,
            BlockType::Dirt => 3,
            BlockType::OakLog => 4,
            BlockType::OakLeaves => 5,
            BlockType::Sand => 6,
            BlockType::Gravel => 7,
            BlockType::CoalOre => 8,
            BlockType::IronOre => 9,
            BlockType::Glass => 10,
            BlockType::Torch => 11,
            BlockType::TorchWallN => 12,
            BlockType::TorchWallS => 13,
            BlockType::TorchWallE => 14,
            BlockType::TorchWallW => 15,
        }
    }

    /// The block type with a given id; unknown ids read as air.
    pub fn from_id(id: u8) -> (r: BlockType)
        ensures
            r == block_from_id(id),
    {
        match id {
            1 => BlockType::Grass,
            2 => BlockType::Stone,
            3 => BlockType::Dirt,
            4 => BlockType::OakLog,
            5 => BlockType::OakLeaves,
            6 => BlockType::Sand,
            7 => BlockType::Gravel,
            8 => BlockType::CoalOre,
            9 => BlockType::IronOre,
            10 => BlockType::Glass,
            11 => BlockType::Torch,
            12 => BlockType::TorchWallN,
            13 => BlockType::TorchWallS,
            14 => BlockType::TorchWallE,
            15 => BlockType::TorchWallW,
            _ => BlockType::Air,
        }
    }

    /// The registry entry of this block type.
    pub fn definition(self) -> (r: BlockDefinition)
        ensures
            r == block_definition(self),
    {
        match self {
            BlockType::Air => BlockDefinition {
                id: BlockType::Air,
                name: "Air",
                is_solid: false,
                is_opaque: false,
                emitted_light: 0,
                hardness_tenths: 0,
                required_tier: ToolTier::Hand,
                preferred_tool: ToolType::Hand,
                drop_table: DropTable::Nothing,
                sound_category: SoundCategory::Silent,
                aabb_offsets_milli: ((0, 0, 0), (1000, 1000, 1000)),
                is_torch: false,
                texture_mapping: BlockTextureMapping::Single(0),
            },
            BlockType::Grass => BlockDefinition {
                id: BlockType::Grass,
                name: "Grass",
                is_solid: true,
                is_opaque: true,
                emitted_light: 0,
                hardness_tenths: 6,
                required_tier: ToolTier::Hand,
                preferred_tool: ToolType::Shovel,
                drop_table: DropTable::SelfDrop,
                sound_category: SoundCategory::Grass,
                aabb_offsets_milli: ((0, 0, 0), (1000, 1000, 1000)),
                is_torch: false,
                texture_mapping: BlockTextureMapping::TopBottomSide { top: 2, bottom: 1, side: 3 },
            },
            BlockType::Stone => BlockDefinition {
                id: BlockType::Stone,
                name: "Stone",
                is_solid: true,
                is_opaque: true,
                emitted_light: 0,
                hardness_tenths: 15,
                required_tier: ToolTier::Wood,
                preferred_tool: ToolType::Pickaxe,
                drop_table: DropTable::SelfDrop,
                sound_category: SoundCategory::Stone,
                aabb_offsets_milli: ((0, 0, 0), (1000, 1000, 1000)),
                is_torch: false,
                texture_mapping: BlockTextureMapping::Single(0),
            },
            BlockType::Dirt => BlockDefinition {
                id: BlockType::Dirt,
                name: "Dirt",
                is_solid: true,
                is_opaque: true,
                emitted_light: 0,
                hardness_tenths: 5,
                required_tier: ToolTier::Hand,
                preferred_tool: ToolType::Shovel,
                drop_table: DropTable::SelfDrop,
                sound_category: SoundCategory::Dirt,
                aabb_offsets_milli: ((0, 0, 0), (1000, 1000, 1000)),
                is_torch: false,
                texture_mapping: BlockTextureMapping::Single(1),
            },
            BlockType::OakLog => BlockDefinition {
                id: BlockType::OakLog,
                name: "Oak Log",
                is_solid: true,
                is_opaque: true,
                emitted_light: 0,
                hardness_tenths: 20,
                required_tier: ToolTier::Hand,
                preferred_tool: ToolType::Axe,
                drop_table: DropTable::SelfDrop,
                sound_category: SoundCategory::Wood,
                aabb_offsets_milli: ((0, 0, 0), (1000, 1000, 1000)),
                is_torch: false,
                texture_mapping: BlockTextureMapping::TopBottomSide { top: 6, bottom: 6, side: 5 },
            },
            BlockType::OakLeaves => BlockDefinition {
                id: BlockType::OakLeaves,
                name: "Oak Leaves",
                is_solid: true,
                is_opaque: false,
                emitted_light: 0,
                hardness_tenths: 2,
                required_tier: ToolTier::Hand,
                preferred_tool: ToolType::Hand,
                drop_table: DropTable::SelfDrop,
                sound_category: SoundCategory::Grass,
                aabb_offsets_milli: ((0, 0, 0), (1000, 1000, 1000)),
                is_torch: false,
                texture_mapping: BlockTextureMapping::Single(7),
            },
            BlockType::Sand => BlockDefinition {
                id: BlockType::Sand,
                name: "Sand",
                is_solid: true,
                is_opaque: true,
                emitted_light: 0,
                hardness_tenths: 5,
                required_tier: ToolTier::Hand,
                preferred_tool: ToolType::Shovel,
                drop_table: DropTable::SelfDrop,
                sound_category: SoundCategory::Sand,
                aabb_offsets_milli: ((0, 0, 0), (1000, 1000, 1000)),
                is_torch: false,
                texture_mapping: BlockTextureMapping::Single(8),
            },
            BlockType::Gravel => BlockDefinition {
                id: BlockType::Gravel,
                name: "Gravel",
                is_solid: true,
                is_opaque: true,
                emitted_light: 0,
                hardness_tenths: 6,
                required_tier: ToolTier::Hand,
                preferred_tool: ToolType::Shovel,
                drop_table: DropTable::SelfDrop,
                sound_category: SoundCategory::Gravel,
                aabb_offsets_milli: ((0, 0, 0), (1000, 1000, 1000)),
                is_torch: false,
                texture_mapping: BlockTextureMapping::Single(9),
            },
            BlockType::CoalOre => BlockDefinition {
                id: BlockType::CoalOre,
                name: "Coal Ore",
                is_solid: true,
                is_opaque: true,
                emitted_light: 0,
                hardness_tenths: 30,
                required_tier: ToolTier::Wood,
                preferred_tool: ToolType::Pickaxe,
                drop_table: DropTable::SelfDrop,
                sound_category: SoundCategory::Stone,
                aabb_offsets_milli: ((0, 0, 0), (1000, 1000, 1000)),
                is_torch: false,
                texture_mapping: BlockTextureMapping::Single(10),
            },
            BlockType::IronOre => BlockDefinition {
                id: BlockType::IronOre,
                name: "Iron Ore",
                is_solid: true,
                is_opaque: true,
                emitted_light: 0,
                hardness_tenths: 30,
                required_tier: ToolTier::Stone,
                preferred_tool: ToolType::Pickaxe,
                drop_table: DropTable::SelfDrop,
                sound_category: SoundCategory::Stone,
                aabb_offsets_milli: ((0, 0, 0), (1000, 1000, 1000)),
                is_torch: false,
                texture_mapping: BlockTextureMapping::Single(11),
            },
            BlockType::Glass => BlockDefinition {
                id: BlockType::Glass,
                name: "Glass",
                is_solid: true,
                is_opaque: false,
                emitted_light: 0,
                hardness_tenths: 3,
                required_tier: ToolTier::Hand,
                preferred_tool: ToolType::Hand,
                drop_table: DropTable::Nothing,
                sound_category: SoundCategory::Glass,
                aabb_offsets_milli: ((0, 0, 0), (1000, 1000, 1000)),
                is_torch: false,
                texture_mapping: BlockTextureMapping::Single(12),
            },
            BlockType::Torch => BlockDefinition {
                id: BlockType::Torch,
                name: "Torch",
                is_solid: false,
                is_opaque: false,
                emitted_light: 15,
                hardness_tenths: 0,
                required_tier: ToolTier::Hand,
                preferred_tool: ToolType::Hand,
                drop_table: DropTable::SelfDrop,
                sound_category: SoundCategory::Wood,
                aabb_offsets_milli: ((375, 0, 375), (625, 625, 625)),
                is_torch: true,
                texture_mapping: BlockTextureMapping::Single(13),
            },
            BlockType::TorchWallN => BlockDefinition {
                id: BlockType::TorchWallN,
                name: "Torch Wall North",
                is_solid: false,
                is_opaque: false,
                emitted_light: 15,
                hardness_tenths: 0,
                required_tier: ToolTier::Hand,
                preferred_tool: ToolType::Hand,
                drop_table: DropTable::SelfDrop,
                sound_category: SoundCategory::Wood,
                aabb_offsets_milli: ((350, 100, 0), (650, 800, 500)),
                is_torch: true,
                texture_mapping: BlockTextureMapping::Single(13),
            },
            BlockType::TorchWallS => BlockDefinition {
                id: BlockType::TorchWallS,
                name: "Torch Wall South",
                is_solid: false,
                is_opaque: false,
                emitted_light: 15,
                hardness_tenths: 0,
                required_tier: ToolTier::Hand,
                preferred_tool: ToolType::Hand,
                drop_table: DropTable::SelfDrop,
                sound_category: SoundCategory::Wood,
                aabb_offsets_milli: ((350, 100, 500), (650, 800, 1000)),
                is_torch: true,
                texture_mapping: BlockTextureMapping::Single(13),
            },
            BlockType::TorchWallE => BlockDefinition {
                id: BlockType::TorchWallE,
                name: "Torch Wall East",
                is_solid: false,
                is_opaque: false,
                emitted_light: 15,
                hardness_tenths: 0,
                required_tier: ToolTier::Hand,
                preferred_tool: ToolType::Hand,
                drop_table: DropTable::SelfDrop,
                sound_category: SoundCategory::Wood,
                aabb_offsets_milli: ((500, 100, 350), (1000, 800, 650)),
                is_torch: true,
                texture_mapping: BlockTextureMapping::Single(13),
            },
            BlockType::TorchWallW => BlockDefinition {
                id: BlockType::TorchWallW,
                name: "Torch Wall West",
                is_solid: false,
                is_opaque: false,
                emitted_light: 15,
                hardness_tenths: 0,
                required_tier: ToolTier::Hand,
                preferred_tool: ToolType::Hand,
                drop_table: DropTable::SelfDrop,
                sound_category: SoundCategory::Wood,
                aabb_offsets_milli: ((0, 100, 350), (500, 800, 650)),
                is_torch: true,
                texture_mapping: BlockTextureMapping::Single(13),
            },
        }
    }

    /// Whether entities collide with this block.
    pub fn is_solid(self) -> (r: bool)
        ensures
            r == block_definition(self).is_solid,
    {
        self.definition().is_solid
    }

    /// Whether this block hides the faces of its neighbours.
    pub fn is_opaque(self) -> (r: bool)
        ensures
            r == block_definition(self).is_opaque,
    {
        self.definition().is_opaque
    }

    /// Light level this block emits.
    pub fn emitted_light(&self) -> (r: u8)
        ensures
            r == block_definition(*self).emitted_light,
    {
        self.definition().emitted_light
    }

    /// Whether this block is one of the torch variants.
    pub fn is_torch(self) -> (r: bool)
        ensures
            r == block_definition(self).is_torch,
    {
        self.definition().is_torch
    }

    /// Collision box offsets inside the voxel, in thousandths of a voxel.
    pub fn get_aabb_offsets_milli(self) -> (r: ((u16, u16, u16), (u16, u16, u16)))
        ensures
            r == block_definition(self).aabb_offsets_milli,
    {
        self.definition().aabb_offsets_milli
    }

    /// Hardness in tenths.
    pub fn hardness_tenths(self) -> (r: u16)
        ensures
            r == block_definition(self).hardness_tenths,
    {
        self.definition().hardness_tenths
    }

    /// Minimum tool tier needed to harvest this block.
    pub fn required_tier(self) -> (r: ToolTier)
        ensures
            r == block_definition(self).required_tier,
    {
        self.definition().required_tier
    }

    /// Tool that mines this block fastest.
    pub fn preferred_tool(self) -> (r: ToolType)
        ensures
            r == block_definition(self).preferred_tool,
    {
        self.definition().preferred_tool
    }

    /// Sound family of this block.
    pub fn sound_category(self) -> (r: SoundCategory)
        ensures
            r == block_definition(self).sound_category,
    {
        self.definition().sound_category
    }

    /// What this block yields when broken.
    pub fn drop_table(self) -> (r: DropTable)
        ensures
            r == block_definition(self).drop_table,
    {
        self.definition().drop_table
    }

    /// How this block picks its face textures.
    pub fn texture_mapping(self) -> (r: BlockTextureMapping)
        ensures
            r == block_definition(self).texture_mapping,
    {
        self.definition().texture_mapping
    }
}

/// Registry handle through which block definitions are looked up.
#[derive(Debug, Clone, Copy, Default)]
pub struct BlockRegistry;

impl BlockRegistry {
    /// The registry entry of a block type.
    pub fn get(&self, block: BlockType) -> (r: BlockDefinition)
        ensures
            r == block_definition(block),
    {
        block.definition()
    }
}

} // verus!
