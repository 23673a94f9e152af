use vstd::prelude::*;
use crate::voxel::BlockType;
use crate::math::IVec3;
use crate::item::{ItemKind, ItemType, item_definition, ItemRegistry};
use crate::world::{WorldManager, in_world, chunk_of};
use crate::world_light::{present, globally_stable, globally_supported, inner_pos_ok, lit_through};
use crate::world::{chunk_key, local_of, remeshed_neighbor};
use crate::world_light::pos_ok;
use crate::fluid::{coords_ok, wake_box, wakes, MAX_FLUID_LEVEL, wake_dir_pos, wake_up_fluids_in_radius};

verus! {

/// The block a torch becomes when placed at `place_pos` against the block at `hit_pos`: standing
/// on a block below it, or hanging on the wall it is placed against; it cannot hang from a
/// ceiling (`None`). Other blocks are placed as they are.
pub open spec fn torch_placement_spec(base: BlockType, diff: IVec3) -> Option<BlockType> {
    if base != BlockType::Torch {
        Some(base)
    } else if diff == (IVec3 { x: 0, y: 1, z: 0 }) {
        Some(BlockType::Torch)
    } else if diff == (IVec3 { x: 1, y: 0, z: 0 }) {
        Some(BlockType::TorchWallW)
    } else if diff == (IVec3 { x: -1i32, y: 0, z: 0 }) {
        Some(BlockType::TorchWallE)
    } else if diff == (IVec3 { x: 0, y: 0, z: 1 }) {
        Some(BlockType::TorchWallN)
    } else if diff == (IVec3 { x: 0, y: 0, z: -1i32 }) {
        Some(BlockType::TorchWallS)
    } else if diff == (IVec3 { x: 0, y: -1i32, z: 0 }) {
        None
    } else {
        Some(BlockType::Torch)
    }
}

/// The block to place for item block `base` at `place_pos`, the air position in front of the
/// block hit at `hit_pos`; `None` when a torch would hang from a ceiling.
pub fn torch_placement(base: BlockType, place_pos: IVec3, hit_pos: IVec3) -> (r: Option<BlockType>)
    requires
        -1000000000 <= place_pos.x <= 1000000000,
        -1000000000 <= place_pos.y <= 1000000000,
        -1000000000 <= place_pos.z <= 1000000000,
        -1000000000 <= hit_pos.x <= 1000000000,
        -1000000000 <= hit_pos.y <= 1000000000,
        -1000000000 <= hit_pos.z <= 1000000000,
    ensures
        r == torch_placement_spec(
            base,
            IVec3 {
                x: (place_pos.x - hit_pos.x) as i32,
                y: (place_pos.y - hit_pos.y) as i32,
                z: (place_pos.z - hit_pos.z) as i32,
            },
        ),
{
    if base != BlockType::Torch {
        return Some(base);
    }
    let diff = IVec3 {
        x: place_pos.x - hit_pos.x,
        y: place_pos.y - hit_pos.y,
        z: place_pos.z - hit_pos.z,
    };
    if diff.x == 0 && diff.y == 1 && diff.z == 0 {
        Some(BlockType::Torch)
    } else if diff.x == 1 && diff.y == 0 && diff.z == 0 {
        Some(BlockType::TorchWallW)
    } else if diff.x == -1 && diff.y == 0 && diff.z == 0 {
        Some(BlockType::TorchWallE)
    } else if diff.x == 0 && diff.y == 0 && diff.z == 1 {
        Some(BlockType::TorchWallN)
    } else if diff.x == 0 && diff.y == 0 && diff.z == -1 {
        Some(BlockType::TorchWallS)
    } else if diff.x == 0 && diff.y == -1 && diff.z == 0 {
        None
    } else {
        Some(BlockType::Torch)
    }
}

/// The hotbar slot after one step of the scroll wheel: up (`direction` 1) selects the slot to
/// the left, down (-1) the one to the right, wrapping around the nine slots.
pub open spec fn scrolled_slot(selected: int, direction: int) -> int {
    ((selected - direction) % 9 + 9) % 9
}

/// The hotbar slot after one step of the scroll wheel.
pub fn next_hotbar_slot(selected: usize, direction: i32) -> (r: usize)
    requires
        selected < 9,
        direction == 1 || direction == -1,
    ensures
        r == scrolled_slot(selected as int, direction as int),
        r < 9,
{
    let new_slot = selected as i32 - direction;
    let r = ((new_slot % 9 + 9) % 9) as usize;
    proof {
        assert(new_slot % 9 == (selected - direction) % 9) by {
            if new_slot >= 0 {
            } else {
                assert(new_slot == -1);
            }
        }
    }
    r
}

/// Colour band of a durability bar.
#[derive(Debug, Clone, Copy, PartialEq, Eq, Structural)]
pub enum DurabilityBand {
    Green,
    Yellow,
    Red,
}

/// The durability bar of a worn tool: it is filled to the fraction `remaining / max` of its
/// length, in the colour of its band.
#[derive(Debug, Clone, Copy, PartialEq, Eq, Structural)]
pub struct DurabilityBar {
    pub remaining: u32,
    pub max: u32,
    pub band: DurabilityBand,
}

/// What a hotbar slot shows: a 3D preview of a block item, a 2D icon of a tool or material, the
/// count when more than one, and the durability bar of a worn tool.
#[derive(Debug, Clone, Copy, PartialEq, Eq, Structural)]
pub struct SlotView {
    pub show_block_preview: bool,
    pub show_icon: bool,
    pub show_count: bool,
    pub durability_bar: Option<DurabilityBar>,
}

/// What a hotbar slot holding `count` items of type `item` (with `durability` left, for tools)
/// shows. The bar is green above half, yellow down to a fifth, red below.
pub open spec fn slot_view(item: ItemType, count: u32, durability: Option<u32>) -> SlotView {
    let def = item_definition(item);
    let is_block = def matches Some(d) && d.kind matches ItemKind::Block(b) && b != BlockType::Air;
    let is_icon = def matches Some(d) && (d.kind is Tool || d.kind is Material);
    let max = match def {
        Some(d) => match d.kind {
            ItemKind::Tool { max_durability, .. } => Some(max_durability as u32),
            _ => None,
        },
        None => None,
    };
    let bar = match (durability, max) {
        (Some(dur), Some(mx)) => if mx > 0 && dur < mx {
            Some(
                DurabilityBar {
                    remaining: dur,
                    max: mx,
                    band: if 2 * dur > mx {
                        DurabilityBand::Green
                    } else if 5 * dur >= mx {
                        DurabilityBand::Yellow
                    } else {
                        DurabilityBand::Red
                    },
                },
            )
        } else {
            None
        },
        _ => None,
    };
    SlotView { show_block_preview: is_block, show_icon: is_icon, show_count: count > 1, durability_bar: bar }
}

/// What a hotbar slot holding `count` items of type `item` shows.
pub fn hotbar_slot_view(item: ItemType, count: u32, durability: Option<u32>) -> (r: SlotView)
    ensures
        r == slot_view(item, count, durability),
{
    let def = ItemRegistry.get(item);
    let is_block = match def {
        Some(d) => match d.kind {
            ItemKind::Block(b) => b != BlockType::Air,
            _ => false,
        },
        None => false,
    };
    let is_icon = match def {
        Some(d) => match d.kind {
            ItemKind::Tool { .. } => true,
            ItemKind::Material => true,
            _ => false,
        },
        None => false,
    };
    let max: Option<u32> = match def {
        Some(d) => match d.kind {
            ItemKind::Tool { max_durability, .. } => Some(max_durability as u32),
            _ => None,
        },
        None => None,
    };
    let bar = match (durability, max) {
        (Some(dur), Some(mx)) => {
            if mx > 0 && dur < mx {
                let band = if 2 * (dur as u64) > mx as u64 {
                    DurabilityBand::Green
                } else if 5 * (dur as u64) >= mx as u64 {
                    DurabilityBand::Yellow
                } else {
                    DurabilityBand::Red
                };
                Some(DurabilityBar { remaining: dur, max: mx, band })
            } else {
                None
            }
        },
        _ => None,
    };
    SlotView { show_block_preview: is_block, show_icon: is_icon, show_count: count > 1, durability_bar: bar }
}


impl WorldManager {
    /// Breaks the block at `block_pos`: it becomes air (see `set_block_global`, with the column
    /// surface `hills_surface_y` for hill worlds), and the fluid around it is woken. Returns the
    /// block that was there, and the chunk to create an entity for, if any.
    pub fn break_block(&mut self, block_pos: IVec3, hills_surface_y: i32) -> (r: (BlockType, Option<IVec3>))
        requires
            old(self).wf(),
            coords_ok(block_pos, 8),
        ensures
            final(self).wf(),
            r.0 == old(self).block_at(block_pos),
            r.1 is None,
            in_world(block_pos) && present(*old(self), block_pos) ==> {
                &&& forall|p: IVec3|
                    #[trigger] final(self).block_at(p) == if p == block_pos {
                        BlockType::Air
                    } else {
                        old(self).block_at(p)
                    }
                &&& final(self).light_at(block_pos) == crate::world_edit::opening_light(
                    *old(self),
                    block_pos,
                    crate::world_edit::surface_for(old(self).world_type, hills_surface_y),
                )
                &&& globally_stable(*final(self), block_pos)
                &&& forall|p: IVec3|
                    p != block_pos ==> #[trigger] final(self).light_at(p) >= old(self).light_at(p)
                &&& forall|p: IVec3|
                    p != block_pos && #[trigger] final(self).light_at(p) != old(self).light_at(p)
                        ==> final(self).light_at(p) < final(self).light_at(block_pos)
                        && globally_supported(*final(self), p)
                &&& forall|p: IVec3|
                    globally_stable(*old(self), p) ==> #[trigger] globally_stable(*final(self), p)
                &&& forall|p: IVec3|
                    #[trigger] final(self).light_at(p) != old(self).light_at(p) ==> in_world(p)
                        && present(*final(self), p) && globally_stable(*final(self), p)
                &&& final(self).dirty_chunks_for_meshing@.contains(chunk_key(chunk_of(block_pos)))
                &&& forall|k: u128|
                    remeshed_neighbor(*old(self), chunk_of(block_pos), local_of(block_pos), false, k)
                        ==> #[trigger] final(self).dirty_chunks_for_meshing@.contains(k)
            },
            old(self).dirty_chunks_for_meshing@.subset_of(final(self).dirty_chunks_for_meshing@),
            !(in_world(block_pos) && present(*old(self), block_pos)) ==> forall|p: IVec3|
                #[trigger] final(self).block_at(p) == old(self).block_at(p),
            forall|p: IVec3| #[trigger] final(self).fluid_at(p) == old(self).fluid_at(p),
            final(self).fluid_queue@ == old(self).fluid_queue@ + wake_box(block_pos).filter(
                |p: IVec3| wakes(*final(self), p),
            ),
    {
        let old_block = self.get_block_global(block_pos);
        let spawn = self.set_block_global(block_pos, BlockType::Air, hills_surface_y);
        let ghost mid = *self;
        wake_up_fluids_in_radius(self, block_pos);
        proof {
            let f1 = |p: IVec3| wakes(mid, p);
            let f2 = |p: IVec3| wakes(*self, p);
            assert forall|p: IVec3| #[trigger] f1(p) == f2(p) by {
                assert(mid.block_at(p) == self.block_at(p));
                assert(mid.fluid_at(p) == self.fluid_at(p));
            }
            assert(f1 =~= f2);
            assert forall|p: IVec3| #[trigger] self.block_at(p) == mid.block_at(p) by {}
            assert forall|p: IVec3| #[trigger] self.fluid_at(p) == mid.fluid_at(p) by {}
            assert forall|p: IVec3| #[trigger] self.light_at(p) == mid.light_at(p) by {}
            assert forall|p: IVec3| globally_stable(mid, p) implies #[trigger] globally_stable(*self, p) by {
                assert forall|q: IVec3| #[trigger] self.light_at(q) == mid.light_at(q) by {}
            }
            assert forall|p: IVec3| globally_supported(mid, p) implies #[trigger] globally_supported(*self, p) by {
                let d = choose|d: int| 0 <= d < 6 && mid.light_at(#[trigger] crate::world_light::gnbr(p, d)) >= mid.light_at(p) + 1;
                assert(self.light_at(crate::world_light::gnbr(p, d)) == mid.light_at(crate::world_light::gnbr(p, d)));
            }
        }
        (old_block, spawn)
    }

    /// Places `block` at `place_pos` (see `set_block_global`) and wakes the fluid around it.
    /// Returns the chunk to create an entity for, if any.
    pub fn place_block(&mut self, place_pos: IVec3, block: BlockType, hills_surface_y: i32) -> (r: Option<IVec3>)
        requires
            old(self).wf(),
            coords_ok(place_pos, 8),
            block != BlockType::Air,
        ensures
            final(self).wf(),
            in_world(place_pos) ==> {
                &&& forall|p: IVec3|
                    #[trigger] final(self).block_at(p) == if p == place_pos {
                        block
                    } else {
                        old(self).block_at(p)
                    }
                &&& final(self).light_at(place_pos) == 0
                &&& forall|p: IVec3|
                    #[trigger] final(self).light_at(p) != old(self).light_at(p) ==> in_world(p)
                        && present(*final(self), p)
                &&& forall|p: IVec3|
                    (present(*old(self), place_pos) || chunk_of(p) != chunk_of(place_pos))
                        && #[trigger] final(self).light_at(p) != old(self).light_at(p)
                        ==> globally_stable(*final(self), p)
                &&& forall|p: IVec3|
                    p != place_pos && (present(*old(self), place_pos) || chunk_of(p) != chunk_of(
                        place_pos,
                    )) && #[trigger] final(self).light_at(p) != old(self).light_at(p)
                        ==> final(self).light_at(p) == 0 || globally_supported(*final(self), p)
                &&& forall|p: IVec3|
                    inner_pos_ok(p) && (present(*old(self), place_pos) || chunk_of(p) != chunk_of(
                        place_pos,
                    )) && globally_stable(*old(self), p) ==> #[trigger] globally_stable(*final(self), p)
                &&& present(*old(self), place_pos) ==> forall|p: IVec3|
                    p != place_pos && #[trigger] final(self).light_at(p) < old(self).light_at(p)
                        ==> lit_through(*old(self), place_pos, p)
                &&& !present(*old(self), place_pos) ==> forall|p: IVec3|
                    chunk_of(p) == chunk_of(place_pos) && p != place_pos
                        ==> #[trigger] final(self).light_at(p) == if chunk_of(place_pos).y >= 2 {
                        15u8
                    } else {
                        0u8
                    }
                &&& final(self).dirty_chunks_for_meshing@.contains(chunk_key(chunk_of(place_pos)))
                &&& forall|k: u128|
                    remeshed_neighbor(
                        *old(self),
                        chunk_of(place_pos),
                        local_of(place_pos),
                        !present(*old(self), place_pos),
                        k,
                    ) ==> #[trigger] final(self).dirty_chunks_for_meshing@.contains(k)
                &&& r == if final(self).chunks@[crate::world::chunk_key(chunk_of(place_pos))].entity is None {
                    Some(chunk_of(place_pos))
                } else {
                    None
                }
            },
            !in_world(place_pos) ==> r is None && forall|p: IVec3|
                #[trigger] final(self).block_at(p) == old(self).block_at(p),
            old(self).dirty_chunks_for_meshing@.subset_of(final(self).dirty_chunks_for_meshing@),
            forall|p: IVec3| #[trigger] final(self).fluid_at(p) == old(self).fluid_at(p),
            final(self).fluid_queue@ == old(self).fluid_queue@ + wake_box(place_pos).filter(
                |p: IVec3| wakes(*final(self), p),
            ),
    {
        let spawn = self.set_block_global(place_pos, block, hills_surface_y);
        let ghost mid = *self;
        wake_up_fluids_in_radius(self, place_pos);
        proof {
            let f1 = |p: IVec3| wakes(mid, p);
            let f2 = |p: IVec3| wakes(*self, p);
            assert forall|p: IVec3| #[trigger] f1(p) == f2(p) by {
                assert(mid.block_at(p) == self.block_at(p));
                assert(mid.fluid_at(p) == self.fluid_at(p));
            }
            assert(f1 =~= f2);
            assert forall|p: IVec3| #[trigger] self.block_at(p) == mid.block_at(p) by {}
            assert forall|p: IVec3| #[trigger] self.fluid_at(p) == mid.fluid_at(p) by {}
            assert forall|p: IVec3| #[trigger] self.light_at(p) == mid.light_at(p) by {}
            assert forall|p: IVec3| globally_stable(mid, p) implies #[trigger] globally_stable(*self, p) by {
                assert forall|q: IVec3| #[trigger] self.light_at(q) == mid.light_at(q) by {}
            }
            assert forall|p: IVec3| globally_supported(mid, p) implies #[trigger] globally_supported(*self, p) by {
                let d = choose|d: int| 0 <= d < 6 && mid.light_at(#[trigger] crate::world_light::gnbr(p, d)) >= mid.light_at(p) + 1;
                assert(self.light_at(crate::world_light::gnbr(p, d)) == mid.light_at(crate::world_light::gnbr(p, d)));
            }
        }
        spawn
    }

    /// Adds or removes a fluid source at `pos`: fluid there is removed, otherwise a full source
    /// appears; the position and its six neighbours (above, below, +X, -X, +Z, -Z) are queued
    /// for fluid updates.
    pub fn toggle_fluid_source(&mut self, pos: IVec3)
        requires
            old(self).wf(),
            coords_ok(pos, 2),
        ensures
            final(self).wf(),
            forall|p: IVec3| #[trigger] final(self).block_at(p) == old(self).block_at(p),
            forall|p: IVec3|
                #[trigger] final(self).fluid_at(p) == if p == pos && in_world(pos) {
                    if old(self).fluid_at(pos) > 0 {
                        0u8
                    } else {
                        MAX_FLUID_LEVEL | 0x80u8
                    }
                } else {
                    old(self).fluid_at(p)
                },
            final(self).fluid_queue@ == old(self).fluid_queue@ + seq![pos] + Seq::new(
                6,
                |j: int| wake_dir_pos(pos, j),
            ),
    {
        if self.get_fluid_global(pos) > 0 {
            self.set_fluid_global(pos, 0);
        } else {
            self.set_fluid_global(pos, MAX_FLUID_LEVEL | 0x80);
        }
        let ghost q0 = self.fluid_queue@;
        let ghost w1 = *self;
        self.fluid_queue.push_back(pos);
        self.fluid_queue.push_back(IVec3 { x: pos.x, y: pos.y + 1, z: pos.z });
        self.fluid_queue.push_back(IVec3 { x: pos.x, y: pos.y - 1, z: pos.z });
        self.fluid_queue.push_back(IVec3 { x: pos.x + 1, y: pos.y, z: pos.z });
        self.fluid_queue.push_back(IVec3 { x: pos.x - 1, y: pos.y, z: pos.z });
        self.fluid_queue.push_back(IVec3 { x: pos.x, y: pos.y, z: pos.z + 1 });
        self.fluid_queue.push_back(IVec3 { x: pos.x, y: pos.y, z: pos.z - 1 });
        proof {
            assert(self.fluid_queue@ =~= q0 + seq![pos] + Seq::new(6, |j: int| wake_dir_pos(pos, j)));
            assert forall|p: IVec3| #[trigger] self.block_at(p) == w1.block_at(p) by {}
            assert forall|p: IVec3| #[trigger] self.fluid_at(p) == w1.fluid_at(p) by {}
        }
    }
}


/// Scrolling the hotbar one step up and then one step down, or down then up, selects the slot
/// the player started from.
pub proof fn law_hotbar_scroll_round_trip(selected: int, direction: int)
    requires
        0 <= selected < 9,
        direction == 1 || direction == -1,
    ensures
        scrolled_slot(scrolled_slot(selected, direction), -direction) == selected,
{
    let a = scrolled_slot(selected, direction);
    assert(0 <= a < 9);
    if direction == 1 {
        if selected == 0 {
            assert(a == 8);
        } else {
            assert(a == selected - 1);
        }
    } else {
        if selected == 8 {
            assert(a == 0);
        } else {
            assert(a == selected + 1);
        }
    }
}


/// A stack of items in an inventory slot: its item type, how many, and the wear left of a tool.
#[derive(Debug, Clone, Copy, PartialEq, Eq, Structural)]
pub struct ItemStack {
    pub item_type: ItemType,
    pub count: u32,
    pub durability: Option<u32>,
}

/// Wear a fresh stack of an item type starts with: a tool's full durability, nothing otherwise.
pub open spec fn fresh_durability(item: ItemType) -> Option<u32> {
    match item_definition(item) {
        Some(d) => match d.kind {
            ItemKind::Tool { max_durability, .. } => Some(max_durability as u32),
            _ => None,
        },
        None => None,
    }
}

impl ItemStack {
    /// A stack of `count` items of a type; a tool starts unworn.
    pub fn new(item_type: ItemType, count: u32) -> (r: Self)
        ensures
            r == (ItemStack { item_type, count, durability: fresh_durability(item_type) }),
    {
        let durability = match ItemRegistry.get(item_type) {
            Some(d) => match d.kind {
                ItemKind::Tool { max_durability, .. } => Some(max_durability as u32),
                _ => None,
            },
            None => None,
        };
        ItemStack { item_type, count, durability }
    }
}

/// A slot after taking `n` items from it: emptied when none are left.
pub open spec fn after_consume(slot: Option<ItemStack>, n: u32) -> Option<ItemStack> {
    match slot {
        Some(s) => if s.count <= n {
            None
        } else {
            Some(ItemStack { count: (s.count - n) as u32, ..s })
        },
        None => None,
    }
}

/// A slot after its tool wears by `n`: emptied when the tool breaks; items without wear keep.
pub open spec fn after_damage(slot: Option<ItemStack>, n: u32) -> Option<ItemStack> {
    match slot {
        Some(s) => match s.durability {
            Some(d) => if d <= n {
                None
            } else {
                Some(ItemStack { durability: Some((d - n) as u32), ..s })
            },
            None => Some(s),
        },
        None => None,
    }
}

/// The slots of an inventory and which one is selected.
pub struct Inventory {
    pub slots: Vec<Option<ItemStack>>,
    pub selected_slot: usize,
}

impl Inventory {
    /// The stack in the selected slot, if any.
    pub fn selected_item(&self) -> (r: Option<ItemStack>)
        ensures
            r == if self.selected_slot < self.slots@.len() {
                self.slots@[self.selected_slot as int]
            } else {
                None
            },
    {
        if self.selected_slot < self.slots.len() {
            self.slots[self.selected_slot]
        } else {
            None
        }
    }

    /// Takes `n` items from the selected slot; the slot empties when none are left.
    pub fn consume_selected(&mut self, n: u32)
        ensures
            final(self).selected_slot == old(self).selected_slot,
            final(self).slots@ == if old(self).selected_slot < old(self).slots@.len() {
                old(self).slots@.update(
                    old(self).selected_slot as int,
                    after_consume(old(self).slots@[old(self).selected_slot as int], n),
                )
            } else {
                old(self).slots@
            },
    {
        if self.selected_slot < self.slots.len() {
            let i = self.selected_slot;
            let next = match self.slots[i] {
                Some(s) => if s.count <= n {
                    None
                } else {
                    Some(ItemStack { count: s.count - n, ..s })
                },
                None => None,
            };
            self.slots.set(i, next);
        }
    }

    /// Wears the tool in the selected slot by `n`; the slot empties when the tool breaks.
    pub fn damage_selected_tool(&mut self, n: u32)
        ensures
            final(self).selected_slot == old(self).selected_slot,
            final(self).slots@ == if old(self).selected_slot < old(self).slots@.len() {
                old(self).slots@.update(
                    old(self).selected_slot as int,
                    after_damage(old(self).slots@[old(self).selected_slot as int], n),
                )
            } else {
                old(self).slots@
            },
    {
        if self.selected_slot < self.slots.len() {
            let i = self.selected_slot;
            let next = match self.slots[i] {
                Some(s) => match s.durability {
                    Some(d) => if d <= n {
                        None
                    } else {
                        Some(ItemStack { durability: Some(d - n), ..s })
                    },
                    None => Some(s),
                },
                None => None,
            };
            self.slots.set(i, next);
        }
    }
}

} // verus!
