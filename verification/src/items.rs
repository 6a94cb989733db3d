//! Items: their configs and flags, inventory slots, where an item lies and how
//! that is put on the wire, and the rules that choose a stack's sprite and label.

use vstd::prelude::*;

use std::sync::Arc;

use crate::appearance::sprite::SpriteConfig;
use crate::conf::{CARRIED_SEARCH_FLAG, CONTAINER_COORD_FLAG, INVENTORY_COORD_FLAG};
use crate::map::draw_order::{DrawLayer, DrawRank};
use crate::map::position::Position;
use crate::text::{decimal, decimal_text};

verus! {

pub type ItemId = u16;

pub type ContainerId = u16;

#[derive(Clone, Copy, Debug, PartialEq, Eq, Hash, Structural)]
pub enum InventorySlot {
    Head,
    Amulet,
    Chest,
    Backpack,
    LeftHand,
    RightHand,
    BothHands,
    Ring,
    Legs,
    Feet,
    Trinket,
}

/// The wire id of each inventory slot.
pub open spec fn slot_id(s: InventorySlot) -> u16 {
    match s {
        InventorySlot::BothHands => 0,
        InventorySlot::Head => 1,
        InventorySlot::Amulet => 2,
        InventorySlot::Backpack => 3,
        InventorySlot::Chest => 4,
        InventorySlot::RightHand => 5,
        InventorySlot::LeftHand => 6,
        InventorySlot::Legs => 7,
        InventorySlot::Feet => 8,
        InventorySlot::Ring => 9,
        InventorySlot::Trinket => 10,
    }
}

impl InventorySlot {
    pub fn as_id(&self) -> (id: u16)
        ensures
            id == slot_id(*self),
    {
        match self {
            InventorySlot::BothHands => 0,
            InventorySlot::Head => 1,
            InventorySlot::Amulet => 2,
            InventorySlot::Backpack => 3,
            InventorySlot::Chest => 4,
            InventorySlot::RightHand => 5,
            InventorySlot::LeftHand => 6,
            InventorySlot::Legs => 7,
            InventorySlot::Feet => 8,
            InventorySlot::Ring => 9,
            InventorySlot::Trinket => 10,
        }
    }

    /// The slot with wire id `id`, if there is one.
    pub fn from_id(id: u8) -> (s: Option<InventorySlot>)
        ensures
            s matches Some(slot) ==> slot_id(slot) == id,
            s is None <==> id > 10,
    {
        match id {
            0 => Some(InventorySlot::BothHands),
            1 => Some(InventorySlot::Head),
            2 => Some(InventorySlot::Amulet),
            3 => Some(InventorySlot::Backpack),
            4 => Some(InventorySlot::Chest),
            5 => Some(InventorySlot::RightHand),
            6 => Some(InventorySlot::LeftHand),
            7 => Some(InventorySlot::Legs),
            8 => Some(InventorySlot::Feet),
            9 => Some(InventorySlot::Ring),
            10 => Some(InventorySlot::Trinket),
            _ => None,
        }
    }
}

/// Decoding a slot's wire id gives the slot back, and every id up to 10 is
/// some slot's.
pub proof fn lemma_slot_ids_round_trip(s: InventorySlot, id: u16)
    ensures
        slot_id(s) <= 10,
        id <= 10 ==> exists|t: InventorySlot| slot_id(t) == id,
        forall|t: InventorySlot| slot_id(t) == slot_id(s) ==> t == s,
{
    if id <= 10 {
        if id == 0 { assert(slot_id(InventorySlot::BothHands) == id); }
        else if id == 1 { assert(slot_id(InventorySlot::Head) == id); }
        else if id == 2 { assert(slot_id(InventorySlot::Amulet) == id); }
        else if id == 3 { assert(slot_id(InventorySlot::Backpack) == id); }
        else if id == 4 { assert(slot_id(InventorySlot::Chest) == id); }
        else if id == 5 { assert(slot_id(InventorySlot::RightHand) == id); }
        else if id == 6 { assert(slot_id(InventorySlot::LeftHand) == id); }
        else if id == 7 { assert(slot_id(InventorySlot::Legs) == id); }
        else if id == 8 { assert(slot_id(InventorySlot::Feet) == id); }
        else if id == 9 { assert(slot_id(InventorySlot::Ring) == id); }
        else { assert(slot_id(InventorySlot::Trinket) == id); }
    }
}

/// Where an item lies, as the client names it.
#[allow(inconsistent_fields)]
#[derive(Clone, Copy, Debug, PartialEq, Eq, Structural)]
pub enum ItemPlacement {
    OnMap { position: Position, index: usize },
    Container { container_id: ContainerId, slot: usize },
    Inventory { slot: InventorySlot },
    /// Anywhere on the player: the server searches what it carries.
    Carried,
}

impl ItemPlacement {
    /// The placement encoded as the wire's position triple.
    pub fn to_wire_position(&self) -> (p: Position)
        ensures
            p == match *self {
                ItemPlacement::OnMap { position, .. } => position,
                ItemPlacement::Container { container_id, slot } => Position {
                    x: CONTAINER_COORD_FLAG,
                    y: container_id,
                    z: slot as u8,
                },
                ItemPlacement::Inventory { slot } => Position { x: INVENTORY_COORD_FLAG, y: slot_id(slot), z: 0 },
                ItemPlacement::Carried => Position { x: INVENTORY_COORD_FLAG, y: CARRIED_SEARCH_FLAG, z: 0 },
            },
    {
        match self {
            ItemPlacement::OnMap { position, .. } => *position,
            ItemPlacement::Container { container_id, slot } => Position {
                x: CONTAINER_COORD_FLAG,
                y: *container_id,
                z: *slot as u8,
            },
            ItemPlacement::Inventory { slot } => Position { x: INVENTORY_COORD_FLAG, y: slot.as_id(), z: 0 },
            ItemPlacement::Carried => Position { x: INVENTORY_COORD_FLAG, y: CARRIED_SEARCH_FLAG, z: 0 },
        }
    }

    /// The stack index the wire carries beside the position: only a map
    /// placement has one.
    pub fn wire_stack_index(&self) -> (i: u8)
        ensures
            i == match *self {
                ItemPlacement::OnMap { index, .. } => index as u8,
                _ => 0u8,
            },
    {
        match self {
            ItemPlacement::OnMap { index, .. } => *index as u8,
            _ => 0,
        }
    }
}

#[derive(Clone, Copy, Debug, PartialEq, Eq, Structural)]
pub enum ItemFlag {
    Ground,
    Border,
    Container,
    Cumulative,
    Top,
    Unpass,
    Unmove,
    Take,
    FullBank,
    Bottom,
    Usable,
    MultiUse,
    ForceUse,
    Avoid,
    BlockSight,
    LiquidPool,
    LiquidContainer,
    /// Lies flat on the floor, a corpse being the case that matters.
    LyingObject,
}

#[derive(Debug)]
pub struct ItemConfig {
    pub id: ItemId,
    pub flags: Vec<ItemFlag>,
    pub friction: Option<u16>,
    pub slot: Option<InventorySlot>,
    pub minimap_color: Option<u8>,
    pub elevation: Option<u8>,
}

pub open spec fn spec_has_flag(config: ItemConfig, flag: ItemFlag) -> bool {
    config.flags@.contains(flag)
}

impl ItemConfig {
    pub fn has_flag(&self, flag: ItemFlag) -> (b: bool)
        ensures
            b == spec_has_flag(*self, flag),
    {
        let mut i: usize = 0;
        while i < self.flags.len()
            invariant
                i <= self.flags@.len(),
                forall|j: int| 0 <= j < i ==> self.flags@[j] != flag,
            decreases self.flags@.len() - i,
        {
            if self.flags[i] == flag {
                return true;
            }
            i = i + 1;
        }
        false
    }
}

/// Two configs are the same item type when their ids agree.
impl PartialEq for ItemConfig {
    fn eq(&self, other: &Self) -> (r: bool) {
        self.id == other.id
    }
}

impl vstd::std_specs::cmp::PartialEqSpecImpl for ItemConfig {
    open spec fn obeys_eq_spec() -> bool {
        true
    }

    open spec fn eq_spec(&self, other: &Self) -> bool {
        self.id == other.id
    }
}

impl Eq for ItemConfig {
}

#[derive(Clone, Debug)]
pub struct Item {
    pub config: Arc<ItemConfig>,
    pub amount: u32,
}

/// Two items are equal when they are of one item type and amount.
impl PartialEq for Item {
    fn eq(&self, other: &Self) -> (r: bool) {
        self.config.id == other.config.id && self.amount == other.amount
    }
}

impl vstd::std_specs::cmp::PartialEqSpecImpl for Item {
    open spec fn obeys_eq_spec() -> bool {
        true
    }

    open spec fn eq_spec(&self, other: &Self) -> bool {
        self.config.id == other.config.id && self.amount == other.amount
    }
}

impl Eq for Item {
}

pub open spec fn spec_countable_stack(item: Item) -> bool {
    spec_has_flag(*item.config, ItemFlag::Cumulative) && item.amount > 1
}

/// The colour grid cell a fluid's colour draws from.
pub open spec fn spec_fluid_colour(fluid: u8) -> u32 {
    if fluid == 1 { 1 }
    else if fluid == 2 { 7 }
    else if fluid == 3 { 3 }
    else if fluid == 4 { 3 }
    else if fluid == 5 { 2 }
    else if fluid == 6 { 4 }
    else if fluid == 7 { 3 }
    else if fluid == 8 { 5 }
    else if fluid == 9 { 6 }
    else if fluid == 10 { 7 }
    else if fluid == 11 { 2 }
    else if fluid == 12 { 5 }
    else if fluid == 13 { 3 }
    else if fluid == 14 { 5 }
    else if fluid == 15 { 6 }
    else if fluid == 16 { 3 }
    else if fluid == 17 { 3 }
    else { 0 }
}

/// The fluid's colour, laid out four to a row, wrapped into the sprite's grid.
pub open spec fn spec_fluid_cell(fluid: u8, pattern_x: u32, pattern_y: u32) -> (u32, u32) {
    let colour = spec_fluid_colour(fluid);
    (((colour % 4) % pattern_x) as u32, (((colour / 4) % 4) % pattern_y) as u32)
}

/// The colour a fluid type is drawn in.
pub fn fluid_colour(fluid: u8) -> (c: u32)
    ensures
        c == spec_fluid_colour(fluid),
        c < 8,
{
    match fluid {
        1 => 1,
        2 => 7,
        3 => 3,
        4 => 3,
        5 => 2,
        6 => 4,
        7 => 3,
        8 => 5,
        9 => 6,
        10 => 7,
        11 => 2,
        12 => 5,
        13 => 3,
        14 => 5,
        15 => 6,
        16 => 3,
        17 => 3,
        _ => 0,
    }
}

/// The pattern cell of a splash or fluid container holding `fluid`.
pub fn fluid_cell(fluid: u8, pattern_x: u32, pattern_y: u32) -> (cell: (u32, u32))
    requires
        pattern_x > 0,
        pattern_y > 0,
    ensures
        cell == spec_fluid_cell(fluid, pattern_x, pattern_y),
{
    let colour = fluid_colour(fluid);
    ((colour % 4) % pattern_x, ((colour / 4) % 4) % pattern_y)
}

/// The pattern an item's own count or contents choose.
pub open spec fn spec_intrinsic_patterns(item: Item, sprite: SpriteConfig) -> Option<(u32, u32, u32)> {
    if spec_has_flag(*item.config, ItemFlag::Cumulative) && sprite.pattern_x == 4 && sprite.pattern_y == 2 {
        Some(
            if item.amount < 5 {
                ((if item.amount >= 1 { item.amount - 1 } else { 0 }) as u32, 0u32, 0u32)
            } else if item.amount < 10 {
                (0u32, 1u32, 0u32)
            } else if item.amount < 25 {
                (1u32, 1u32, 0u32)
            } else if item.amount < 50 {
                (2u32, 1u32, 0u32)
            } else {
                (3u32, 1u32, 0u32)
            },
        )
    } else if spec_has_flag(*item.config, ItemFlag::LiquidPool) || spec_has_flag(
        *item.config,
        ItemFlag::LiquidContainer,
    ) {
        let cell = spec_fluid_cell(item.amount as u8, sprite.pattern_x, sprite.pattern_y);
        Some((cell.0, cell.1, 0u32))
    } else {
        None
    }
}

/// A cumulative item drawn from a four-by-two sprite shows the pile for its
/// count: one to four items each their own cell in the first row (none shows as
/// one), then in the second row 5-9, 10-24, 25-49 and 50 or more.
pub proof fn lemma_a_stack_shows_the_pile_for_its_count(item: Item, sprite: SpriteConfig)
    requires
        spec_has_flag(*item.config, ItemFlag::Cumulative),
        sprite.pattern_x == 4,
        sprite.pattern_y == 2,
    ensures
        item.amount == 0 ==> spec_intrinsic_patterns(item, sprite) == Some((0u32, 0u32, 0u32)),
        1 <= item.amount < 5 ==> spec_intrinsic_patterns(item, sprite) == Some(((item.amount - 1) as u32, 0u32, 0u32)),
        5 <= item.amount < 10 ==> spec_intrinsic_patterns(item, sprite) == Some((0u32, 1u32, 0u32)),
        10 <= item.amount < 25 ==> spec_intrinsic_patterns(item, sprite) == Some((1u32, 1u32, 0u32)),
        25 <= item.amount < 50 ==> spec_intrinsic_patterns(item, sprite) == Some((2u32, 1u32, 0u32)),
        50 <= item.amount ==> spec_intrinsic_patterns(item, sprite) == Some((3u32, 1u32, 0u32)),
{
}

impl Item {
    pub fn new(config: Arc<ItemConfig>, amount: u32) -> (item: Item)
        ensures
            item.config == config,
            item.amount == amount,
    {
        Item { config, amount }
    }

    /// Whether `amount` is a countable number of items greater than one. On a
    /// liquid the same byte is the fluid type, so only a cumulative item counts.
    pub fn is_countable_stack(&self) -> (b: bool)
        ensures
            b == spec_countable_stack(*self),
    {
        self.config.has_flag(ItemFlag::Cumulative) && self.amount > 1
    }

    /// The pattern chosen by the item rather than by where it lies: a stack's
    /// count tier, or a fluid's colour.
    pub fn intrinsic_patterns(&self, sprite: &SpriteConfig) -> (p: Option<(u32, u32, u32)>)
        requires
            sprite.pattern_x > 0,
            sprite.pattern_y > 0,
        ensures
            p == spec_intrinsic_patterns(*self, *sprite),
    {
        if self.config.has_flag(ItemFlag::Cumulative) && sprite.pattern_x == 4 && sprite.pattern_y == 2 {
            return Some(
                if self.amount < 5 {
                    (self.amount.saturating_sub(1), 0, 0)
                } else if self.amount < 10 {
                    (0, 1, 0)
                } else if self.amount < 25 {
                    (1, 1, 0)
                } else if self.amount < 50 {
                    (2, 1, 0)
                } else {
                    (3, 1, 0)
                },
            );
        }
        if self.config.has_flag(ItemFlag::LiquidPool) || self.config.has_flag(ItemFlag::LiquidContainer) {
            let (x, y) = fluid_cell(self.amount as u8, sprite.pattern_x, sprite.pattern_y);
            return Some((x, y, 0));
        }
        None
    }

    /// The pattern of an item on the map: its intrinsic pattern if it has one,
    /// else the tile's coordinates wrapped into the sprite's grid.
    pub fn get_patterns(&self, pos: &Position, sprite: &SpriteConfig) -> (p: (u32, u32, u32))
        requires
            sprite.pattern_x > 0,
            sprite.pattern_y > 0,
            sprite.pattern_z > 0,
        ensures
            p == match spec_intrinsic_patterns(*self, *sprite) {
                Some(q) => q,
                None => (
                    (pos.x as u32 % sprite.pattern_x) as u32,
                    (pos.y as u32 % sprite.pattern_y) as u32,
                    (pos.z as u32 % sprite.pattern_z) as u32,
                ),
            },
    {
        if let Some(patterns) = self.intrinsic_patterns(sprite) {
            return patterns;
        }
        (pos.x as u32 % sprite.pattern_x, pos.y as u32 % sprite.pattern_y, pos.z as u32 % sprite.pattern_z)
    }
}

/// A liquid's pattern depends on its contents alone, never on where it lies.
pub proof fn lemma_liquid_pattern_ignores_position(item: Item, sprite: SpriteConfig)
    requires
        spec_has_flag(*item.config, ItemFlag::LiquidPool) || spec_has_flag(*item.config, ItemFlag::LiquidContainer),
    ensures
        spec_intrinsic_patterns(item, sprite) is Some,
{
}

/// The largest amount of `item` the wire's one-byte count can name.
pub fn wire_amount(item: &Item) -> (a: u8)
    ensures
        a == if item.amount < 255 { item.amount as u8 } else { 255u8 },
{
    if item.amount < 255 {
        item.amount as u8
    } else {
        255
    }
}

/// Where an item draws: which whole-floor pass and where within its tile. The
/// tests run in this order: a blood pool carries both `Bottom` and `LiquidPool`,
/// and must rank with the corpse it lies beside, not with the walls.
pub open spec fn spec_placement(config: ItemConfig) -> (DrawRank, DrawLayer) {
    if spec_has_flag(config, ItemFlag::Top) {
        (DrawRank::Standing, DrawLayer::Top)
    } else if spec_has_flag(config, ItemFlag::Ground) {
        (DrawRank::Ground, DrawLayer::Ground)
    } else if spec_has_flag(config, ItemFlag::Border) {
        (DrawRank::Ground, DrawLayer::Border)
    } else if spec_has_flag(config, ItemFlag::LyingObject) {
        (DrawRank::Lying, DrawLayer::Items)
    } else if spec_has_flag(config, ItemFlag::LiquidPool) {
        (DrawRank::Lying, DrawLayer::Bottom)
    } else if spec_has_flag(config, ItemFlag::Bottom) {
        (DrawRank::Standing, DrawLayer::Bottom)
    } else {
        (DrawRank::Standing, DrawLayer::Items)
    }
}

pub fn placement(config: &ItemConfig) -> (p: (DrawRank, DrawLayer))
    ensures
        p == spec_placement(*config),
{
    if config.has_flag(ItemFlag::Top) {
        (DrawRank::Standing, DrawLayer::Top)
    } else if config.has_flag(ItemFlag::Ground) {
        (DrawRank::Ground, DrawLayer::Ground)
    } else if config.has_flag(ItemFlag::Border) {
        (DrawRank::Ground, DrawLayer::Border)
    } else if config.has_flag(ItemFlag::LyingObject) {
        (DrawRank::Lying, DrawLayer::Items)
    } else if config.has_flag(ItemFlag::LiquidPool) {
        (DrawRank::Lying, DrawLayer::Bottom)
    } else if config.has_flag(ItemFlag::Bottom) {
        (DrawRank::Standing, DrawLayer::Bottom)
    } else {
        (DrawRank::Standing, DrawLayer::Items)
    }
}

/// The highest an item is lifted by the elevated items beneath it, in pixels.
pub const MAX_STACK_ELEVATION: u32 = 24;

/// How far the item at `i` is lifted: the elevations of the items below it,
/// summed and held at the cap as the sum goes.
pub open spec fn stack_elevation(items: Seq<Item>, i: int) -> int
    decreases i,
{
    if i <= 0 {
        0
    } else {
        let below = stack_elevation(items, i - 1);
        match items[i - 1].config.elevation {
            Some(e) => if below + e >= MAX_STACK_ELEVATION {
                MAX_STACK_ELEVATION as int
            } else {
                below + e
            },
            None => below,
        }
    }
}

/// The lift of each item of a tile's stack, bottom first.
pub fn stack_elevations(items: &Vec<Item>) -> (lifts: Vec<u32>)
    ensures
        lifts@.len() == items@.len(),
        forall|i: int| 0 <= i < items@.len() ==> #[trigger] lifts@[i] == stack_elevation(items@, i),
{
    let mut lifts: Vec<u32> = Vec::new();
    let mut elevation: u32 = 0;
    let mut i: usize = 0;
    while i < items.len()
        invariant
            i <= items@.len(),
            lifts@.len() == i,
            elevation == stack_elevation(items@, i as int),
            elevation <= MAX_STACK_ELEVATION,
            forall|k: int| 0 <= k < i ==> #[trigger] lifts@[k] == stack_elevation(items@, k),
        decreases items@.len() - i,
    {
        lifts.push(elevation);
        if let Some(e) = items[i].config.elevation {
            elevation = elevation + e as u32;
            if elevation >= MAX_STACK_ELEVATION {
                elevation = MAX_STACK_ELEVATION;
            }
        }
        i = i + 1;
    }
    lifts
}

/// The number drawn over a stack, or `None` when the item has no count to show.
pub fn stack_count_text(item: &Item) -> (t: Option<String>)
    ensures
        spec_countable_stack(*item) ==> (t matches Some(s) && s@ == decimal(item.amount as nat)),
        !spec_countable_stack(*item) ==> t is None,
{
    if item.is_countable_stack() {
        Some(decimal_text(item.amount as u64))
    } else {
        None
    }
}

} // verus!
