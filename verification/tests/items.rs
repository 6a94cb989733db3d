use std::sync::Arc;

use rustibia::appearance::sprite::{SpriteAnimation, SpriteConfig};
use rustibia::conf::{CONTAINER_COORD_FLAG, INVENTORY_COORD_FLAG};
use rustibia::items::{
    placement, stack_count_text, stack_elevations, wire_amount, InventorySlot, Item, ItemConfig,
    ItemFlag, ItemPlacement,
};
use rustibia::map::draw_order::{DrawLayer, DrawRank};
use rustibia::map::position::Position;

/// Blood, by its number on the wire.
const BLOOD: u32 = 5;

fn config_with(flags: Vec<ItemFlag>) -> Arc<ItemConfig> {
    Arc::new(ItemConfig {
        id: 2886,
        flags,
        friction: None,
        slot: None,
        minimap_color: None,
        elevation: None,
    })
}

/// A pool's appearance: a 4x3 colour grid, one layer, no animation.
fn pool_sprite() -> SpriteConfig {
    SpriteConfig {
        id: 2886,
        group: "item-32-32-3".to_string(),
        pattern_x: 4,
        pattern_y: 3,
        pattern_z: 1,
        layers: 1,
        sprite_ids: vec![0; 12],
        animation: SpriteAnimation::Static,
        boxes: Vec::new(),
        shift_x: 0,
        shift_y: 0,
    }
}

#[test]
fn a_stacks_pattern_comes_from_its_amount_alone() {
    let sprite = SpriteConfig {
        pattern_x: 4,
        pattern_y: 2,
        ..pool_sprite()
    };
    let stack =
        |amount: u32| Item::new(config_with(vec![ItemFlag::Cumulative]), amount).intrinsic_patterns(&sprite);

    assert_eq!(stack(1), Some((0, 0, 0)));
    assert_eq!(stack(4), Some((3, 0, 0)));
    assert_eq!(stack(5), Some((0, 1, 0)));
    assert_eq!(stack(50), Some((3, 1, 0)));
}

#[test]
fn only_a_cumulative_item_of_more_than_one_has_a_count() {
    let stack = |flags, amount| Item::new(config_with(flags), amount).is_countable_stack();

    assert!(stack(vec![ItemFlag::Cumulative], 50));
    assert!(!stack(vec![ItemFlag::Cumulative], 1));
    assert!(!stack(vec![ItemFlag::LiquidContainer], 5));
    assert!(!stack(vec![ItemFlag::LiquidPool], 5));
    assert!(!stack(vec![ItemFlag::Take], 1));
}

#[test]
fn an_ordinary_item_has_no_intrinsic_pattern() {
    let plain = Item::new(config_with(vec![ItemFlag::Take]), 1);

    assert_eq!(plain.intrinsic_patterns(&pool_sprite()), None);
}

#[test]
fn a_pool_draws_the_cell_for_its_fluid() {
    let pool = Item::new(config_with(vec![ItemFlag::LiquidPool]), BLOOD);

    assert_eq!(
        pool.get_patterns(&Position::new(100, 200, 7), &pool_sprite()),
        (2, 0, 0)
    );
}

#[test]
fn a_pools_colour_does_not_depend_on_where_it_lies() {
    let pool = Item::new(config_with(vec![ItemFlag::LiquidPool]), BLOOD);
    let sprite = pool_sprite();

    let here = pool.get_patterns(&Position::new(100, 200, 7), &sprite);
    let one_step_east = pool.get_patterns(&Position::new(101, 200, 7), &sprite);

    assert_eq!(here, one_step_east);
}

#[test]
fn map_placement_encodes_as_its_position() {
    let p = ItemPlacement::OnMap {
        position: Position { x: 100, y: 200, z: 7 },
        index: 3,
    };
    assert_eq!(p.to_wire_position(), Position { x: 100, y: 200, z: 7 });
    assert_eq!(p.wire_stack_index(), 3);
}

#[test]
fn container_placement_encodes_flag_id_slot() {
    let p = ItemPlacement::Container {
        container_id: 5,
        slot: 9,
    };
    assert_eq!(
        p.to_wire_position(),
        Position {
            x: CONTAINER_COORD_FLAG,
            y: 5,
            z: 9
        }
    );
    assert_eq!(p.wire_stack_index(), 0);
}

#[test]
fn inventory_placement_encodes_flag_slot() {
    let p = ItemPlacement::Inventory {
        slot: InventorySlot::Head,
    };
    assert_eq!(
        p.to_wire_position(),
        Position {
            x: INVENTORY_COORD_FLAG,
            y: InventorySlot::Head.as_id(),
            z: 0
        }
    );
    assert_eq!(p.wire_stack_index(), 0);
}

#[test]
fn carried_placement_searches_what_the_player_carries() {
    let p = ItemPlacement::Carried;
    assert_eq!(
        p.to_wire_position(),
        Position {
            x: INVENTORY_COORD_FLAG,
            y: 0xFFFF,
            z: 0
        }
    );
    assert_eq!(p.wire_stack_index(), 0);
}

#[test]
fn every_slot_survives_its_wire_id() {
    for id in 0u8..20 {
        if let Some(slot) = InventorySlot::from_id(id) {
            assert_eq!(slot.as_id(), id as u16);
        }
    }
    assert_eq!(InventorySlot::from_id(200), None);
}

fn placed(flags: Vec<ItemFlag>) -> (DrawRank, DrawLayer) {
    placement(&config_with(flags))
}

#[test]
fn a_blood_pool_ranks_with_the_corpse_and_not_with_the_walls() {
    assert_eq!(
        placed(vec![ItemFlag::Bottom, ItemFlag::LiquidPool]),
        (DrawRank::Lying, DrawLayer::Bottom)
    );
    assert_eq!(
        placed(vec![ItemFlag::LyingObject]),
        (DrawRank::Lying, DrawLayer::Items)
    );
    assert_eq!(placed(vec![ItemFlag::Bottom]), (DrawRank::Standing, DrawLayer::Bottom));
}

#[test]
fn grounds_and_borders_are_the_first_pass() {
    assert_eq!(placed(vec![ItemFlag::Ground]), (DrawRank::Ground, DrawLayer::Ground));
    assert_eq!(placed(vec![ItemFlag::Border]), (DrawRank::Ground, DrawLayer::Border));
}

#[test]
fn a_top_item_stays_on_top_whatever_else_it_carries() {
    assert_eq!(
        placed(vec![ItemFlag::Ground, ItemFlag::Bottom, ItemFlag::Top]),
        (DrawRank::Standing, DrawLayer::Top)
    );
}

#[test]
fn a_plain_item_stands_on_its_tile() {
    assert_eq!(placed(vec![ItemFlag::Take]), (DrawRank::Standing, DrawLayer::Items));
}

#[test]
fn a_stack_is_labelled_with_its_amount() {
    let stack = Item::new(config_with(vec![ItemFlag::Cumulative]), 37);
    assert_eq!(stack_count_text(&stack), Some("37".to_string()));
    let big = Item::new(config_with(vec![ItemFlag::Cumulative]), 100);
    assert_eq!(stack_count_text(&big), Some("100".to_string()));
}

#[test]
fn a_single_item_and_a_fluid_carry_no_label() {
    assert_eq!(stack_count_text(&Item::new(config_with(vec![ItemFlag::Cumulative]), 1)), None);
    assert_eq!(stack_count_text(&Item::new(config_with(vec![ItemFlag::LiquidContainer]), 5)), None);
}

#[test]
fn a_stack_wider_than_the_wire_is_capped() {
    assert_eq!(wire_amount(&Item::new(config_with(vec![ItemFlag::Cumulative]), 100)), 100);
    assert_eq!(wire_amount(&Item::new(config_with(vec![ItemFlag::Cumulative]), 255)), 255);
    assert_eq!(wire_amount(&Item::new(config_with(vec![ItemFlag::Cumulative]), 1000)), 255);
}

fn elevated(e: Option<u8>) -> Item {
    Item::new(
        Arc::new(ItemConfig {
            id: 1,
            flags: Vec::new(),
            friction: None,
            slot: None,
            minimap_color: None,
            elevation: e,
        }),
        1,
    )
}

#[test]
fn elevation_lifts_what_lies_above_and_stops_at_the_cap() {
    let stack = vec![
        elevated(Some(8)),
        elevated(None),
        elevated(Some(10)),
        elevated(Some(10)),
        elevated(None),
    ];
    assert_eq!(stack_elevations(&stack), vec![0, 8, 8, 18, 24]);
    assert!(stack_elevations(&Vec::new()).is_empty());
}
