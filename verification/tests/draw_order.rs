use rustibia::conf::{LAYER_COUNT, TILES_X, TILES_Y, VIEW_MARGIN_TILES};
use rustibia::map::draw_order::{
    DrawLayer, DrawOrder, DrawOrigin, DrawRank, COLS, DRAW_KEY_MAX, RANKS, ROWS,
    TARGET_SQUARE_LOCAL_Z, TILE_SPAN,
};
use rustibia::map::position::Position;

fn origin() -> DrawOrigin {
    DrawOrigin::around(&Position::new(1000, 1000, 7))
}

fn key(pos: &Position, layer: DrawLayer, slot: u32) -> u32 {
    ranked(pos, DrawRank::Standing, layer, slot)
}

fn ranked(pos: &Position, rank: DrawRank, layer: DrawLayer, slot: u32) -> u32 {
    DrawOrder::new(*pos, rank, layer, slot).key(&origin())
}

#[test]
fn every_key_is_exactly_representable_in_f32() {
    assert!(
        DRAW_KEY_MAX <= 1u32 << 24,
        "keys must stay under 2^24, got {DRAW_KEY_MAX}"
    );
    assert!(DrawLayer::Missile.value() < LAYER_COUNT);
    let far = Position::new(65535, 65535, 0);
    let widest = DrawOrder::new(far, DrawRank::Standing, DrawLayer::Missile, u32::MAX).key(&origin());
    assert!(widest < DRAW_KEY_MAX);
    assert_eq!(widest as f32 as u32, widest);
}

#[test]
fn a_whole_tile_is_drawn_before_the_next_one_starts() {
    let here = Position::new(1000, 1000, 7);
    let east = Position::new(1001, 1000, 7);

    assert!(key(&here, DrawLayer::Top, 15) < key(&east, DrawLayer::Ground, 0));
}

#[test]
fn tiles_run_left_to_right_then_top_to_bottom() {
    let here = Position::new(1000, 1000, 7);
    let east = Position::new(1001, 1000, 7);
    let north_east = Position::new(1001, 999, 7);
    let south_west = Position::new(999, 1001, 7);

    assert!(key(&here, DrawLayer::Ground, 0) < key(&east, DrawLayer::Ground, 0));
    assert!(key(&north_east, DrawLayer::Ground, 0) < key(&here, DrawLayer::Ground, 0));
    assert!(key(&here, DrawLayer::Ground, 0) < key(&south_west, DrawLayer::Ground, 0));
}

#[test]
fn a_tiles_layers_run_ground_to_missile() {
    let pos = Position::new(1000, 1000, 7);
    let layers = [
        DrawLayer::Ground,
        DrawLayer::Border,
        DrawLayer::PassingThrough,
        DrawLayer::Bottom,
        DrawLayer::Items,
        DrawLayer::Target,
        DrawLayer::Creature,
        DrawLayer::Effect,
        DrawLayer::Top,
        DrawLayer::Missile,
    ];

    for pair in layers.windows(2) {
        assert!(
            key(&pos, pair[0], 15) < key(&pos, pair[1], 0),
            "{:?} must draw before {:?}, even under a full stack",
            pair[0],
            pair[1]
        );
    }
}

#[test]
fn deeper_floors_are_drawn_first() {
    let deep = Position::new(1000, 1000, 9);
    let shallow = Position::new(1000, 1000, 5);

    assert!(key(&deep, DrawLayer::Missile, 15) < key(&shallow, DrawLayer::Ground, 0));
}

#[test]
fn a_floors_widest_tile_stays_inside_its_floor() {
    let corner = Position::new(1000 + 40, 1000 + 40, 7);
    let next_floor_first = Position::new(0, 0, 6);

    assert!(key(&corner, DrawLayer::Missile, 15) < key(&next_floor_first, DrawLayer::Ground, 0));
}

#[test]
fn a_higher_floor_keys_by_its_own_shifted_window() {
    let origin = origin();
    let here = DrawOrder::new(Position::new(1000, 1000, 7), DrawRank::Ground, DrawLayer::Ground, 0);
    let above = DrawOrder::new(Position::new(1001, 1001, 6), DrawRank::Ground, DrawLayer::Ground, 0);

    let gap = above.key(&origin) - here.key(&origin);
    assert_eq!(gap, RANKS * ROWS * COLS * TILE_SPAN);

    let unshifted = DrawOrder::new(Position::new(1000, 1000, 6), DrawRank::Ground, DrawLayer::Ground, 0);
    assert_ne!(unshifted.key(&origin) - here.key(&origin), gap);
}

#[test]
fn the_target_square_composes_to_just_under_its_agent() {
    let pos = Position::new(1000, 1000, 7);
    let agent = key(&pos, DrawLayer::Creature, 0) as i64;

    assert_eq!(
        agent + TARGET_SQUARE_LOCAL_Z as i64,
        key(&pos, DrawLayer::Target, 0) as i64
    );
    assert!(agent + (TARGET_SQUARE_LOCAL_Z as i64) < agent);
}

#[test]
fn a_creature_draws_over_a_corpse_from_any_square() {
    let corpse_tile = Position::new(1000, 1000, 7);
    let corpse = ranked(&corpse_tile, DrawRank::Lying, DrawLayer::Items, 0);

    for dy in -2i32..=2 {
        for dx in -2i32..=2 {
            let stood = Position::new((1000 + dx) as u16, (1000 + dy) as u16, 7);
            assert!(
                ranked(&stood, DrawRank::Standing, DrawLayer::Creature, 0) > corpse,
                "a creature on {stood:?} must draw over the corpse on {corpse_tile:?}"
            );
        }
    }
}

#[test]
fn a_corpse_draws_over_its_own_blood_pool() {
    let tile = Position::new(1000, 1000, 7);

    let pool = ranked(&tile, DrawRank::Lying, DrawLayer::Bottom, 0);
    let corpse = ranked(&tile, DrawRank::Lying, DrawLayer::Items, 0);
    let ground = ranked(&tile, DrawRank::Ground, DrawLayer::Ground, 0);

    assert!(ground < pool, "the pool lies on the ground");
    assert!(pool < corpse, "and the body lies on the pool");
}

#[test]
fn a_corpse_clears_the_ground_of_every_tile_it_spreads_over() {
    let corpse_tile = Position::new(1000, 1000, 7);
    let corpse = ranked(&corpse_tile, DrawRank::Lying, DrawLayer::Items, 0);

    for tile in [
        corpse_tile,
        Position::new(999, 1000, 7),
        Position::new(1000, 999, 7),
        Position::new(999, 999, 7),
        Position::new(1005, 1005, 7),
    ] {
        for layer in [DrawLayer::Ground, DrawLayer::Border] {
            assert!(
                ranked(&tile, DrawRank::Ground, layer, 15) < corpse,
                "{tile:?} {layer:?} must draw under a corpse anywhere on the floor"
            );
        }
    }
}

#[test]
fn a_wall_still_occludes_a_creature_behind_it() {
    let behind = Position::new(1000, 1000, 7);
    let wall_tile = Position::new(1000, 1001, 7);

    assert!(
        ranked(&behind, DrawRank::Standing, DrawLayer::Creature, 0)
            < ranked(&wall_tile, DrawRank::Standing, DrawLayer::Bottom, 0)
    );
}

#[test]
fn a_rank_never_outranks_a_floor() {
    let deep = Position::new(1000, 1000, 9);
    let shallow = Position::new(1000, 1000, 8);

    assert!(
        ranked(&deep, DrawRank::Standing, DrawLayer::Missile, 15)
            < ranked(&shallow, DrawRank::Ground, DrawLayer::Ground, 0),
        "everything on the deeper floor draws before anything on the one above"
    );
}

#[test]
fn a_stack_slot_saturates_instead_of_wrapping() {
    let pos = Position::new(1000, 1000, 7);

    assert_eq!(key(&pos, DrawLayer::Items, 99), key(&pos, DrawLayer::Items, 15));
    assert!(key(&pos, DrawLayer::Items, 99) < key(&pos, DrawLayer::Target, 0));
}

#[test]
fn a_tile_far_outside_the_window_clamps_to_the_edge() {
    let far = Position::new(64000, 64000, 7);
    let edge = Position::new(
        (1000 - (TILES_X / 2) as u16) + (COLS - 1 - VIEW_MARGIN_TILES) as u16,
        (1000 - (TILES_Y / 2) as u16) + (ROWS - 1 - VIEW_MARGIN_TILES) as u16,
        7,
    );

    assert_eq!(key(&far, DrawLayer::Ground, 0), key(&edge, DrawLayer::Ground, 0));
}

#[test]
fn moving_a_drawable_reports_whether_its_place_changed() {
    let mut order = DrawOrder::new(Position::new(1000, 1000, 7), DrawRank::Standing, DrawLayer::Creature, 0);
    assert!(!order.move_to(&Position::new(1000, 1000, 7), DrawLayer::Creature));
    assert!(order.move_to(&Position::new(1001, 1000, 7), DrawLayer::Creature));
    assert!(order.move_to(&Position::new(1001, 1000, 7), DrawLayer::PassingThrough));
    assert_eq!(
        order.key(&origin()),
        DrawOrder::new(Position::new(1001, 1000, 7), DrawRank::Standing, DrawLayer::PassingThrough, 0)
            .key(&origin())
    );
}
