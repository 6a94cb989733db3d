use std::sync::Arc;

use rustibia::agent::WalkingDirection;
use rustibia::conf::{BASE_FLOOR, MAX_FLOOR, MIN_FLOOR};
use rustibia::items::{Item, ItemConfig, ItemFlag};
use rustibia::map::floors::{covering_tile, floors_visibility, is_floor_visible};
use rustibia::map::position::Position;
use rustibia::map::storage::WorldMap;

fn ground_at(map: &mut WorldMap, pos: Position) {
    map.replace_tile(
        vec![Arc::new(Item::new(
            Arc::new(ItemConfig {
                id: 100,
                flags: vec![ItemFlag::Ground],
                friction: Some(150),
                slot: None,
                minimap_color: None,
                elevation: None,
            }),
            1,
        ))],
        &pos,
    );
}

#[test]
fn the_covering_tile_is_measured_from_the_players_floor() {
    let player = Position::new(100, 100, 9);

    assert_eq!(
        covering_tile(WalkingDirection::East, &player, 8),
        Some(Position::new(101, 100, 8)),
    );
    assert_eq!(
        covering_tile(WalkingDirection::South, &player, 8),
        Some(Position::new(100, 101, 8)),
    );
    assert_eq!(
        covering_tile(WalkingDirection::East, &player, 7),
        Some(Position::new(102, 100, 7)),
    );
}

#[test]
fn the_surface_offset_is_unchanged() {
    let player = Position::new(100, 100, 7);

    assert_eq!(
        covering_tile(WalkingDirection::East, &player, 6),
        Some(Position::new(101, 100, 6)),
    );
    assert_eq!(
        covering_tile(WalkingDirection::North, &player, 5),
        Some(Position::new(100, 98, 5)),
    );
}

#[test]
fn a_covering_tile_off_the_map_hides_nothing() {
    let mut map = WorldMap::new();
    for pos in [Position::new(65535, 0, 8), Position::new(0, 65535, 8)] {
        ground_at(&mut map, pos);
    }
    let player = Position::new(0, 0, 9);

    assert!(covering_tile(WalkingDirection::West, &player, 8).is_none());
    assert!(covering_tile(WalkingDirection::North, &player, 8).is_none());
    assert!(
        is_floor_visible(&map, &player, 8),
        "nothing covers a player in the map's corner"
    );
}

#[test]
fn a_ceiling_two_floors_up_hides_that_floor() {
    let player = Position::new(100, 100, 10);

    let mut covered = WorldMap::new();
    ground_at(&mut covered, Position::new(102, 100, 8));
    assert!(!is_floor_visible(&covered, &player, 8));

    let mut uncovered = WorldMap::new();
    ground_at(&mut uncovered, Position::new(101, 100, 8));
    assert!(
        is_floor_visible(&uncovered, &player, 8),
        "one tile along is the covering tile for floor 9, not floor 8"
    );
}

#[test]
fn a_deeper_floor_is_never_occluded() {
    let mut map = WorldMap::new();
    ground_at(&mut map, Position::new(101, 100, 10));
    ground_at(&mut map, Position::new(99, 100, 10));

    assert!(is_floor_visible(&map, &Position::new(100, 100, 9), 10));
}

fn shown(map: &WorldMap, player: Position) -> Vec<bool> {
    let vis = floors_visibility(map, &player);
    assert_eq!(vis.len(), MAX_FLOOR as usize + 1);
    vis
}

#[test]
fn underground_the_view_stops_two_floors_down() {
    let vis = shown(&WorldMap::new(), Position::new(100, 100, 8));

    assert!(vis[8]);
    assert!(vis[9]);
    assert!(vis[10]);
    for z in 11..=MAX_FLOOR {
        assert!(!vis[z as usize], "floor {z} is out of reach");
    }
}

#[test]
fn the_deepest_floor_is_hidden_when_out_of_reach() {
    let vis = shown(&WorldMap::new(), Position::new(100, 100, 12));

    assert!(vis[14]);
    assert!(!vis[MAX_FLOOR as usize]);
}

#[test]
fn the_bottom_floor_is_drawn_when_standing_on_it() {
    let vis = shown(&WorldMap::new(), Position::new(100, 100, 15));

    assert!(vis[15]);
    assert!(vis[13]);
    assert!(!vis[12]);
}

#[test]
fn underground_a_ceiling_hides_itself_and_everything_above_it() {
    let mut map = WorldMap::new();
    ground_at(&mut map, Position::new(101, 100, 9));
    let vis = shown(&map, Position::new(100, 100, 10));

    assert!(vis[10]);
    assert!(!vis[9]);
    assert!(!vis[8]);
    for z in MIN_FLOOR..=BASE_FLOOR {
        assert!(!vis[z as usize]);
    }
}

#[test]
fn on_the_surface_every_floor_above_ground_is_drawn() {
    let vis = shown(&WorldMap::new(), Position::new(100, 100, 7));

    for z in MIN_FLOOR..=BASE_FLOOR {
        assert!(vis[z as usize]);
    }
    for z in (BASE_FLOOR + 1)..=MAX_FLOOR {
        assert!(!vis[z as usize]);
    }
}

#[test]
fn floor_zero_is_hidden_when_it_is_the_ceiling() {
    let mut map = WorldMap::new();
    ground_at(&mut map, Position::new(101, 100, 0));
    let vis = shown(&map, Position::new(100, 100, 1));

    assert!(vis[1]);
    assert!(!vis[0]);
}
