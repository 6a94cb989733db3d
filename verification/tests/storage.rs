use std::sync::Arc;

use rustibia::agent::AgentId;
use rustibia::items::{Item, ItemConfig, ItemFlag, ItemId};
use rustibia::map::position::Position;
use rustibia::map::storage::WorldMap;

fn item(id: ItemId, flags: Vec<ItemFlag>, friction: Option<u16>) -> Arc<Item> {
    Arc::new(Item::new(
        Arc::new(ItemConfig {
            id,
            flags,
            friction,
            slot: None,
            minimap_color: None,
            elevation: None,
        }),
        1,
    ))
}

fn at(x: u16, y: u16) -> Position {
    Position { x, y, z: 7 }
}

#[test]
fn friction_comes_from_the_first_item_that_has_it() {
    let mut map = WorldMap::new();
    map.replace_tile(
        vec![
            item(100, vec![ItemFlag::Ground], Some(150)),
            item(200, Vec::new(), None),
        ],
        &at(10, 10),
    );

    assert_eq!(map.get_tile_friction(&at(10, 10)), Some(150));
}

#[test]
fn friction_above_255_survives() {
    let mut map = WorldMap::new();
    map.replace_tile(vec![item(21718, vec![ItemFlag::Ground], Some(260))], &at(10, 10));

    assert_eq!(map.get_tile_friction(&at(10, 10)), Some(260));
}

#[test]
fn an_unwalkable_tile_reports_no_friction() {
    let mut map = WorldMap::new();
    map.replace_tile(
        vec![
            item(100, vec![ItemFlag::Ground], Some(150)),
            item(200, vec![ItemFlag::Unpass], None),
        ],
        &at(10, 10),
    );

    assert_eq!(map.get_tile_friction(&at(10, 10)), None);
    assert!(!map.can_walk(&at(10, 10)));
}

#[test]
fn an_unknown_tile_reports_no_friction() {
    let map = WorldMap::new();
    assert_eq!(map.get_tile_friction(&at(10, 10)), None);
}

#[test]
fn replace_tile_preserves_agents_standing_there() {
    let mut map = WorldMap::new();
    map.index_agent(AgentId(5), &at(10, 10));

    map.replace_tile(vec![item(100, vec![ItemFlag::Ground], None)], &at(10, 10));

    assert_eq!(map.agents_on(&at(10, 10)), [AgentId(5)]);
}

#[test]
fn indexing_an_agent_at_its_current_tile_is_a_no_op() {
    let mut map = WorldMap::new();
    map.index_agent(AgentId(1), &at(10, 10));
    map.index_agent(AgentId(2), &at(10, 10));

    map.index_agent(AgentId(1), &at(10, 10));

    assert_eq!(map.agents_on(&at(10, 10)), [AgentId(1), AgentId(2)]);
}

#[test]
fn an_agent_is_indexed_onto_its_tile() {
    let mut map = WorldMap::new();
    map.index_agent(AgentId(5), &at(10, 10));

    assert_eq!(map.agents_on(&at(10, 10)), [AgentId(5)]);
}

#[test]
fn moving_an_agent_reindexes_it() {
    let mut map = WorldMap::new();
    map.index_agent(AgentId(5), &at(10, 10));

    map.index_agent(AgentId(5), &at(11, 10));

    assert!(map.agents_on(&at(10, 10)).is_empty());
    assert_eq!(map.agents_on(&at(11, 10)), [AgentId(5)]);
}

#[test]
fn co_located_agents_keep_arrival_order() {
    let mut map = WorldMap::new();
    map.index_agent(AgentId(1), &at(10, 10));
    map.index_agent(AgentId(2), &at(10, 10));

    assert_eq!(map.agents_on(&at(10, 10)), [AgentId(1), AgentId(2)]);
}

#[test]
fn an_empty_tile_has_no_agents() {
    let map = WorldMap::new();
    assert!(map.agents_on(&at(1, 1)).is_empty());
}

#[test]
fn an_unindexed_agent_leaves_its_tile() {
    let mut map = WorldMap::new();
    map.index_agent(AgentId(1), &at(10, 10));
    map.index_agent(AgentId(2), &at(10, 10));

    map.unindex_agent(AgentId(1));

    assert_eq!(map.agents_on(&at(10, 10)), [AgentId(2)]);
}

#[test]
fn the_top_item_is_the_last_of_the_stack() {
    let mut map = WorldMap::new();
    map.replace_tile(
        vec![item(100, vec![ItemFlag::Ground], Some(150)), item(2886, Vec::new(), None)],
        &at(10, 10),
    );

    let (top, index) = map.peek_item(&at(10, 10)).expect("a stack");
    assert_eq!((top.config.id, index), (2886, 1));
    assert_eq!(map.item_at(&at(10, 10), 0).map(|i| i.config.id), Some(100));
    assert!(map.item_at(&at(10, 10), 2).is_none());
    assert!(map.peek_item(&at(11, 10)).is_none());
    assert!(map.is_ground(&at(10, 10)));
}
