use rustibia::conf::{DEFAULT_ZOOM, MINIMAP_IMAGE_SIZE, RECENTRE_MARGIN, ZOOM_LEVELS};
use rustibia::map::minimap::{
    deserialize_chunk, key_and_offset, serialize_chunk, ChunkKey, MinimapData, MinimapTile,
    CHUNK_SIZE, TILES_PER_CHUNK,
};
use rustibia::map::minimap_view::{
    centred_origin, minimap_color_to_rgb, paint_chunk, player_centered_rect, MinimapWindow,
    UNEXPLORED,
};
use rustibia::map::chunk_files::{chunk_file_name, parse_chunk_file_name};
use rustibia::map::position::Position;
use rustibia::text::parse_u8;

const SPAWN: Position = Position { x: 32100, y: 31100, z: 7 };

fn window_at(player: &Position) -> MinimapWindow {
    let (origin_x, origin_y) = centred_origin(player);
    MinimapWindow { origin_x, origin_y, painted_z: Some(player.z) }
}

fn chunk_of(player: &Position, color: u8) -> (ChunkKey, Vec<MinimapTile>) {
    let mut tiles = vec![MinimapTile::default(); TILES_PER_CHUNK];
    let offset = (player.y % CHUNK_SIZE) as usize * CHUNK_SIZE as usize + (player.x % CHUNK_SIZE) as usize;
    tiles[offset] = MinimapTile { color, friction: Some(1) };
    (
        ChunkKey { cx: player.x / CHUNK_SIZE, cy: player.y / CHUNK_SIZE, z: player.z },
        tiles,
    )
}

fn blank_image() -> Vec<u8> {
    UNEXPLORED.repeat((MINIMAP_IMAGE_SIZE as usize).pow(2))
}

fn pixel_at(data: &[u8], x: u16, y: u16) -> [u8; 4] {
    let idx = (y as usize * MINIMAP_IMAGE_SIZE as usize + x as usize) * 4;
    data[idx..idx + 4].try_into().unwrap()
}

#[test]
fn a_tile_far_from_the_world_origin_is_painted() {
    let window = window_at(&SPAWN);
    let (key, tiles) = chunk_of(&SPAWN, 200);
    let mut data = blank_image();

    paint_chunk(&mut data, (window.origin_x, window.origin_y), key, &tiles);

    let (r, g, b) = minimap_color_to_rgb(200);
    let px = SPAWN.x - window.origin_x as u16;
    let py = SPAWN.y - window.origin_y as u16;
    assert_eq!(pixel_at(&data, px, py), [r, g, b, 255]);
}

#[test]
fn a_chunk_outside_the_window_paints_nothing() {
    let window = window_at(&SPAWN);
    let far = Position { x: 100, y: 100, z: SPAWN.z };
    let (key, tiles) = chunk_of(&far, 200);
    let mut data = blank_image();

    paint_chunk(&mut data, (window.origin_x, window.origin_y), key, &tiles);

    assert!(data.chunks(4).all(|p| p == UNEXPLORED));
}

#[test]
fn the_view_rect_is_centred_on_the_player_within_the_window() {
    let window = window_at(&SPAWN);
    let tiles = ZOOM_LEVELS[DEFAULT_ZOOM] as i64;

    let (min_x, min_y, max_x, max_y) =
        player_centered_rect(&SPAWN, (window.origin_x, window.origin_y), DEFAULT_ZOOM);

    assert_eq!((min_x + max_x, min_y + max_y), (MINIMAP_IMAGE_SIZE as i64, MINIMAP_IMAGE_SIZE as i64));
    assert_eq!((max_x - min_x, max_y - min_y), (tiles, tiles));
}

#[test]
fn a_fresh_window_paints_wherever_the_player_is() {
    assert_eq!(MinimapWindow::new().retarget(&SPAWN), Some(centred_origin(&SPAWN)));
}

#[test]
fn a_step_inside_the_window_repaints_nothing() {
    let window = window_at(&SPAWN);
    let stepped = Position { x: SPAWN.x + 1, ..SPAWN };

    assert_eq!(window.retarget(&stepped), None);
}

#[test]
fn walking_towards_the_edge_moves_the_window() {
    let window = window_at(&SPAWN);
    let far = Position { x: SPAWN.x + (MINIMAP_IMAGE_SIZE / 2 - RECENTRE_MARGIN), ..SPAWN };

    assert_eq!(window.retarget(&far), Some(centred_origin(&far)));
}

#[test]
fn a_window_pinned_to_the_world_edge_does_not_thrash() {
    let corner = Position { x: 10, y: 10, z: 7 };
    let window = window_at(&corner);

    assert_eq!((window.origin_x, window.origin_y), (0, 0));
    assert_eq!(window.retarget(&corner), None);
}

#[test]
fn the_system_paints_a_tile_at_a_real_map_coordinate() {
    let mut minimap = MinimapData::new();
    minimap.update_tile(&SPAWN, 200, 150);
    let mut window = MinimapWindow::new();

    assert!(window.follow(&mut minimap, &SPAWN));
    let mut data = blank_image();
    for (key, tiles) in minimap.drain_gpu_dirty(SPAWN.z) {
        paint_chunk(&mut data, (window.origin_x, window.origin_y), key, &tiles);
    }

    let (r, g, b) = minimap_color_to_rgb(200);
    assert_eq!(
        pixel_at(&data, SPAWN.x - window.origin_x as u16, SPAWN.y - window.origin_y as u16),
        [r, g, b, 255]
    );
    assert!(!window.follow(&mut minimap, &SPAWN), "nothing to repaint the second time");
}

#[test]
fn a_floor_change_repaints() {
    let window = window_at(&SPAWN);
    let upstairs = Position { z: SPAWN.z - 1, ..SPAWN };

    assert_eq!(window.retarget(&upstairs), Some(centred_origin(&upstairs)));
}

#[test]
fn a_colour_is_a_point_of_the_six_cube() {
    assert_eq!(minimap_color_to_rgb(0), (0, 0, 0));
    assert_eq!(minimap_color_to_rgb(215), (255, 255, 255));
    assert_eq!(minimap_color_to_rgb(200), (255, 153, 102));
}

#[test]
fn a_tile_is_stored_in_its_chunk_and_read_back() {
    let mut minimap = MinimapData::new();
    assert_eq!(minimap.get_tile(&SPAWN), None);

    minimap.update_tile(&SPAWN, 12, 900);

    assert_eq!(minimap.get_tile(&SPAWN), Some(MinimapTile { color: 12, friction: Some(254) }));
    let (key, offset) = key_and_offset(&SPAWN);
    assert_eq!(key, ChunkKey { cx: SPAWN.x / 64, cy: SPAWN.y / 64, z: 7 });
    assert_eq!(offset, (SPAWN.y % 64) as usize * 64 + (SPAWN.x % 64) as usize);
}

#[test]
fn a_chunk_survives_a_round_trip_through_its_bytes() {
    let (_, mut tiles) = chunk_of(&SPAWN, 200);
    tiles[0] = MinimapTile { color: 3, friction: Some(0) };

    let bytes = serialize_chunk(&tiles);

    assert_eq!(bytes.len(), TILES_PER_CHUNK * 2);
    assert_eq!(deserialize_chunk(&bytes), tiles);
}

#[test]
fn only_changed_chunks_are_drained_for_saving() {
    let mut minimap = MinimapData::new();
    minimap.update_tile(&SPAWN, 12, 100);

    let first = minimap.drain_dirty();
    assert_eq!(first.len(), 1);
    assert!(minimap.drain_dirty().is_empty());

    minimap.update_tile(&SPAWN, 12, 100);
    assert!(minimap.drain_dirty().is_empty(), "an unchanged tile dirties nothing");
}

#[test]
fn a_chunk_file_is_named_by_its_coordinates_and_read_back() {
    let key = ChunkKey { cx: 501, cy: 485, z: 7 };
    assert_eq!(chunk_file_name(&key), "501_485.bin");
    assert_eq!(parse_chunk_file_name(&chunk_file_name(&key)), Some((501, 485)));
}

#[test]
fn only_a_bin_file_with_two_coordinates_is_a_chunk() {
    assert_eq!(parse_chunk_file_name("3_4.bin.bin"), Some((3, 4)));
    assert_eq!(parse_chunk_file_name("+3_4.bin"), Some((3, 4)));
    assert_eq!(parse_chunk_file_name("3_4.txt"), None);
    assert_eq!(parse_chunk_file_name("34.bin"), None);
    assert_eq!(parse_chunk_file_name("3_4_5.bin"), None);
    assert_eq!(parse_chunk_file_name("3_70000.bin"), None);
    assert_eq!(parse_chunk_file_name("-3_4.bin"), None);
    assert_eq!(parse_chunk_file_name(".bin"), None);
}

#[test]
fn a_floor_directory_is_named_by_its_number() {
    assert_eq!(parse_u8("7"), Some(7));
    assert_eq!(parse_u8("255"), Some(255));
    assert_eq!(parse_u8("256"), None);
    assert_eq!(parse_u8("seven"), None);
}

#[test]
fn a_write_leaves_the_rest_of_a_new_chunk_unvisited() {
    let mut minimap = MinimapData::new();
    let neighbour = Position { x: SPAWN.x + 1, ..SPAWN };
    let elsewhere = Position { x: SPAWN.x + 640, ..SPAWN };

    minimap.update_tile(&SPAWN, 40, 100);

    assert_eq!(minimap.get_tile(&SPAWN), Some(MinimapTile { color: 40, friction: Some(100) }));
    assert_eq!(minimap.get_tile(&neighbour), Some(MinimapTile::unvisited()));
    assert_eq!(minimap.get_tile(&elsewhere), None);
}

#[test]
fn a_longer_buffer_and_tile_list_are_painted_within_the_texture() {
    let window = window_at(&SPAWN);
    let (key, mut tiles) = chunk_of(&SPAWN, 200);
    tiles.push(MinimapTile { color: 9, friction: None });
    let mut data = blank_image();
    let size = data.len();
    data.extend_from_slice(&[7, 7, 7, 7]);

    paint_chunk(&mut data, (window.origin_x, window.origin_y), key, &tiles);

    let (r, g, b) = minimap_color_to_rgb(200);
    let px = SPAWN.x - window.origin_x as u16;
    let py = SPAWN.y - window.origin_y as u16;
    assert_eq!(pixel_at(&data, px, py), [r, g, b, 255]);
    assert_eq!(&data[size..], &[7, 7, 7, 7]);
}
