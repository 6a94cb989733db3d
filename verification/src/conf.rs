use vstd::prelude::*;

verus! {

/// Tiles the server sends per axis around the player.
pub const TILES_X: u32 = 19;
pub const TILES_Y: u32 = 15;
pub const STACK_MAX_VISIBLE_ITEMS: usize = 8;
/// `x` of a wire position that names a container slot.
pub const CONTAINER_COORD_FLAG: u16 = 0xFFFF;
/// `x` of a wire position that names an inventory slot.
pub const INVENTORY_COORD_FLAG: u16 = 0xFFFE;
/// In `y` beside `INVENTORY_COORD_FLAG`: "search whatever the player carries".
pub const CARRIED_SEARCH_FLAG: u16 = 0xFFFF;
pub const MIN_FLOOR: u8 = 0;
pub const MAX_FLOOR: u8 = 15;
pub const BASE_FLOOR: u8 = 7;
pub const UNDERGROUND_REACH: u8 = 2;

/// Tiles of slack on each side of the drawn window.
pub const VIEW_MARGIN_TILES: u32 = 2;
/// Keys reserved per tile for the draw layer and for the stack slot.
pub const LAYER_COUNT: u32 = 16;
pub const SLOT_COUNT: u32 = 16;

pub const ADDON_1_FLAG: u8 = 1;
pub const ADDON_2_FLAG: u8 = 2;
pub const DIAGONAL_STEP_FACTOR: u32 = 3;
pub const TICK_DURATION_MS: u32 = 50;

pub const SPEECH_MS_PER_CHAR: u64 = 60;
pub const SPEECH_MIN_MS: u64 = 3000;
pub const SPEECH_MAX_MS: u64 = 8000;
pub const SPEECH_MAX_LINES: usize = 5;

/// How long a static effect stays on screen, in milliseconds.
pub const STATIC_EFFECT_MS: u64 = 300;

pub const HISTORY_CAP_DEFAULT: usize = 500;
/// Must equal the server's `chat.max_message_length`.
pub const MAX_MESSAGE_LENGTH: usize = 255;

pub const SPELL_ICON_COLUMNS: u32 = 12;
pub const SPELL_ICON_ROWS: u32 = 11;
pub const GROUP_SHEET_COLUMNS: u32 = 4;

pub const MINIMAP_IMAGE_SIZE: u16 = 2048;
/// Tiles visible per axis at each zoom level (index 0 = most zoomed in).
pub const ZOOM_LEVELS: [u8; 4] = [20, 40, 80, 160];
pub const DEFAULT_ZOOM: usize = 2;
/// How close to the texture's edge the player may walk before it is recentred.
pub const RECENTRE_MARGIN: u16 = 256;

} // verus!
