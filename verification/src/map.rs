//! The world map: tile positions, the tile store, the draw order, floor
//! occlusion and the explored-map data behind the minimap.

pub mod position;
pub mod draw_order;
pub mod storage;
pub mod floors;
pub mod minimap;
pub mod minimap_view;
pub mod chunk_files;
