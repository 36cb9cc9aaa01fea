//! Orchestration of tileset loading: load requests, the per-group accumulation
//! of texture handles, the per-tick build decisions and the atlas layout.
pub mod layout;
pub mod registry;
pub mod request;
pub mod source;

pub use layout::{atlas_grid, atlas_layout, tile_cell};
pub use registry::{
    group_name, BuildDecision, TilesetBuildJob, TilesetGenerationRequest, TilesetHandlesMap,
};
pub use request::{TilesetDirs, TilesetLoadEvent, TilesetLoadRequest, DEFAULT_TILES_ASSET_DIR};
pub use source::{is_definition_file, texture_path};
