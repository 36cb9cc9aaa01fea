//! Load requests and the events that carry them.
use uuid::Uuid;
use vstd::prelude::*;

verus! {

broadcast use vstd::string::to_string_from_display_ensures_for_str;

/// The default assets directory path where all tiles should be defined.
pub const DEFAULT_TILES_ASSET_DIR: &'static str = "tiles";

/// Events used for the loading of tilesets.
#[derive(Debug)]
pub enum TilesetLoadEvent {
    /// Send this event to start loading a tileset.
    LoadTiles(TilesetLoadRequest),
    /// Fired once a tileset of the given name has been fully built.
    LoadedTileset(String),
}

/// How a tileset should be loaded.
#[derive(Debug)]
pub struct TilesetLoadRequest {
    /// The name of the tileset; an empty name is replaced by a fresh unique one.
    pub name: String,
    /// The directories used to load this tileset, in order.
    pub dirs: Vec<TilesetDirs>,
    /// The maximum number of columns before the atlas wraps to a new row;
    /// `None` keeps every tile in a single row.
    pub max_columns: Option<usize>,
}

/// Directories for a tileset to be loaded from.
#[derive(Debug)]
pub struct TilesetDirs {
    /// The asset directory containing the tile definitions.
    pub tile_directory: String,
    /// The asset directory containing the tile textures.
    pub texture_directory: String,
}

pub open spec fn is_lower_hex_digit(c: char) -> bool {
    ('0' <= c && c <= '9') || ('a' <= c && c <= 'f')
}

/// The shape of a hyphenated UUID: 36 characters, lower-case hex digits in
/// groups of 8, 4, 4, 4 and 12 separated by hyphens.
pub open spec fn is_hyphenated_uuid(s: Seq<char>) -> bool {
    &&& s.len() == 36
    &&& forall|i: int|
        0 <= i < 36 ==> if i == 8 || i == 13 || i == 18 || i == 23 {
            s[i] == '-'
        } else {
            is_lower_hex_digit(#[trigger] s[i])
        }
}

/// A hyphenated version-4 UUID of the RFC 4122 variant: the version digit is
/// `4`, and the variant digit is one of `8`, `9`, `a` and `b`.
pub open spec fn is_uuid_v4(s: Seq<char>) -> bool {
    &&& is_hyphenated_uuid(s)
    &&& s[14] == '4'
    &&& (s[19] == '8' || s[19] == '9' || s[19] == 'a' || s[19] == 'b')
}

/// Relies on `Uuid::new_v4` for a random identifier, whose `Builder` sets the
/// version nibble of byte 6 to 4 and the top bits of byte 8 to `10`, and on the
/// `Display` of `Uuid::to_hyphenated`, which writes it as 36 lower-case hex
/// digits and hyphens.
#[verifier::external_body]
pub(crate) fn get_unique_name() -> (r: String)
    ensures
        is_uuid_v4(r@),
{
    Uuid::new_v4().to_hyphenated().to_string()
}

impl TilesetLoadRequest {
    /// Create a load request for a named tileset.
    pub fn named(name: &str, dirs: Vec<TilesetDirs>) -> (r: Self)
        ensures
            r.name@ == name@,
            r.dirs@ == dirs@,
            r.max_columns is None,
    {
        Self { name: name.to_string(), dirs, max_columns: None }
    }

    /// Create a load request for an unnamed tileset; it is given a random,
    /// UUID-shaped name.
    pub fn unnamed(dirs: Vec<TilesetDirs>) -> (r: Self)
        ensures
            is_uuid_v4(r.name@),
            r.dirs@ == dirs@,
            r.max_columns is None,
    {
        Self { name: get_unique_name(), dirs, max_columns: None }
    }
}

impl Default for TilesetLoadRequest {
    /// An unnamed request over the default directories.
    fn default() -> (r: Self)
        ensures
            is_uuid_v4(r.name@),
            r.dirs@.len() == 1,
            r.dirs@[0].tile_directory@ == DEFAULT_TILES_ASSET_DIR@,
            r.dirs@[0].texture_directory@ == DEFAULT_TILES_ASSET_DIR@,
            r.max_columns is None,
    {
        Self { name: get_unique_name(), dirs: vec![TilesetDirs::default()], max_columns: None }
    }
}

impl TilesetDirs {
    /// Use one directory for both the tile definitions and their textures.
    pub fn from_dir(tile_directory: &str) -> (r: Self)
        ensures
            r.tile_directory@ == tile_directory@,
            r.texture_directory@ == tile_directory@,
    {
        Self { tile_directory: tile_directory.to_string(), texture_directory: tile_directory.to_string() }
    }

    /// Use one directory for the tile definitions and another for the textures.
    pub fn from_dirs(tile_directory: &str, texture_directory: &str) -> (r: Self)
        ensures
            r.tile_directory@ == tile_directory@,
            r.texture_directory@ == texture_directory@,
    {
        Self {
            tile_directory: tile_directory.to_string(),
            texture_directory: texture_directory.to_string(),
        }
    }
}

impl Default for TilesetDirs {
    /// Both directories set to [`DEFAULT_TILES_ASSET_DIR`].
    fn default() -> (r: Self)
        ensures
            r.tile_directory@ == DEFAULT_TILES_ASSET_DIR@,
            r.texture_directory@ == DEFAULT_TILES_ASSET_DIR@,
    {
        Self::from_dir(DEFAULT_TILES_ASSET_DIR)
    }
}

impl From<TilesetLoadRequest> for TilesetLoadEvent {
    fn from(loader: TilesetLoadRequest) -> (r: Self) {
        TilesetLoadEvent::LoadTiles(loader)
    }
}

impl vstd::std_specs::convert::FromSpecImpl<TilesetLoadRequest> for TilesetLoadEvent {
    open spec fn obeys_from_spec() -> bool {
        true
    }

    open spec fn from_spec(loader: TilesetLoadRequest) -> Self {
        TilesetLoadEvent::LoadTiles(loader)
    }
}

impl<'a> From<&'a str> for TilesetDirs {
    fn from(dir: &'a str) -> (r: Self)
        ensures
            r.tile_directory@ == dir@,
            r.texture_directory@ == dir@,
    {
        TilesetDirs::from_dir(dir)
    }
}

impl<'a> vstd::std_specs::convert::FromSpecImpl<&'a str> for TilesetDirs {
    open spec fn obeys_from_spec() -> bool {
        false
    }

    open spec fn from_spec(dir: &'a str) -> Self {
        choose|d: TilesetDirs| d.tile_directory@ == dir@ && d.texture_directory@ == dir@
    }
}

impl<'a, 'b> From<(&'a str, &'b str)> for TilesetDirs {
    fn from(dirs: (&'a str, &'b str)) -> (r: Self)
        ensures
            r.tile_directory@ == dirs.0@,
            r.texture_directory@ == dirs.1@,
    {
        TilesetDirs::from_dirs(dirs.0, dirs.1)
    }
}

impl<'a, 'b> vstd::std_specs::convert::FromSpecImpl<(&'a str, &'b str)> for TilesetDirs {
    open spec fn obeys_from_spec() -> bool {
        false
    }

    open spec fn from_spec(dirs: (&'a str, &'b str)) -> Self {
        choose|d: TilesetDirs| d.tile_directory@ == dirs.0@ && d.texture_directory@ == dirs.1@
    }
}

} // verus!
