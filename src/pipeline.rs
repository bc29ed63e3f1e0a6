use vstd::prelude::*;

verus! {

/// The information about one cell of a composed layer, as the tilemap shader reads it.
#[derive(Debug, Clone, Copy, PartialEq, Eq, Structural)]
pub struct LdtkTilemapTileInfo {
    /// The index of the tile image in the tileset texture, `u32::MAX` for an empty cell.
    pub tile_index: u32,
    /// Bit 0 flips the tile horizontally, bit 1 vertically.
    pub flip_bits: u32,
}

/// The tile that marks an empty cell.
pub open spec fn empty_tile() -> LdtkTilemapTileInfo {
    LdtkTilemapTileInfo { tile_index: u32::MAX, flip_bits: 0 }
}

impl LdtkTilemapTileInfo {
    /// The tile that marks an empty cell.
    pub fn empty() -> (r: LdtkTilemapTileInfo)
        ensures
            r == empty_tile(),
    {
        LdtkTilemapTileInfo { tile_index: u32::MAX, flip_bits: 0 }
    }
}

/// Information about a composed layer's map, as the tilemap shader reads it.
#[derive(Debug, Clone, Copy, PartialEq, Eq, Structural)]
pub struct LdtkTilemapMapInfo {
    /// The number of tiles wide the map is.
    pub width: u32,
    /// The number of tiles tall the map is.
    pub height: u32,
    /// The stacking index of the layer, 0 for the visually lowest.
    pub layer_index: u32,
    /// Which of the layer's sublayers this is, 0 for the first.
    pub sublayer_index: u32,
    /// 1 to center the map around its transform, 0 to put its top-left corner there.
    pub center_map: u32,
}

/// Information about a composed layer's tileset, as the tilemap shader reads it.
#[derive(Debug, Clone, Copy, PartialEq, Eq, Structural)]
pub struct LdtkTilemapTilesetInfo {
    /// The number of tiles wide the tileset is.
    pub width: u32,
    /// The number of tiles tall the tileset is.
    pub height: u32,
    /// The number of pixels wide (and tall) a tile in the tileset grid is.
    pub grid_size: u32,
}

/// One composed layer: a dense array of tiles for one sublayer of one authored layer.
#[derive(Debug, Clone)]
pub struct LdtkTilemapLayer {
    /// Information about the map itself.
    pub map_info: LdtkTilemapMapInfo,
    /// Information about the layer's tileset.
    pub tileset_info: LdtkTilemapTilesetInfo,
    /// The identifier of the tileset texture in the host's asset table.
    pub texture: u64,
    /// One entry per grid cell, see `flat_index`.
    pub tiles: Vec<LdtkTilemapTileInfo>,
}

} // verus!
