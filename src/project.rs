use vstd::prelude::*;

verus! {

/// One tile placed in a layer: where it is taken from in the tileset image, where it goes in the
/// layer, and how it is flipped. All coordinates are in pixels.
#[derive(Debug, Clone, Copy, PartialEq, Eq, Structural)]
pub struct TileInstance {
    /// Pixel x of the tile in the layer.
    pub px_x: u32,
    /// Pixel y of the tile in the layer (growing downward).
    pub px_y: u32,
    /// Pixel x of the tile's source rectangle in the tileset image.
    pub src_x: u32,
    /// Pixel y of the tile's source rectangle in the tileset image.
    pub src_y: u32,
    /// Whether the tile is mirrored horizontally.
    pub flip_x: bool,
    /// Whether the tile is mirrored vertically.
    pub flip_y: bool,
}

/// The kinds of layers an LDtk level may hold.
#[derive(Debug, Clone, Copy, PartialEq, Eq, Structural)]
pub enum LayerKind {
    Entities,
    AutoLayer,
    Tiles,
    IntGrid,
}

/// An entity placed in an entities layer.
#[derive(Debug, Clone)]
pub struct EntityInstance {
    /// The entity's identifier, as authored.
    pub identifier: String,
    /// Pixel x of the entity in the level.
    pub px_x: i64,
    /// Pixel y of the entity in the level (growing downward).
    pub px_y: i64,
}

/// One layer of a level.
#[derive(Debug, Clone)]
pub struct LayerInstance {
    /// The layer's identifier, as authored.
    pub identifier: String,
    /// What the layer holds.
    pub kind: LayerKind,
    /// The unique id of the tileset definition the layer draws from, if any.
    pub tileset_def_uid: Option<i64>,
    /// Width of the layer in grid cells.
    pub c_wid: u32,
    /// Height of the layer in grid cells.
    pub c_hei: u32,
    /// Tiles placed by auto-layer rules; several may target one cell.
    pub auto_layer_tiles: Vec<TileInstance>,
    /// Tiles placed by hand.
    pub grid_tiles: Vec<TileInstance>,
    /// Entities placed in the layer.
    pub entity_instances: Vec<EntityInstance>,
}

/// One level of a project.
#[derive(Debug, Clone)]
pub struct Level {
    /// Width of the level in pixels.
    pub px_wid: u32,
    /// Height of the level in pixels.
    pub px_hei: u32,
    /// The level's own background color, `#RRGGBB`, when it overrides the project's.
    pub bg_color: Option<String>,
    /// The level's layers, topmost first; absent when the level is stored in a file of its own.
    pub layer_instances: Option<Vec<LayerInstance>>,
}

/// The definition of a tileset.
#[derive(Debug, Clone)]
pub struct TilesetDefinition {
    /// Unique id that layers refer to.
    pub uid: i64,
    /// The tileset's name.
    pub identifier: String,
    /// Path of the tileset image, relative to the project file.
    pub rel_path: String,
    /// Width of the tileset image in pixels.
    pub px_wid: u32,
    /// Height of the tileset image in pixels.
    pub px_hei: u32,
    /// Size of one tile in pixels.
    pub tile_grid_size: u32,
    /// Padding around the tiles in pixels.
    pub padding: u32,
}

/// A parsed LDtk project.
#[derive(Debug, Clone)]
pub struct Project {
    /// The default size of a grid cell in pixels.
    pub default_grid_size: u32,
    /// The background color of levels that set none, `#RRGGBB`.
    pub default_level_bg_color: String,
    /// The tileset definitions.
    pub tilesets: Vec<TilesetDefinition>,
    /// The levels, in authored order.
    pub levels: Vec<Level>,
}

/// The tiles that a layer draws: its auto-layer tiles where it has any, else its grid tiles.
pub open spec fn layer_tiles(l: LayerInstance) -> Seq<TileInstance> {
    if l.auto_layer_tiles@.len() > 0 {
        l.auto_layer_tiles@
    } else {
        l.grid_tiles@
    }
}

impl LayerInstance {
    /// The tiles that the layer draws.
    pub fn tiles(&self) -> (r: &Vec<TileInstance>)
        ensures
            r@ == layer_tiles(*self),
    {
        if self.auto_layer_tiles.len() > 0 {
            &self.auto_layer_tiles
        } else {
            &self.grid_tiles
        }
    }
}

impl LayerInstance {
    /// The layer's tile count fits in a `u32` and its cell count in a `usize`.
    pub open spec fn fits(&self) -> bool {
        &&& layer_tiles(*self).len() <= u32::MAX
        &&& self.c_wid * self.c_hei <= usize::MAX
    }

    fn check_fits(&self) -> (r: bool)
        ensures
            r == self.fits(),
    {
        let w = self.c_wid as u64;
        let h = self.c_hei as u64;
        assert(w * h <= 0xffff_ffff * 0xffff_ffff) by (nonlinear_arith)
            requires
                w <= 0xffff_ffff,
                h <= 0xffff_ffff,
        ;
        self.tiles().len() <= u32::MAX as usize && w * h <= usize::MAX as u64
    }
}

impl Project {
    /// A project is well formed when its grid size is positive, the indices that the renderer
    /// receives as `u32` fit (each level's layer count and each layer's tile count), and each
    /// layer's cell count fits in a `usize`.
    pub open spec fn wf(&self) -> bool {
        &&& self.default_grid_size > 0
        &&& forall|i: int|
            0 <= i < self.levels@.len() ==> #[trigger] self.levels@[i].layers_fit()
    }

    /// Tests `wf`.
    pub fn is_well_formed(&self) -> (r: bool)
        ensures
            r == self.wf(),
    {
        if self.default_grid_size == 0 {
            return false;
        }
        let mut i: usize = 0;
        while i < self.levels.len()
            invariant
                i <= self.levels@.len(),
                forall|j: int| 0 <= j < i ==> #[trigger] self.levels@[j].layers_fit(),
            decreases self.levels@.len() - i,
        {
            if !self.levels[i].check_layers_fit() {
                return false;
            }
            i += 1;
        }
        true
    }
}

impl Level {
    /// The level's layer count and each layer's tile count fit in a `u32`.
    pub open spec fn layers_fit(&self) -> bool {
        match self.layer_instances {
            None => true,
            Some(ls) => {
                &&& ls@.len() <= u32::MAX
                &&& forall|k: int|
                    0 <= k < ls@.len() ==> #[trigger] ls@[k].fits()
            },
        }
    }

    fn check_layers_fit(&self) -> (r: bool)
        ensures
            r == self.layers_fit(),
    {
        match &self.layer_instances {
            None => true,
            Some(ls) => {
                if ls.len() > u32::MAX as usize {
                    return false;
                }
                let mut k: usize = 0;
                while k < ls.len()
                    invariant
                        self.layer_instances == Some(*ls),
                        k <= ls@.len(),
                        forall|j: int| 0 <= j < k ==> #[trigger] ls@[j].fits(),
                    decreases ls@.len() - k,
                {
                    if !ls[k].check_fits() {
                        return false;
                    }
                    k += 1;
                }
                true
            },
        }
    }
}

} // verus!
