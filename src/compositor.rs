use vstd::prelude::*;

use crate::asset::{LdtkMap, LdtkMapConfig};
use crate::color::{color_of, parse_background_color, Rgb};
use crate::compose::{
    compose_tiles, entry, flat_index, has_index_overflow, lemma_flat_index_covers,
    lemma_sublayer_count_le, sublayer_count,
};
use crate::pipeline::{
    LdtkTilemapLayer, LdtkTilemapMapInfo, LdtkTilemapTileInfo, LdtkTilemapTilesetInfo,
};
use crate::project::{layer_tiles, LayerInstance, Level, Project, TilesetDefinition};

verus! {

/// Why a map could not be composed.
#[derive(Debug, Clone, Copy, PartialEq, Eq, Structural)]
pub enum ComposeError {
    /// A tileset of the map asset has no definition in the project.
    MissingTilesetDefinition,
    /// The configured level index is past the project's last level.
    LevelOutOfRange,
    /// The background color to apply is not written `#RRGGBB`.
    InvalidBackgroundColor,
    /// The level's layers are stored in a file of their own.
    LevelNotEmbedded,
    /// A layer refers to a tileset that the map asset does not hold.
    MissingTileset,
    /// A tile's image index does not fit below the empty tile's index.
    TileIndexOutOfRange,
}

/// What composing a map produces: the clear color to apply, if any, and the layers to render,
/// from the visually lowest to the highest.
#[derive(Debug, Clone)]
pub struct ComposedMap {
    pub clear_color: Option<Rgb>,
    pub layers: Vec<LdtkTilemapLayer>,
}

/// The first of the first `n` definitions that is named `name`.
pub open spec fn find_def(defs: Seq<TilesetDefinition>, name: Seq<char>, n: int) -> Option<int>
    decreases n,
{
    if n <= 0 {
        None
    } else {
        match find_def(defs, name, n - 1) {
            Some(d) => Some(d),
            None => if defs[n - 1].identifier@ == name {
                Some(n - 1)
            } else {
                None
            },
        }
    }
}

/// The definition of the map's `i`-th tileset: the first one with its identifier.
pub open spec fn definition_of(map: LdtkMap, i: int) -> Option<int> {
    find_def(map.project.tilesets@, map.tile_sets@[i].identifier@, map.project.tilesets@.len() as int)
}

/// Every tileset of the map has a definition.
pub open spec fn all_defined(map: LdtkMap) -> bool {
    forall|i: int| 0 <= i < map.tile_sets@.len() ==> #[trigger] definition_of(map, i) is Some
}

/// The first of the map's first `n` tilesets whose definition has the unique id `uid`.
pub open spec fn find_tileset(map: LdtkMap, uid: i64, n: int) -> Option<int>
    decreases n,
{
    if n <= 0 {
        None
    } else {
        match find_tileset(map, uid, n - 1) {
            Some(i) => Some(i),
            None => match definition_of(map, n - 1) {
                Some(d) => if map.project.tilesets@[d].uid == uid {
                    Some(n - 1)
                } else {
                    None
                },
                None => None,
            },
        }
    }
}

/// The map's tileset that a layer referring to `uid` draws from.
pub open spec fn tileset_for(map: LdtkMap, uid: i64) -> Option<int> {
    find_tileset(map, uid, map.tile_sets@.len() as int)
}

/// The definition of the map's `i`-th tileset, which must have one.
pub open spec fn definition_at(map: LdtkMap, i: int) -> TilesetDefinition {
    map.project.tilesets@[definition_of(map, i).unwrap()]
}

/// The width in tiles of the map's `i`-th tileset.
pub open spec fn tileset_width_of(map: LdtkMap, i: int) -> u32 {
    (definition_at(map, i).px_wid / map.project.default_grid_size) as u32
}

/// The background color text that applies to a level.
pub open spec fn background_text(p: Project, level: Level) -> Seq<char> {
    match level.bg_color {
        Some(c) => c@,
        None => p.default_level_bg_color@,
    }
}

/// The error that composing one layer meets, if any.
pub open spec fn layer_error(map: LdtkMap, l: LayerInstance) -> Option<ComposeError> {
    match l.tileset_def_uid {
        None => None,
        Some(uid) => match tileset_for(map, uid) {
            None => Some(ComposeError::MissingTileset),
            Some(i) => if layer_tiles(l).len() > 0 && has_index_overflow(
                layer_tiles(l),
                map.project.default_grid_size,
                tileset_width_of(map, i),
            ) {
                Some(ComposeError::TileIndexOutOfRange)
            } else {
                None
            },
        },
    }
}

/// The authored layer that gets stacking index `z`: layers are authored topmost first.
pub open spec fn stacked(ls: Seq<LayerInstance>, z: int) -> LayerInstance {
    ls[ls.len() - 1 - z]
}

/// The first error met in composing the layers of stacking index below `z`.
pub open spec fn layers_error(map: LdtkMap, ls: Seq<LayerInstance>, z: int) -> Option<ComposeError>
    decreases z,
{
    if z <= 0 {
        None
    } else {
        match layers_error(map, ls, z - 1) {
            Some(e) => Some(e),
            None => layer_error(map, stacked(ls, z - 1)),
        }
    }
}

/// The error that composing the configured level of a map meets, if any.
pub open spec fn compose_error(map: LdtkMap, config: LdtkMapConfig) -> Option<ComposeError> {
    if !all_defined(map) {
        Some(ComposeError::MissingTilesetDefinition)
    } else if config.level >= map.project.levels@.len() {
        Some(ComposeError::LevelOutOfRange)
    } else {
        let level = map.project.levels@[config.level as int];
        if config.set_clear_color && color_of(background_text(map.project, level)) is None {
            Some(ComposeError::InvalidBackgroundColor)
        } else {
            match level.layer_instances {
                None => Some(ComposeError::LevelNotEmbedded),
                Some(ls) => layers_error(map, ls@, ls@.len() as int),
            }
        }
    }
}

/// How many composed layers an authored layer gives: none without a tileset or tiles, else
/// one per sublayer.
pub open spec fn output_count(map: LdtkMap, l: LayerInstance) -> nat {
    match l.tileset_def_uid {
        Some(uid) => if tileset_for(map, uid) is Some && layer_tiles(l).len() > 0 {
            sublayer_count(
                layer_tiles(l),
                map.project.default_grid_size,
                layer_tiles(l).len() as int,
            )
        } else {
            0
        },
        None => 0,
    }
}

/// How many composed layers come from the layers of stacking index below `z`.
pub open spec fn outputs_before(map: LdtkMap, ls: Seq<LayerInstance>, z: int) -> nat
    decreases z,
{
    if z <= 0 {
        0
    } else {
        outputs_before(map, ls, z - 1) + output_count(map, stacked(ls, z - 1))
    }
}

/// `cl` is sublayer `s` of the layer of stacking index `z` in `level`.
pub open spec fn is_composed_layer(
    cl: LdtkTilemapLayer,
    map: LdtkMap,
    config: LdtkMapConfig,
    level: Level,
    z: int,
    s: int,
) -> bool {
    let grid = map.project.default_grid_size;
    let l = stacked(level.layer_instances.unwrap()@, z);
    let tiles = layer_tiles(l);
    let i = tileset_for(map, l.tileset_def_uid.unwrap()).unwrap();
    let def = definition_at(map, i);
    let width = tileset_width_of(map, i);
    &&& cl.map_info == LdtkTilemapMapInfo {
        width: (level.px_wid / grid) as u32,
        height: (level.px_hei / grid) as u32,
        layer_index: z as u32,
        sublayer_index: s as u32,
        center_map: if config.center_map {
            1
        } else {
            0
        },
    }
    &&& cl.tileset_info == LdtkTilemapTilesetInfo {
        width,
        height: (def.px_hei / grid) as u32,
        grid_size: grid,
    }
    &&& cl.texture == map.tile_sets@[i].texture
    &&& cl.tiles@.len() == l.c_wid * l.c_hei
    &&& forall|x: int, y: int|
        0 <= x < l.c_wid && 0 <= y < l.c_hei ==> #[trigger] cl.tiles@[flat_index(l.c_wid as int, x, y)]
            == entry(tiles, grid, width, s, x, y, tiles.len() as int)
}

/// Finds the first definition named `name`.
fn find_definition(defs: &Vec<TilesetDefinition>, name: &String) -> (r: Option<usize>)
    ensures
        match r {
            Some(d) => find_def(defs@, name@, defs@.len() as int) == Some(d as int),
            None => find_def(defs@, name@, defs@.len() as int) is None,
        },
{
    let mut d: usize = 0;
    while d < defs.len()
        invariant
            d <= defs@.len(),
            find_def(defs@, name@, d as int) is None,
        decreases defs@.len() - d,
    {
        if defs[d].identifier == *name {
            proof {
                lemma_find_def_stable(defs@, name@, d as int + 1, defs@.len() as int);
            }
            return Some(d);
        }
        d += 1;
    }
    None
}

proof fn lemma_find_def_stable(defs: Seq<TilesetDefinition>, name: Seq<char>, n: int, m: int)
    requires
        0 <= n <= m,
        find_def(defs, name, n) is Some,
    ensures
        find_def(defs, name, m) == find_def(defs, name, n),
    decreases m - n,
{
    if n < m {
        lemma_find_def_stable(defs, name, n, m - 1);
    }
}

proof fn lemma_find_tileset_stable(map: LdtkMap, uid: i64, n: int, m: int)
    requires
        0 <= n <= m,
        find_tileset(map, uid, n) is Some,
    ensures
        find_tileset(map, uid, m) == find_tileset(map, uid, n),
    decreases m - n,
{
    if n < m {
        lemma_find_tileset_stable(map, uid, n, m - 1);
    }
}

proof fn lemma_find_tileset_in_range(map: LdtkMap, uid: i64, n: int)
    ensures
        find_tileset(map, uid, n) matches Some(i) ==> 0 <= i < n && definition_of(map, i) is Some
            && definition_at(map, i).uid == uid,
    decreases n,
{
    if n > 0 {
        lemma_find_tileset_in_range(map, uid, n - 1);
    }
}

proof fn lemma_find_def_in_range(defs: Seq<TilesetDefinition>, name: Seq<char>, n: int)
    ensures
        find_def(defs, name, n) matches Some(d) ==> 0 <= d < n,
    decreases n,
{
    if n > 0 {
        lemma_find_def_in_range(defs, name, n - 1);
    }
}

/// The definition index of each of the map's tilesets.
fn resolve_tilesets(map: &LdtkMap) -> (r: Result<Vec<usize>, ComposeError>)
    ensures
        match r {
            Ok(ds) => all_defined(*map) && ds@.len() == map.tile_sets@.len() && forall|i: int|
                0 <= i < ds@.len() ==> definition_of(*map, i) == Some(#[trigger] ds@[i] as int),
            Err(e) => !all_defined(*map) && e == ComposeError::MissingTilesetDefinition,
        },
{
    let mut ds: Vec<usize> = Vec::new();
    let mut i: usize = 0;
    while i < map.tile_sets.len()
        invariant
            i <= map.tile_sets@.len(),
            ds@.len() == i,
            forall|j: int| 0 <= j < i ==> definition_of(*map, j) == Some(#[trigger] ds@[j] as int),
        decreases map.tile_sets@.len() - i,
    {
        match find_definition(&map.project.tilesets, &map.tile_sets[i].identifier) {
            Some(d) => ds.push(d),
            None => {
                assert(definition_of(*map, i as int) is None);
                return Err(ComposeError::MissingTilesetDefinition);
            },
        }
        i += 1;
    }
    assert forall|j: int| 0 <= j < map.tile_sets@.len() implies #[trigger] definition_of(*map, j) is Some by {
        assert(definition_of(*map, j) == Some(ds@[j] as int));
    }
    Ok(ds)
}

/// Finds the first of the map's tilesets whose definition has the unique id `uid`.
fn tileset_index(map: &LdtkMap, ds: &Vec<usize>, uid: i64) -> (r: Option<usize>)
    requires
        ds@.len() == map.tile_sets@.len(),
        forall|i: int| 0 <= i < ds@.len() ==> definition_of(*map, i) == Some(#[trigger] ds@[i] as int),
    ensures
        match r {
            Some(i) => tileset_for(*map, uid) == Some(i as int),
            None => tileset_for(*map, uid) is None,
        },
{
    let mut i: usize = 0;
    while i < ds.len()
        invariant
            i <= ds@.len(),
            ds@.len() == map.tile_sets@.len(),
            forall|j: int| 0 <= j < ds@.len() ==> definition_of(*map, j) == Some(#[trigger] ds@[j] as int),
            find_tileset(*map, uid, i as int) is None,
        decreases ds@.len() - i,
    {
        let d = ds[i];
        assert(definition_of(*map, i as int) == Some(d as int));
        proof {
            lemma_find_def_in_range(
                map.project.tilesets@,
                map.tile_sets@[i as int].identifier@,
                map.project.tilesets@.len() as int,
            );
        }
        if map.project.tilesets[d].uid == uid {
            proof {
                lemma_find_tileset_stable(*map, uid, i as int + 1, ds@.len() as int);
            }
            return Some(i);
        }
        i += 1;
    }
    None
}

/// `m` is what composing the configured level of `map` gives: the clear color that the
/// configuration asks for, and for each layer of the level, from the lowest, one composed layer
/// per sublayer.
pub open spec fn composes(m: ComposedMap, map: LdtkMap, config: LdtkMapConfig) -> bool {
    let level = map.project.levels@[config.level as int];
    let ls = level.layer_instances.unwrap()@;
    &&& m.clear_color == if config.set_clear_color {
        color_of(background_text(map.project, level))
    } else {
        None
    }
    &&& m.layers@.len() == outputs_before(map, ls, ls.len() as int)
    &&& forall|z: int, s: int|
        0 <= z < ls.len() && 0 <= s < output_count(map, stacked(ls, z)) ==> #[trigger] is_composed_layer(
            m.layers@[outputs_before(map, ls, z) + s],
            map,
            config,
            level,
            z,
            s,
        )
}

/// Layer `a` is drawn below layer `b`: a lower stacking index, or the same one and a lower
/// sublayer.
pub open spec fn stacks_below(a: LdtkTilemapLayer, b: LdtkTilemapLayer) -> bool {
    ||| a.map_info.layer_index < b.map_info.layer_index
    ||| (a.map_info.layer_index == b.map_info.layer_index && a.map_info.sublayer_index
        < b.map_info.sublayer_index)
}

/// `map_info` with its sublayer index set to `s`.
pub open spec fn with_sublayer(map_info: LdtkTilemapMapInfo, s: int) -> LdtkTilemapMapInfo {
    LdtkTilemapMapInfo {
        width: map_info.width,
        height: map_info.height,
        layer_index: map_info.layer_index,
        sublayer_index: s as u32,
        center_map: map_info.center_map,
    }
}

fn push_sublayers(
    out: &mut Vec<LdtkTilemapLayer>,
    subs: Vec<Vec<LdtkTilemapTileInfo>>,
    map_info: LdtkTilemapMapInfo,
    tileset_info: LdtkTilemapTilesetInfo,
    texture: u64,
)
    ensures
        final(out)@.len() == old(out)@.len() + subs@.len(),
        forall|k: int| 0 <= k < old(out)@.len() ==> #[trigger] final(out)@[k] == old(out)@[k],
        forall|s: int|
            0 <= s < subs@.len() ==> #[trigger] final(out)@[old(out)@.len() + s] == (LdtkTilemapLayer {
                map_info: with_sublayer(map_info, s),
                tileset_info,
                texture,
                tiles: subs@[s],
            }),
{
    let ghost all = subs@;
    let ghost start = out@;
    let count = subs.len();
    let mut subs = subs;
    let mut s: usize = 0;
    while s < count
        invariant
            count == all.len(),
            s <= count,
            subs@ == all.subrange(s as int, count as int),
            out@.len() == start.len() + s,
            forall|k: int| 0 <= k < start.len() ==> #[trigger] out@[k] == start[k],
            forall|s2: int|
                0 <= s2 < s ==> #[trigger] out@[start.len() + s2] == (LdtkTilemapLayer {
                    map_info: with_sublayer(map_info, s2),
                    tileset_info,
                    texture,
                    tiles: all[s2],
                }),
        decreases count - s,
    {
        let tiles = subs.remove(0);
        let info = LdtkTilemapMapInfo {
            width: map_info.width,
            height: map_info.height,
            layer_index: map_info.layer_index,
            sublayer_index: s as u32,
            center_map: map_info.center_map,
        };
        out.push(LdtkTilemapLayer { map_info: info, tileset_info, texture, tiles });
        s += 1;
    }
}

proof fn lemma_layers_error_stable(map: LdtkMap, ls: Seq<LayerInstance>, z1: int, z2: int)
    requires
        0 <= z1 <= z2,
        layers_error(map, ls, z1) is Some,
    ensures
        layers_error(map, ls, z2) == layers_error(map, ls, z1),
    decreases z2 - z1,
{
    if z1 < z2 {
        lemma_layers_error_stable(map, ls, z1, z2 - 1);
    }
}

proof fn lemma_outputs_before_mono(map: LdtkMap, ls: Seq<LayerInstance>, z1: int, z2: int)
    requires
        0 <= z1 <= z2,
    ensures
        outputs_before(map, ls, z1) <= outputs_before(map, ls, z2),
    decreases z2 - z1,
{
    if z1 < z2 {
        lemma_outputs_before_mono(map, ls, z1, z2 - 1);
    }
}

/// Composes the configured level of a map into the layers to render, from the visually lowest
/// to the highest, and the clear color to apply where the configuration asks for one.
///
/// Layers are taken in reverse authored order, so that the bottom layer gets stacking index 0.
/// A layer without a tileset, or without tiles, gives nothing; any other gives one composed
/// layer per sublayer (see `compose_tiles`).
pub fn compose_level(map: &LdtkMap, config: &LdtkMapConfig) -> (r: Result<ComposedMap, ComposeError>)
    requires
        map.project.wf(),
    ensures
        match r {
            Err(e) => compose_error(*map, *config) == Some(e),
            Ok(m) => {
                &&& compose_error(*map, *config) is None
                &&& composes(m, *map, *config)
                &&& forall|a: int, b: int|
                    0 <= a < b < m.layers@.len() ==> stacks_below(
                        #[trigger] m.layers@[a],
                        #[trigger] m.layers@[b],
                    )
            },
        },
{
    let grid = map.project.default_grid_size;
    let ds = match resolve_tilesets(map) {
        Ok(ds) => ds,
        Err(e) => return Err(e),
    };
    if config.level >= map.project.levels.len() {
        return Err(ComposeError::LevelOutOfRange);
    }
    let level = &map.project.levels[config.level];
    assert(level.layers_fit());
    let clear_color = if config.set_clear_color {
        let text: &str = match &level.bg_color {
            Some(c) => c.as_str(),
            None => map.project.default_level_bg_color.as_str(),
        };
        match parse_background_color(text) {
            Some(c) => Some(c),
            None => return Err(ComposeError::InvalidBackgroundColor),
        }
    } else {
        None
    };
    let ls = match &level.layer_instances {
        Some(ls) => ls,
        None => return Err(ComposeError::LevelNotEmbedded),
    };
    let n = ls.len();
    let center_map: u32 = if config.center_map {
        1
    } else {
        0
    };
    let map_width = level.px_wid / grid;
    let map_height = level.px_hei / grid;
    let mut out: Vec<LdtkTilemapLayer> = Vec::new();
    let mut z: usize = 0;
    while z < n
        invariant
            grid == map.project.default_grid_size,
            grid > 0,
            all_defined(*map),
            config.level < map.project.levels@.len(),
            !(config.set_clear_color && color_of(background_text(map.project, *level)) is None),
            *level == map.project.levels@[config.level as int],
            level.layer_instances == Some(*ls),
            n == ls@.len(),
            n <= u32::MAX,
            forall|k: int| 0 <= k < n ==> #[trigger] ls@[k].fits(),
            map_width == level.px_wid / grid,
            map_height == level.px_hei / grid,
            center_map == if config.center_map {
                1u32
            } else {
                0u32
            },
            ds@.len() == map.tile_sets@.len(),
            forall|i: int| 0 <= i < ds@.len() ==> definition_of(*map, i) == Some(#[trigger] ds@[i] as int),
            z <= n,
            layers_error(*map, ls@, z as int) is None,
            out@.len() == outputs_before(*map, ls@, z as int),
            forall|z2: int, s: int|
                0 <= z2 < z && 0 <= s < output_count(*map, stacked(ls@, z2))
                    ==> #[trigger] is_composed_layer(
                    out@[outputs_before(*map, ls@, z2) + s],
                    *map,
                    *config,
                    *level,
                    z2,
                    s,
                ),
            forall|a: int, b: int|
                0 <= a < b < out@.len() ==> stacks_below(#[trigger] out@[a], #[trigger] out@[b]),
            forall|a: int| 0 <= a < out@.len() ==> (#[trigger] out@[a]).map_info.layer_index < z,
        decreases n - z,
    {
        let l = &ls[n - 1 - z];
        assert(*l == stacked(ls@, z as int));
        let ghost before = out@;
        match l.tileset_def_uid {
            None => {},
            Some(uid) => {
                let i = match tileset_index(map, &ds, uid) {
                    Some(i) => i,
                    None => {
                        proof {
                            lemma_layers_error_stable(*map, ls@, z + 1, n as int);
                        }
                        return Err(ComposeError::MissingTileset);
                    },
                };
                proof {
                    lemma_find_tileset_in_range(*map, uid, map.tile_sets@.len() as int);
                    lemma_find_def_in_range(
                        map.project.tilesets@,
                        map.tile_sets@[i as int].identifier@,
                        map.project.tilesets@.len() as int,
                    );
                }
                let tiles = l.tiles();
                if tiles.len() > 0 {
                    let def = &map.project.tilesets[ds[i]];
                    let width = def.px_wid / grid;
                    let tileset_info = LdtkTilemapTilesetInfo {
                        width,
                        height: def.px_hei / grid,
                        grid_size: grid,
                    };
                    let texture = map.tile_sets[i].texture;
                    assert(l.fits());
                    let subs = match compose_tiles(tiles, grid, width, l.c_wid, l.c_hei) {
                        Some(v) => v,
                        None => {
                            proof {
                                lemma_layers_error_stable(*map, ls@, z + 1, n as int);
                            }
                            return Err(ComposeError::TileIndexOutOfRange);
                        },
                    };
                    let ghost sub_seq = subs@;
                    proof {
                        lemma_sublayer_count_le(tiles@, grid, tiles@.len() as int);
                    }
                    let map_info = LdtkTilemapMapInfo {
                        width: map_width,
                        height: map_height,
                        layer_index: z as u32,
                        sublayer_index: 0,
                        center_map,
                    };
                    push_sublayers(&mut out, subs, map_info, tileset_info, texture);
                    proof {
                        assert forall|s: int|
                            0 <= s < output_count(*map, stacked(ls@, z as int)) implies #[trigger] is_composed_layer(
                            out@[outputs_before(*map, ls@, z as int) + s],
                            *map,
                            *config,
                            *level,
                            z as int,
                            s,
                        ) by {
                            assert(out@[before.len() + s].tiles == sub_seq[s]);
                        }
                        assert forall|a: int, b: int|
                            0 <= a < b < out@.len() implies stacks_below(
                            #[trigger] out@[a],
                            #[trigger] out@[b],
                        ) by {
                            if b < before.len() {
                                assert(out@[a] == before[a] && out@[b] == before[b]);
                            } else if a < before.len() {
                                assert(out@[a] == before[a]);
                                assert(out@[b] == out@[before.len() + (b - before.len())]);
                            } else {
                                assert(out@[a] == out@[before.len() + (a - before.len())]);
                                assert(out@[b] == out@[before.len() + (b - before.len())]);
                            }
                        }
                        assert forall|a: int| 0 <= a < out@.len() implies (#[trigger] out@[a]).map_info.layer_index < z + 1 by {
                            if a < before.len() {
                                assert(out@[a] == before[a]);
                            } else {
                                assert(out@[a] == out@[before.len() + (a - before.len())]);
                            }
                        }
                    }
                }
            },
        }
        proof {
            assert(outputs_before(*map, ls@, z + 1) == out@.len());
            assert forall|z2: int, s: int|
                0 <= z2 < z + 1 && 0 <= s < output_count(*map, stacked(ls@, z2))
                    implies #[trigger] is_composed_layer(
                    out@[outputs_before(*map, ls@, z2) + s],
                    *map,
                    *config,
                    *level,
                    z2,
                    s,
                ) by {
                if z2 < z {
                    lemma_outputs_before_mono(*map, ls@, z2 + 1, z as int);
                    assert(out@[outputs_before(*map, ls@, z2) + s] == before[outputs_before(*map, ls@, z2) + s]);
                }
            }
        }
        z += 1;
    }
    Ok(ComposedMap { clear_color, layers: out })
}

/// How many of the layers of stacking index below `z` have a tileset.
pub open spec fn tileset_layers(ls: Seq<LayerInstance>, z: int) -> nat
    decreases z,
{
    if z <= 0 {
        0
    } else {
        tileset_layers(ls, z - 1) + if stacked(ls, z - 1).tileset_def_uid is Some {
            1nat
        } else {
            0nat
        }
    }
}

/// The most composed layers that one of the layers of stacking index below `z` gives.
pub open spec fn max_output(map: LdtkMap, ls: Seq<LayerInstance>, z: int) -> nat
    decreases z,
{
    if z <= 0 {
        0
    } else {
        let here = output_count(map, stacked(ls, z - 1));
        let before = max_output(map, ls, z - 1);
        if here > before {
            here
        } else {
            before
        }
    }
}

/// Composing a level gives at most as many layers as it has layers with a tileset, times the
/// most sublayers that one of them needs, which is the most tiles that it places in one cell
/// (see `lemma_sublayer_count_is_max_overlap`).
pub proof fn lemma_composed_layer_bound(map: LdtkMap, ls: Seq<LayerInstance>)
    ensures
        outputs_before(map, ls, ls.len() as int) <= tileset_layers(ls, ls.len() as int) * max_output(
            map,
            ls,
            ls.len() as int,
        ),
{
    lemma_composed_prefix_bound(map, ls, ls.len() as int);
}

proof fn lemma_composed_prefix_bound(map: LdtkMap, ls: Seq<LayerInstance>, z: int)
    requires
        0 <= z,
    ensures
        outputs_before(map, ls, z) <= tileset_layers(ls, z) * max_output(map, ls, z),
    decreases z,
{
    if z > 0 {
        lemma_composed_prefix_bound(map, ls, z - 1);
        let t = tileset_layers(ls, z - 1);
        let m0 = max_output(map, ls, z - 1);
        let m1 = max_output(map, ls, z);
        assert(t * m0 <= t * m1) by (nonlinear_arith)
            requires
                m0 <= m1,
        ;
        if stacked(ls, z - 1).tileset_def_uid is Some {
            assert((t + 1) * m1 == t * m1 + m1) by (nonlinear_arith);
        }
    }
}

proof fn lemma_output_index(map: LdtkMap, ls: Seq<LayerInstance>, n: int, k: int) -> (zs: (int, int))
    requires
        0 <= n,
        0 <= k < outputs_before(map, ls, n),
    ensures
        0 <= zs.0 < n,
        0 <= zs.1 < output_count(map, stacked(ls, zs.0)),
        k == outputs_before(map, ls, zs.0) + zs.1,
    decreases n,
{
    if k < outputs_before(map, ls, n - 1) {
        lemma_output_index(map, ls, n - 1, k)
    } else {
        (n - 1, k - outputs_before(map, ls, n - 1))
    }
}

/// Composition is determined by the map and the configuration alone: two results of composing
/// the same level of the same map agree in their clear color, in their number of layers, and
/// in every layer's information, texture and tiles. So after a hot reload, composing the
/// updated map again yields the same layers as composing it afresh.
pub proof fn lemma_composition_is_determined(
    m1: ComposedMap,
    m2: ComposedMap,
    map: LdtkMap,
    config: LdtkMapConfig,
)
    requires
        compose_error(map, config) is None,
        composes(m1, map, config),
        composes(m2, map, config),
    ensures
        m1.clear_color == m2.clear_color,
        m1.layers@.len() == m2.layers@.len(),
        forall|k: int|
            0 <= k < m1.layers@.len() ==> {
                &&& (#[trigger] m1.layers@[k]).map_info == m2.layers@[k].map_info
                &&& m1.layers@[k].tileset_info == m2.layers@[k].tileset_info
                &&& m1.layers@[k].texture == m2.layers@[k].texture
                &&& m1.layers@[k].tiles@ == m2.layers@[k].tiles@
            },
{
    let level = map.project.levels@[config.level as int];
    let ls = level.layer_instances.unwrap()@;
    assert forall|k: int| 0 <= k < m1.layers@.len() implies {
        &&& (#[trigger] m1.layers@[k]).map_info == m2.layers@[k].map_info
        &&& m1.layers@[k].tileset_info == m2.layers@[k].tileset_info
        &&& m1.layers@[k].texture == m2.layers@[k].texture
        &&& m1.layers@[k].tiles@ == m2.layers@[k].tiles@
    } by {
        let (z, s) = lemma_output_index(map, ls, ls.len() as int, k);
        assert(is_composed_layer(m1.layers@[outputs_before(map, ls, z) + s], map, config, level, z, s));
        assert(is_composed_layer(m2.layers@[outputs_before(map, ls, z) + s], map, config, level, z, s));
        let l = stacked(ls, z);
        let a = m1.layers@[k].tiles@;
        let b = m2.layers@[k].tiles@;
        assert forall|p: int| 0 <= p < a.len() implies a[p] == b[p] by {
            lemma_flat_index_covers(l.c_wid as int, l.c_hei as int, p);
            let x = l.c_wid - 1 - p % (l.c_wid as int);
            let y = p / (l.c_wid as int);
            assert(a[flat_index(l.c_wid as int, x, y)] == b[flat_index(l.c_wid as int, x, y)]);
        }
        assert(a =~= b);
    }
}

/// A composed map holds at most as many layers as its level has layers with a tileset, times
/// the most sublayers that one of them needs, which is the most tiles that it places in one
/// cell (see `lemma_sublayer_count_is_max_overlap`).
pub proof fn lemma_composed_map_layer_bound(m: ComposedMap, map: LdtkMap, config: LdtkMapConfig)
    requires
        compose_error(map, config) is None,
        composes(m, map, config),
    ensures
        ({
            let ls = map.project.levels@[config.level as int].layer_instances.unwrap()@;
            m.layers@.len() <= tileset_layers(ls, ls.len() as int) * max_output(
                map,
                ls,
                ls.len() as int,
            )
        }),
{
    let ls = map.project.levels@[config.level as int].layer_instances.unwrap()@;
    lemma_composed_layer_bound(map, ls);
}

} // verus!
