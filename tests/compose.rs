use bevy_ldtk::asset::{LdtkMap, LdtkMapConfig, TilesetEntry};
use bevy_ldtk::color::{parse_background_color, Rgb};
use bevy_ldtk::compose::{assign_sublayers, compose_tiles, tile_info};
use bevy_ldtk::compositor::{compose_level, ComposeError};
use bevy_ldtk::pipeline::LdtkTilemapTileInfo;
use bevy_ldtk::reload::{hot_reload, LayerEntity, MapEntity, MapEvent, MapScene};
use bevy_ldtk::project::{
    LayerInstance, LayerKind, Level, Project, TileInstance, TilesetDefinition,
};

const EMPTY: LdtkTilemapTileInfo = LdtkTilemapTileInfo { tile_index: u32::MAX, flip_bits: 0 };

fn tile(px_x: u32, px_y: u32, src_x: u32, src_y: u32) -> TileInstance {
    TileInstance { px_x, px_y, src_x, src_y, flip_x: false, flip_y: false }
}

fn tileset(uid: i64, identifier: &str) -> TilesetDefinition {
    TilesetDefinition {
        uid,
        identifier: identifier.to_string(),
        rel_path: format!("{}.png", identifier),
        px_wid: 64,
        px_hei: 64,
        tile_grid_size: 16,
        padding: 0,
    }
}

fn layer(kind: LayerKind, uid: Option<i64>, auto: Vec<TileInstance>, grid: Vec<TileInstance>) -> LayerInstance {
    LayerInstance {
        identifier: "Layer".to_string(),
        kind,
        tileset_def_uid: uid,
        c_wid: 3,
        c_hei: 2,
        auto_layer_tiles: auto,
        grid_tiles: grid,
        entity_instances: Vec::new(),
    }
}

fn project(layers: Vec<LayerInstance>) -> Project {
    Project {
        default_grid_size: 16,
        default_level_bg_color: "#1E1E2C".to_string(),
        tilesets: vec![tileset(7, "Terrain")],
        levels: vec![Level {
            px_wid: 48,
            px_hei: 32,
            bg_color: None,
            layer_instances: Some(layers),
        }],
    }
}

fn map_of(project: Project) -> LdtkMap {
    LdtkMap::new(project, &vec![100])
}

fn config() -> LdtkMapConfig {
    LdtkMapConfig { set_clear_color: false, level: 0, center_map: false }
}

// Position of cell (x, y) in a flattened layer 3 cells wide.
fn at(x: usize, y: usize) -> usize {
    y * 3 + (3 - 1 - x)
}

#[test]
fn two_tiles_in_one_cell_make_two_sublayers() {
    let first = tile(0, 0, 16, 32);
    let second = tile(4, 8, 48, 0);
    let map = map_of(project(vec![layer(LayerKind::AutoLayer, Some(7), vec![first, second], vec![])]));
    let composed = compose_level(&map, &config()).unwrap();
    assert_eq!(composed.layers.len(), 2);
    let expected = [(32 / 16) * 4 + 16 / 16, (0 / 16) * 4 + 48 / 16];
    for (s, layer) in composed.layers.iter().enumerate() {
        assert_eq!(layer.map_info.sublayer_index, s as u32);
        assert_eq!(layer.map_info.layer_index, 0);
        assert_eq!(layer.tiles.len(), 6);
        for (p, t) in layer.tiles.iter().enumerate() {
            if p == at(0, 0) {
                assert_eq!(*t, LdtkTilemapTileInfo { tile_index: expected[s], flip_bits: 0 });
            } else {
                assert_eq!(*t, EMPTY);
            }
        }
    }
    assert_eq!(composed.layers[0].tiles[at(0, 0)].tile_index, 9);
    assert_eq!(composed.layers[1].tiles[at(0, 0)].tile_index, 3);
}

#[test]
fn composed_layer_carries_map_and_tileset_info() {
    let map = map_of(project(vec![layer(LayerKind::Tiles, Some(7), vec![], vec![tile(32, 16, 0, 16)])]));
    let cfg = LdtkMapConfig { set_clear_color: false, level: 0, center_map: true };
    let composed = compose_level(&map, &cfg).unwrap();
    assert_eq!(composed.clear_color, None);
    assert_eq!(composed.layers.len(), 1);
    let l = &composed.layers[0];
    assert_eq!(l.map_info.width, 3);
    assert_eq!(l.map_info.height, 2);
    assert_eq!(l.map_info.center_map, 1);
    assert_eq!(l.tileset_info.width, 4);
    assert_eq!(l.tileset_info.height, 4);
    assert_eq!(l.tileset_info.grid_size, 16);
    assert_eq!(l.texture, 100);
    assert_eq!(l.tiles[at(2, 1)], LdtkTilemapTileInfo { tile_index: 4, flip_bits: 0 });
    assert_eq!(l.tiles.iter().filter(|t| **t == EMPTY).count(), 5);
}

#[test]
fn layers_stack_in_reverse_authored_order() {
    let top = layer(LayerKind::Tiles, Some(7), vec![], vec![tile(0, 0, 0, 0)]);
    let entities = layer(LayerKind::Entities, None, vec![], vec![]);
    let bottom = layer(LayerKind::AutoLayer, Some(7), vec![tile(16, 0, 16, 0), tile(16, 0, 32, 0)], vec![]);
    let map = map_of(project(vec![top, entities, bottom]));
    let composed = compose_level(&map, &config()).unwrap();
    let order: Vec<(u32, u32)> = composed
        .layers
        .iter()
        .map(|l| (l.map_info.layer_index, l.map_info.sublayer_index))
        .collect();
    assert_eq!(order, vec![(0, 0), (0, 1), (2, 0)]);
    assert_eq!(composed.layers[2].tiles[at(0, 0)].tile_index, 0);
    assert_eq!(composed.layers[0].tiles[at(1, 0)].tile_index, 1);
    assert_eq!(composed.layers[1].tiles[at(1, 0)].tile_index, 2);
}

#[test]
fn layer_without_tiles_gives_nothing() {
    let map = map_of(project(vec![layer(LayerKind::Tiles, Some(7), vec![], vec![])]));
    let composed = compose_level(&map, &config()).unwrap();
    assert!(composed.layers.is_empty());
}

#[test]
fn auto_tiles_take_precedence_over_grid_tiles() {
    let map = map_of(project(vec![layer(
        LayerKind::AutoLayer,
        Some(7),
        vec![tile(0, 0, 16, 0)],
        vec![tile(0, 0, 32, 0)],
    )]));
    let composed = compose_level(&map, &config()).unwrap();
    assert_eq!(composed.layers.len(), 1);
    assert_eq!(composed.layers[0].tiles[at(0, 0)].tile_index, 1);
}

#[test]
fn flip_flags_become_bits() {
    let mut t = tile(0, 0, 0, 0);
    assert_eq!(tile_info(&t, 16, 4).unwrap().flip_bits, 0);
    t.flip_x = true;
    assert_eq!(tile_info(&t, 16, 4).unwrap().flip_bits, 1);
    t.flip_y = true;
    assert_eq!(tile_info(&t, 16, 4).unwrap().flip_bits, 3);
    t.flip_x = false;
    assert_eq!(tile_info(&t, 16, 4).unwrap().flip_bits, 2);
}

#[test]
fn tile_index_is_row_times_width_plus_column() {
    let t = tile(0, 0, 48, 32);
    assert_eq!(tile_info(&t, 16, 4).unwrap().tile_index, 2 * 4 + 3);
    let far = tile(0, 0, 0, u32::MAX);
    assert_eq!(tile_info(&far, 1, 2), None);
}

#[test]
fn sublayers_follow_earlier_tiles_in_the_same_cell() {
    let tiles = vec![tile(0, 0, 0, 0), tile(16, 0, 0, 0), tile(1, 1, 0, 0), tile(15, 15, 0, 0), tile(16, 16, 0, 0)];
    assert_eq!(assign_sublayers(&tiles, 16), vec![0, 0, 1, 2, 0]);
    let layers = compose_tiles(&tiles, 16, 4, 2, 2).unwrap();
    assert_eq!(layers.len(), 3);
    assert!(layers.iter().all(|l| l.len() == 4));
}

#[test]
fn tiles_outside_the_layer_still_open_sublayers() {
    let tiles = vec![tile(160, 0, 16, 0), tile(160, 0, 16, 0)];
    let layers = compose_tiles(&tiles, 16, 4, 2, 1).unwrap();
    assert_eq!(layers.len(), 2);
    assert!(layers.iter().all(|l| l.iter().all(|t| *t == EMPTY)));
}

#[test]
fn background_color_is_parsed() {
    assert_eq!(parse_background_color("#1E1E2C"), Some(Rgb { r: 0x1E, g: 0x1E, b: 0x2C }));
    assert_eq!(parse_background_color("#a0b1c2"), Some(Rgb { r: 0xa0, g: 0xb1, b: 0xc2 }));
    assert_eq!(parse_background_color("1E1E2"), None);
    assert_eq!(parse_background_color("1E1E2C"), None);
    assert_eq!(parse_background_color("#1E1E2G"), None);
    assert_eq!(parse_background_color("#1E1E2C0"), None);
}

#[test]
fn clear_color_comes_from_the_project_default() {
    let map = map_of(project(vec![]));
    let cfg = LdtkMapConfig { set_clear_color: true, level: 0, center_map: false };
    let composed = compose_level(&map, &cfg).unwrap();
    assert_eq!(composed.clear_color, Some(Rgb { r: 0x1E, g: 0x1E, b: 0x2C }));
}

#[test]
fn clear_color_prefers_the_level_color() {
    let mut p = project(vec![]);
    p.levels[0].bg_color = Some("#102030".to_string());
    let map = map_of(p);
    let cfg = LdtkMapConfig { set_clear_color: true, level: 0, center_map: false };
    assert_eq!(compose_level(&map, &cfg).unwrap().clear_color, Some(Rgb { r: 0x10, g: 0x20, b: 0x30 }));
}

#[test]
fn malformed_clear_color_is_a_format_error() {
    let mut p = project(vec![]);
    p.default_level_bg_color = "1E1E2".to_string();
    let map = map_of(p);
    let cfg = LdtkMapConfig { set_clear_color: true, level: 0, center_map: false };
    assert_eq!(compose_level(&map, &cfg).unwrap_err(), ComposeError::InvalidBackgroundColor);
    assert!(compose_level(&map, &config()).is_ok());
}

#[test]
fn level_out_of_range_is_an_error() {
    let map = map_of(project(vec![]));
    let cfg = LdtkMapConfig { set_clear_color: false, level: 1, center_map: false };
    assert_eq!(compose_level(&map, &cfg).unwrap_err(), ComposeError::LevelOutOfRange);
}

#[test]
fn level_in_another_file_is_an_error() {
    let mut p = project(vec![]);
    p.levels[0].layer_instances = None;
    let map = map_of(p);
    assert_eq!(compose_level(&map, &config()).unwrap_err(), ComposeError::LevelNotEmbedded);
}

#[test]
fn unknown_tileset_uid_is_an_error() {
    let map = map_of(project(vec![layer(LayerKind::Tiles, Some(8), vec![], vec![])]));
    assert_eq!(compose_level(&map, &config()).unwrap_err(), ComposeError::MissingTileset);
}

#[test]
fn tileset_without_definition_is_an_error() {
    let mut map = map_of(project(vec![]));
    map.tile_sets.push(TilesetEntry { identifier: "Other".to_string(), texture: 5 });
    assert_eq!(compose_level(&map, &config()).unwrap_err(), ComposeError::MissingTilesetDefinition);
}

#[test]
fn oversized_tile_index_is_an_error() {
    let mut p = project(vec![layer(LayerKind::Tiles, Some(7), vec![], vec![tile(0, 0, 0, u32::MAX)])]);
    p.default_grid_size = 1;
    let map = map_of(p);
    assert_eq!(compose_level(&map, &config()).unwrap_err(), ComposeError::TileIndexOutOfRange);
}

#[test]
fn well_formed_projects() {
    assert!(project(vec![]).is_well_formed());
    let mut p = project(vec![]);
    p.default_grid_size = 0;
    assert!(!p.is_well_formed());
}

#[test]
fn reload_then_recompose_gives_the_same_layers() {
    let tiles = vec![tile(0, 0, 16, 32), tile(0, 0, 48, 0), tile(32, 16, 0, 0)];
    let map = map_of(project(vec![layer(LayerKind::AutoLayer, Some(7), tiles, vec![])]));
    let first = compose_level(&map, &config()).unwrap();
    let mut scene = MapScene {
        maps: vec![MapEntity { entity: 1, map: 9, composed: true }],
        layers: (0..first.layers.len() as u64).map(|i| LayerEntity { entity: 10 + i, map: 9 }).collect(),
    };
    let plan = hot_reload(&mut scene, MapEvent::Modified(9));
    assert_eq!(plan.despawn.len(), first.layers.len());
    assert!(scene.layers.is_empty());
    assert!(!scene.maps[0].composed);
    let second = compose_level(&map, &config()).unwrap();
    assert_eq!(first.layers.len(), second.layers.len());
    for (a, b) in first.layers.iter().zip(second.layers.iter()) {
        assert_eq!(a.map_info, b.map_info);
        assert_eq!(a.tileset_info, b.tileset_info);
        assert_eq!(a.texture, b.texture);
        assert_eq!(a.tiles, b.tiles);
    }
}
