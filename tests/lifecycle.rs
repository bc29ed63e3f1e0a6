use bevy_ldtk::system::{add_systems, MapSystem};
use bevy_ldtk::asset::{tileset_label, LdtkMap, LdtkMapConfig};
use bevy_ldtk::project::{Project, TilesetDefinition};
use bevy_ldtk::readiness::{tilesets_ready, tileset_sampler_fix, FilterMode, SamplerFilters};
use bevy_ldtk::reload::{hot_reload, LayerEntity, MapEntity, MapEvent, MapScene};

fn scene() -> MapScene {
    MapScene {
        maps: vec![
            MapEntity { entity: 1, map: 10, composed: true },
            MapEntity { entity: 2, map: 20, composed: true },
        ],
        layers: vec![
            LayerEntity { entity: 11, map: 10 },
            LayerEntity { entity: 21, map: 20 },
            LayerEntity { entity: 12, map: 10 },
        ],
    }
}

#[test]
fn modified_map_is_torn_down_and_recomposed() {
    let mut s = scene();
    let plan = hot_reload(&mut s, MapEvent::Modified(10));
    assert_eq!(plan.despawn, vec![11, 12]);
    assert_eq!(plan.recompose, vec![1]);
    assert_eq!(s.layers, vec![LayerEntity { entity: 21, map: 20 }]);
    assert_eq!(s.maps[0], MapEntity { entity: 1, map: 10, composed: false });
    assert_eq!(s.maps[1], MapEntity { entity: 2, map: 20, composed: true });
}

#[test]
fn other_events_change_nothing() {
    for event in [MapEvent::Created(10), MapEvent::Removed(10), MapEvent::Modified(30)] {
        let mut s = scene();
        let plan = hot_reload(&mut s, event);
        assert!(plan.despawn.is_empty());
        assert!(plan.recompose.is_empty());
        assert_eq!(s.layers, scene().layers);
        assert_eq!(s.maps, scene().maps);
    }
}

#[test]
fn tilesets_are_ready_once_all_textures_loaded() {
    assert!(tilesets_ready(&vec![]));
    assert!(tilesets_ready(&vec![true, true]));
    assert!(!tilesets_ready(&vec![true, false]));
}

#[test]
fn linear_tileset_textures_become_nearest() {
    let nearest = SamplerFilters { min_filter: FilterMode::Nearest, mag_filter: FilterMode::Nearest };
    let linear = SamplerFilters { min_filter: FilterMode::Linear, mag_filter: FilterMode::Linear };
    assert_eq!(tileset_sampler_fix(linear), Some(nearest));
    assert_eq!(tileset_sampler_fix(nearest), None);
    assert_eq!(
        tileset_sampler_fix(SamplerFilters { min_filter: FilterMode::Nearest, mag_filter: FilterMode::Linear }),
        Some(nearest)
    );
    assert_eq!(
        tileset_sampler_fix(SamplerFilters { min_filter: FilterMode::Linear, mag_filter: FilterMode::Nearest }),
        Some(nearest)
    );
}

#[test]
fn tilesets_are_labelled_by_identifier() {
    assert_eq!(tileset_label("Terrain"), "tileset/Terrain");
}

#[test]
fn map_asset_pairs_definitions_with_textures() {
    let def = |uid: i64, name: &str| TilesetDefinition {
        uid,
        identifier: name.to_string(),
        rel_path: String::new(),
        px_wid: 16,
        px_hei: 16,
        tile_grid_size: 16,
        padding: 0,
    };
    let project = Project {
        default_grid_size: 16,
        default_level_bg_color: "#000000".to_string(),
        tilesets: vec![def(1, "A"), def(2, "B")],
        levels: vec![],
    };
    let map = LdtkMap::new(project, &vec![5, 6]);
    assert_eq!(map.tile_sets.len(), 2);
    assert_eq!(map.tile_sets[1].identifier, "B");
    assert_eq!(map.tile_sets[1].texture, 6);
}

#[test]
fn default_config_shows_the_first_level() {
    let c = LdtkMapConfig::default();
    assert_eq!(c, LdtkMapConfig { set_clear_color: false, level: 0, center_map: false });
}

#[test]
fn plugin_registers_its_three_systems() {
    let mut schedule = Vec::new();
    add_systems(&mut schedule);
    assert_eq!(
        schedule,
        vec![MapSystem::ProcessMaps, MapSystem::ProcessTilesets, MapSystem::HotReloadMaps]
    );
}
