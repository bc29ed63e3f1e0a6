use vstd::prelude::*;

verus! {

/// The per-frame systems of the plugin.
#[derive(Debug, Clone, Copy, PartialEq, Eq, Structural)]
pub enum MapSystem {
    /// Composes the layers of every map entity that has a loaded map and is not composed yet.
    ProcessMaps,
    /// Sets the sampling of loaded tileset textures and marks maps whose tilesets are ready.
    ProcessTilesets,
    /// Tears down and re-arms maps whose asset was modified.
    HotReloadMaps,
}

/// The systems the plugin registers, in order.
pub open spec fn plugin_systems() -> Seq<MapSystem> {
    seq![MapSystem::ProcessMaps, MapSystem::ProcessTilesets, MapSystem::HotReloadMaps]
}

/// Appends the plugin's systems to a schedule, in the order the host is to register them.
pub fn add_systems(schedule: &mut Vec<MapSystem>)
    ensures
        final(schedule)@ == old(schedule)@ + plugin_systems(),
{
    schedule.push(MapSystem::ProcessMaps);
    schedule.push(MapSystem::ProcessTilesets);
    schedule.push(MapSystem::HotReloadMaps);
}

} // verus!
