use vstd::prelude::*;

verus! {

/// A composed layer entity and the map asset it was composed from.
#[derive(Debug, Clone, Copy, PartialEq, Eq, Structural)]
pub struct LayerEntity {
    /// The entity's identifier in the host.
    pub entity: u64,
    /// The map asset that the layer was composed from.
    pub map: u64,
}

/// A map entity: the map asset it displays and whether its layers have been composed.
#[derive(Debug, Clone, Copy, PartialEq, Eq, Structural)]
pub struct MapEntity {
    /// The entity's identifier in the host.
    pub entity: u64,
    /// The map asset it displays.
    pub map: u64,
    /// Whether its layers have been composed; while not, the compositor composes them.
    pub composed: bool,
}

/// A change that the host reports on a map asset.
#[derive(Debug, Clone, Copy, PartialEq, Eq, Structural)]
pub enum MapEvent {
    Created(u64),
    Modified(u64),
    Removed(u64),
}

/// The map entities and the composed layers that exist.
#[derive(Debug, Clone)]
pub struct MapScene {
    pub maps: Vec<MapEntity>,
    pub layers: Vec<LayerEntity>,
}

/// What a hot reload asks the host to do: the layer entities to despawn and the map entities
/// whose "composed" marker to remove.
#[derive(Debug, Clone)]
pub struct ReloadPlan {
    pub despawn: Vec<u64>,
    pub recompose: Vec<u64>,
}

/// The first `n` layers, but those composed from map asset `h`.
pub open spec fn layers_kept(layers: Seq<LayerEntity>, h: u64, n: int) -> Seq<LayerEntity>
    decreases n,
{
    if n <= 0 {
        seq![]
    } else if layers[n - 1].map == h {
        layers_kept(layers, h, n - 1)
    } else {
        layers_kept(layers, h, n - 1).push(layers[n - 1])
    }
}

/// The entities of the first `n` layers that were composed from map asset `h`.
pub open spec fn layers_dropped(layers: Seq<LayerEntity>, h: u64, n: int) -> Seq<u64>
    decreases n,
{
    if n <= 0 {
        seq![]
    } else if layers[n - 1].map == h {
        layers_dropped(layers, h, n - 1).push(layers[n - 1].entity)
    } else {
        layers_dropped(layers, h, n - 1)
    }
}

/// The entities of the first `n` maps that display map asset `h`.
pub open spec fn maps_of(maps: Seq<MapEntity>, h: u64, n: int) -> Seq<u64>
    decreases n,
{
    if n <= 0 {
        seq![]
    } else if maps[n - 1].map == h {
        maps_of(maps, h, n - 1).push(maps[n - 1].entity)
    } else {
        maps_of(maps, h, n - 1)
    }
}

/// A map entity after map asset `h` was modified: it must be composed again if it displays `h`.
pub open spec fn reset_map(m: MapEntity, h: u64) -> MapEntity {
    MapEntity { entity: m.entity, map: m.map, composed: m.composed && m.map != h }
}

proof fn lemma_kept_avoid(layers: Seq<LayerEntity>, h: u64, n: int)
    ensures
        forall|k: int|
            0 <= k < layers_kept(layers, h, n).len() ==> (#[trigger] layers_kept(layers, h, n)[k]).map
                != h,
    decreases n,
{
    if n > 0 {
        lemma_kept_avoid(layers, h, n - 1);
        let prev = layers_kept(layers, h, n - 1);
        assert forall|k: int|
            0 <= k < layers_kept(layers, h, n).len() implies (#[trigger] layers_kept(
            layers,
            h,
            n,
        )[k]).map != h by {
            if k < prev.len() {
                assert(layers_kept(layers, h, n)[k] == prev[k]);
            }
        }
    }
}

/// Handles one event on a map asset. When the asset `h` was modified, every layer composed from
/// it is torn down and every map entity displaying it loses its "composed" marker, so that the
/// compositor builds it again from the new asset; other events change nothing. Returns what the
/// host is to do to match.
pub fn hot_reload(scene: &mut MapScene, event: MapEvent) -> (plan: ReloadPlan)
    ensures
        match event {
            MapEvent::Modified(h) => {
                &&& final(scene).layers@ == layers_kept(
                    old(scene).layers@,
                    h,
                    old(scene).layers@.len() as int,
                )
                &&& final(scene).maps@.len() == old(scene).maps@.len()
                &&& forall|i: int|
                    0 <= i < old(scene).maps@.len() ==> #[trigger] final(scene).maps@[i] == reset_map(
                        old(scene).maps@[i],
                        h,
                    )
                &&& plan.despawn@ == layers_dropped(
                    old(scene).layers@,
                    h,
                    old(scene).layers@.len() as int,
                )
                &&& plan.recompose@ == maps_of(old(scene).maps@, h, old(scene).maps@.len() as int)
                &&& forall|k: int|
                    0 <= k < final(scene).layers@.len() ==> (#[trigger] final(scene).layers@[k]).map
                        != h
                &&& forall|i: int|
                    0 <= i < final(scene).maps@.len() && (#[trigger] final(scene).maps@[i]).map == h
                        ==> !final(scene).maps@[i].composed
            },
            _ => {
                &&& *final(scene) == *old(scene)
                &&& plan.despawn@.len() == 0
                &&& plan.recompose@.len() == 0
            },
        },
{
    let h = match event {
        MapEvent::Modified(h) => h,
        _ => {
            return ReloadPlan { despawn: Vec::new(), recompose: Vec::new() };
        },
    };
    let mut kept: Vec<LayerEntity> = Vec::new();
    let mut despawn: Vec<u64> = Vec::new();
    let mut k: usize = 0;
    while k < scene.layers.len()
        invariant
            *scene == *old(scene),
            k <= scene.layers@.len(),
            kept@ == layers_kept(scene.layers@, h, k as int),
            despawn@ == layers_dropped(scene.layers@, h, k as int),
        decreases scene.layers@.len() - k,
    {
        let l = scene.layers[k];
        if l.map == h {
            despawn.push(l.entity);
        } else {
            kept.push(l);
        }
        k += 1;
    }
    let ghost old_maps = scene.maps@;
    let mut recompose: Vec<u64> = Vec::new();
    let mut i: usize = 0;
    while i < scene.maps.len()
        invariant
            scene.layers@ == old(scene).layers@,
            old_maps == old(scene).maps@,
            i <= scene.maps@.len(),
            scene.maps@.len() == old_maps.len(),
            forall|j: int| 0 <= j < i ==> #[trigger] scene.maps@[j] == reset_map(old_maps[j], h),
            forall|j: int| i <= j < old_maps.len() ==> #[trigger] scene.maps@[j] == old_maps[j],
            recompose@ == maps_of(old_maps, h, i as int),
        decreases scene.maps@.len() - i,
    {
        let m = scene.maps[i];
        if m.map == h {
            recompose.push(m.entity);
            scene.maps.set(i, MapEntity { entity: m.entity, map: m.map, composed: false });
        }
        i += 1;
    }
    proof {
        lemma_kept_avoid(scene.layers@, h, scene.layers@.len() as int);
    }
    scene.layers = kept;
    ReloadPlan { despawn, recompose }
}

} // verus!
