use vstd::prelude::*;
use vstd::string::*;

use crate::project::{Project, TilesetDefinition};

verus! {

/// A tileset image that a map refers to, by the tileset's identifier.
#[derive(Debug, Clone)]
pub struct TilesetEntry {
    /// The identifier of the tileset definition.
    pub identifier: String,
    /// The identifier of the tileset texture in the host's asset table.
    pub texture: u64,
}

/// A loaded map: the parsed project and the texture of each of its tilesets.
#[derive(Debug, Clone)]
pub struct LdtkMap {
    pub project: Project,
    pub tile_sets: Vec<TilesetEntry>,
}

/// The tileset entries that a map asset records for a project: one per tileset definition, in
/// order, each with the texture loaded for it.
pub open spec fn tileset_entries_for(defs: Seq<TilesetDefinition>, textures: Seq<u64>) -> Seq<
    (Seq<char>, u64),
> {
    Seq::new(defs.len(), |i: int| (defs[i].identifier@, textures[i]))
}

impl LdtkMap {
    /// The map asset for a parsed project, given the texture loaded for each tileset
    /// definition, in the definitions' order.
    pub fn new(project: Project, textures: &Vec<u64>) -> (r: LdtkMap)
        requires
            textures@.len() == project.tilesets@.len(),
        ensures
            r.project == project,
            r.tile_sets@.len() == project.tilesets@.len(),
            forall|i: int|
                0 <= i < textures@.len() ==> (#[trigger] r.tile_sets@[i]).identifier@
                    == project.tilesets@[i].identifier@ && r.tile_sets@[i].texture == textures@[i],
    {
        let mut tile_sets: Vec<TilesetEntry> = Vec::new();
        let mut i: usize = 0;
        while i < project.tilesets.len()
            invariant
                textures@.len() == project.tilesets@.len(),
                i <= textures@.len(),
                tile_sets@.len() == i,
                forall|j: int|
                    0 <= j < i ==> (#[trigger] tile_sets@[j]).identifier@ == project.tilesets@[j].identifier@
                        && tile_sets@[j].texture == textures@[j],
            decreases textures@.len() - i,
        {
            let identifier = project.tilesets[i].identifier.clone();
            tile_sets.push(TilesetEntry { identifier, texture: textures[i] });
            i += 1;
        }
        LdtkMap { project, tile_sets }
    }
}

/// The label under which a tileset is registered as a sub-asset of its map.
pub open spec fn tileset_label_of(identifier: Seq<char>) -> Seq<char> {
    "tileset/"@ + identifier
}

/// The label under which the tileset `identifier` is registered as a sub-asset of its map.
pub fn tileset_label(identifier: &str) -> (r: String)
    ensures
        r@ == tileset_label_of(identifier@),
{
    let mut r = String::from_str("tileset/");
    r.append(identifier);
    r
}

/// How a map is displayed. The display scale is the host's business and is not part of it.
#[derive(Debug, Clone, Copy, PartialEq, Eq, Structural)]
pub struct LdtkMapConfig {
    /// Whether to set the screen's clear color to the level's background color.
    pub set_clear_color: bool,
    /// Which level of the project to display.
    pub level: usize,
    /// Whether to center the map around its transform instead of putting its top-left corner
    /// there.
    pub center_map: bool,
}

impl Default for LdtkMapConfig {
    fn default() -> (r: LdtkMapConfig)
        ensures
            r == (LdtkMapConfig { set_clear_color: false, level: 0, center_map: false }),
    {
        LdtkMapConfig { set_clear_color: false, level: 0, center_map: false }
    }
}

} // verus!
