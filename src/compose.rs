use vstd::arithmetic::div_mod::{lemma_div_pos_is_pos, lemma_fundamental_div_mod, lemma_mod_pos_bound};
use vstd::prelude::*;
use std::collections::HashMap;

use crate::pipeline::{empty_tile, LdtkTilemapTileInfo};
use crate::project::TileInstance;

verus! {

broadcast use vstd::std_specs::hash::group_hash_axioms;

/// The grid cell `(column, row)` that a tile lands in.
pub open spec fn cell_of(t: TileInstance, grid: u32) -> (int, int) {
    (t.px_x as int / grid as int, t.px_y as int / grid as int)
}

/// How many of the first `n` tiles land in cell `c`.
pub open spec fn count_at(tiles: Seq<TileInstance>, grid: u32, n: int, c: (int, int)) -> nat
    decreases n,
{
    if n <= 0 {
        0
    } else {
        count_at(tiles, grid, n - 1, c) + if cell_of(tiles[n - 1], grid) == c {
            1nat
        } else {
            0nat
        }
    }
}

/// The sublayer that tile `i` goes to: the first one whose cell is still free once the tiles
/// before it are placed, which is the number of earlier tiles in the same cell.
pub open spec fn sublayer_of(tiles: Seq<TileInstance>, grid: u32, i: int) -> nat {
    count_at(tiles, grid, i, cell_of(tiles[i], grid))
}

/// How many sublayers the first `n` tiles need: the largest number of them that share a cell.
pub open spec fn sublayer_count(tiles: Seq<TileInstance>, grid: u32, n: int) -> nat
    decreases n,
{
    if n <= 0 {
        0
    } else {
        let before = sublayer_count(tiles, grid, n - 1);
        let here = sublayer_of(tiles, grid, n - 1) + 1;
        if here > before {
            here
        } else {
            before
        }
    }
}

/// The index of a tile's image in a tileset that is `tileset_width` tiles wide.
pub open spec fn tile_index_of(t: TileInstance, grid: u32, tileset_width: u32) -> int {
    (t.src_y as int / grid as int) * tileset_width as int + t.src_x as int / grid as int
}

/// Bit 0 for a horizontal flip, bit 1 for a vertical one.
pub open spec fn flip_bits_of(t: TileInstance) -> u32 {
    ((if t.flip_x { 1int } else { 0int }) + (if t.flip_y { 2int } else { 0int })) as u32
}

/// What the renderer receives for a placed tile.
pub open spec fn tile_info_of(t: TileInstance, grid: u32, tileset_width: u32) -> LdtkTilemapTileInfo {
    LdtkTilemapTileInfo {
        tile_index: tile_index_of(t, grid, tileset_width) as u32,
        flip_bits: flip_bits_of(t),
    }
}

/// The content of cell `(x, y)` of sublayer `s` once the first `n` tiles are placed: the tile
/// that went there, or the empty tile.
pub open spec fn entry(
    tiles: Seq<TileInstance>,
    grid: u32,
    tileset_width: u32,
    s: int,
    x: int,
    y: int,
    n: int,
) -> LdtkTilemapTileInfo
    decreases n,
{
    if n <= 0 {
        empty_tile()
    } else if cell_of(tiles[n - 1], grid) == (x, y) && sublayer_of(tiles, grid, n - 1) == s {
        tile_info_of(tiles[n - 1], grid, tileset_width)
    } else {
        entry(tiles, grid, tileset_width, s, x, y, n - 1)
    }
}

/// Where cell `(x, y)` of a layer `width` cells wide stands in its flattened tile array: rows
/// top to bottom, and each row from its last column to its first, as the tilemap shader reads it.
pub open spec fn flat_index(width: int, x: int, y: int) -> int {
    y * width + (width - 1 - x)
}

/// Whether some tile's image index does not fit below the empty tile's index.
pub open spec fn has_index_overflow(
    tiles: Seq<TileInstance>,
    grid: u32,
    tileset_width: u32,
) -> bool {
    exists|i: int| 0 <= i < tiles.len() && tile_index_of(#[trigger] tiles[i], grid, tileset_width) >= u32::MAX
}

/// The key under which cell `(x, y)` is counted.
spec fn key_of(x: u32, y: u32) -> u64 {
    (x as int * 0x1_0000_0000 + y as int) as u64
}

fn cell_key(x: u32, y: u32) -> (r: u64)
    ensures
        r == key_of(x, y),
        r == x as int * 0x1_0000_0000 + y as int,
{
    x as u64 * 0x1_0000_0000 + y as u64
}

/// Gives each tile, in order, the sublayer it is placed in: the first one in which its cell is
/// still free.
pub fn assign_sublayers(tiles: &Vec<TileInstance>, grid: u32) -> (r: Vec<usize>)
    requires
        grid > 0,
    ensures
        r@.len() == tiles@.len(),
        forall|i: int| 0 <= i < tiles@.len() ==> r@[i] == sublayer_of(tiles@, grid, i),
{
    let mut counts: HashMap<u64, usize> = HashMap::new();
    let mut r: Vec<usize> = Vec::new();
    let mut i: usize = 0;
    while i < tiles.len()
        invariant
            grid > 0,
            i <= tiles@.len(),
            r@.len() == i,
            forall|j: int| 0 <= j < i ==> r@[j] == sublayer_of(tiles@, grid, j),
            forall|x: u32, y: u32|
                #[trigger] count_at(tiles@, grid, i as int, (x as int, y as int)) == if counts@.contains_key(key_of(x, y)) {
                    counts@[key_of(x, y)] as int
                } else {
                    0
                },
            forall|k: u64| #[trigger] counts@.contains_key(k) ==> counts@[k] <= i,
        decreases tiles@.len() - i,
    {
        let t = tiles[i];
        let cx = t.px_x / grid;
        let cy = t.px_y / grid;
        let key = cell_key(cx, cy);
        let s: usize = match counts.get(&key) {
            Some(v) => *v,
            None => 0,
        };
        assert(count_at(tiles@, grid, i as int, (cx as int, cy as int)) == s);
        let ghost before = counts@;
        counts.insert(key, s + 1);
        r.push(s);
        assert forall|x: u32, y: u32|
            #[trigger] count_at(tiles@, grid, i + 1, (x as int, y as int)) == if counts@.contains_key(key_of(x, y)) {
                counts@[key_of(x, y)] as int
            } else {
                0
            } by {
            let k = key_of(x, y);
            assert(count_at(tiles@, grid, i as int, (x as int, y as int)) == if before.contains_key(k) {
                before[k] as int
            } else {
                0
            });
            if (x as int, y as int) != (cx as int, cy as int) {
                assert(k != key);
            }
        }
        i += 1;
    }
    r
}

proof fn lemma_count_le_sublayer_count(tiles: Seq<TileInstance>, grid: u32, n: int, c: (int, int))
    requires
        0 <= n <= tiles.len(),
    ensures
        count_at(tiles, grid, n, c) <= sublayer_count(tiles, grid, n),
    decreases n,
{
    if n > 0 {
        lemma_count_le_sublayer_count(tiles, grid, n - 1, c);
    }
}

proof fn lemma_sublayer_below_count(tiles: Seq<TileInstance>, grid: u32, n: int, j: int)
    requires
        0 <= j < n <= tiles.len(),
    ensures
        sublayer_of(tiles, grid, j) < sublayer_count(tiles, grid, n),
    decreases n,
{
    if j < n - 1 {
        lemma_sublayer_below_count(tiles, grid, n - 1, j);
    }
}

proof fn lemma_entry_beyond_count_is_empty(
    tiles: Seq<TileInstance>,
    grid: u32,
    tileset_width: u32,
    s: int,
    x: int,
    y: int,
    n: int,
)
    requires
        0 <= n <= tiles.len(),
        s >= sublayer_count(tiles, grid, n),
    ensures
        entry(tiles, grid, tileset_width, s, x, y, n) == empty_tile(),
    decreases n,
{
    if n > 0 {
        lemma_sublayer_below_count(tiles, grid, n, n - 1);
        assert(sublayer_count(tiles, grid, n - 1) <= sublayer_count(tiles, grid, n));
        lemma_entry_beyond_count_is_empty(tiles, grid, tileset_width, s, x, y, n - 1);
    }
}

proof fn lemma_flat_index_bounds(w: int, h: int, x: int, y: int)
    requires
        0 <= x < w,
        0 <= y < h,
    ensures
        0 <= flat_index(w, x, y) < w * h,
{
    assert(0 <= y * w <= (h - 1) * w) by (nonlinear_arith)
        requires
            0 <= y <= h - 1,
            0 < w,
    ;
    assert((h - 1) * w + w == w * h) by (nonlinear_arith);
}

proof fn lemma_flat_index_injective(w: int, x: int, y: int, x2: int, y2: int)
    requires
        0 <= x < w,
        0 <= x2 < w,
        0 <= y,
        0 <= y2,
        flat_index(w, x, y) == flat_index(w, x2, y2),
    ensures
        x == x2,
        y == y2,
{
    if y < y2 {
        assert(y * w + w <= y2 * w) by (nonlinear_arith)
            requires
                y < y2,
                0 < w,
        ;
    } else if y2 < y {
        assert(y2 * w + w <= y * w) by (nonlinear_arith)
            requires
                y2 < y,
                0 < w,
        ;
    }
}

fn empty_layer(size: usize) -> (r: Vec<LdtkTilemapTileInfo>)
    ensures
        r@.len() == size,
        forall|p: int| 0 <= p < size ==> #[trigger] r@[p] == empty_tile(),
{
    let mut r: Vec<LdtkTilemapTileInfo> = Vec::with_capacity(size);
    let mut p: usize = 0;
    while p < size
        invariant
            p <= size,
            r@.len() == p,
            forall|q: int| 0 <= q < p ==> #[trigger] r@[q] == empty_tile(),
        decreases size - p,
    {
        r.push(LdtkTilemapTileInfo::empty());
        p += 1;
    }
    r
}

/// What the renderer receives for a placed tile, or `None` where its image index would not fit
/// below the empty tile's index.
pub fn tile_info(t: &TileInstance, grid: u32, tileset_width: u32) -> (r: Option<LdtkTilemapTileInfo>)
    requires
        grid > 0,
    ensures
        r is None <==> tile_index_of(*t, grid, tileset_width) >= u32::MAX,
        r matches Some(info) ==> info == tile_info_of(*t, grid, tileset_width),
{
    let row = (t.src_y / grid) as u64;
    let column = (t.src_x / grid) as u64;
    assert(row * tileset_width <= 0xffff_ffff * 0xffff_ffff) by (nonlinear_arith)
        requires
            row <= 0xffff_ffff,
            tileset_width <= 0xffff_ffff,
    ;
    let index = row * tileset_width as u64 + column;
    if index >= u32::MAX as u64 {
        None
    } else {
        let flip_x: u32 = if t.flip_x { 1 } else { 0 };
        let flip_y: u32 = if t.flip_y { 2 } else { 0 };
        Some(LdtkTilemapTileInfo { tile_index: index as u32, flip_bits: flip_x + flip_y })
    }
}

/// Spreads a layer's tiles over as many sublayers as its most crowded cell needs, and flattens
/// each sublayer into a dense array of `c_wid * c_hei` cells (see `flat_index`), with the empty
/// tile in every cell that no tile reaches. Tiles outside the layer's extent still take their
/// place in a sublayer but appear in no array. `None` where a tile's image index does not fit.
pub fn compose_tiles(
    tiles: &Vec<TileInstance>,
    grid: u32,
    tileset_width: u32,
    c_wid: u32,
    c_hei: u32,
) -> (r: Option<Vec<Vec<LdtkTilemapTileInfo>>>)
    requires
        grid > 0,
        c_wid * c_hei <= usize::MAX,
    ensures
        r is None <==> has_index_overflow(tiles@, grid, tileset_width),
        r matches Some(layers) ==> {
            &&& layers@.len() == sublayer_count(tiles@, grid, tiles@.len() as int)
            &&& forall|s: int| 0 <= s < layers@.len() ==> (#[trigger] layers@[s])@.len() == c_wid * c_hei
            &&& forall|s: int, x: int, y: int|
                0 <= s < layers@.len() && 0 <= x < c_wid && 0 <= y < c_hei
                    ==> #[trigger] layers@[s]@[flat_index(c_wid as int, x, y)] == entry(
                    tiles@,
                    grid,
                    tileset_width,
                    s,
                    x,
                    y,
                    tiles@.len() as int,
                )
        },
{
    let sub = assign_sublayers(tiles, grid);
    let mut infos: Vec<LdtkTilemapTileInfo> = Vec::new();
    let mut i: usize = 0;
    while i < tiles.len()
        invariant
            grid > 0,
            i <= tiles@.len(),
            infos@.len() == i,
            forall|j: int| 0 <= j < i ==> infos@[j] == tile_info_of(#[trigger] tiles@[j], grid, tileset_width),
            forall|j: int| 0 <= j < i ==> tile_index_of(#[trigger] tiles@[j], grid, tileset_width) < u32::MAX,
        decreases tiles@.len() - i,
    {
        match tile_info(&tiles[i], grid, tileset_width) {
            Some(info) => infos.push(info),
            None => {
                assert(tile_index_of(tiles@[i as int], grid, tileset_width) >= u32::MAX);
                return None;
            },
        }
        i += 1;
    }
    let size: usize = c_wid as usize * c_hei as usize;
    let mut layers: Vec<Vec<LdtkTilemapTileInfo>> = Vec::new();
    let mut i: usize = 0;
    while i < tiles.len()
        invariant
            grid > 0,
            size == c_wid * c_hei,
            i <= tiles@.len(),
            infos@.len() == tiles@.len(),
            sub@.len() == tiles@.len(),
            forall|j: int| 0 <= j < tiles@.len() ==> sub@[j] == sublayer_of(tiles@, grid, j),
            forall|j: int| 0 <= j < tiles@.len() ==> infos@[j] == tile_info_of(#[trigger] tiles@[j], grid, tileset_width),
            layers@.len() == sublayer_count(tiles@, grid, i as int),
            forall|s: int| 0 <= s < layers@.len() ==> (#[trigger] layers@[s])@.len() == size,
            forall|s: int, x: int, y: int|
                0 <= s < layers@.len() && 0 <= x < c_wid && 0 <= y < c_hei
                    ==> #[trigger] layers@[s]@[flat_index(c_wid as int, x, y)] == entry(
                    tiles@,
                    grid,
                    tileset_width,
                    s,
                    x,
                    y,
                    i as int,
                ),
        decreases tiles@.len() - i,
    {
        let s = sub[i];
        let t = tiles[i];
        let cx = t.px_x / grid;
        let cy = t.px_y / grid;
        proof {
            lemma_count_le_sublayer_count(tiles@, grid, i as int, (cx as int, cy as int));
        }
        if s == layers.len() {
            layers.push(empty_layer(size));
            proof {
                assert forall|x: int, y: int| 0 <= x < c_wid && 0 <= y < c_hei implies #[trigger] layers@[s as int]@[flat_index(c_wid as int, x, y)] == entry(
                    tiles@,
                    grid,
                    tileset_width,
                    s as int,
                    x,
                    y,
                    i as int,
                ) by {
                    lemma_flat_index_bounds(c_wid as int, c_hei as int, x, y);
                    lemma_entry_beyond_count_is_empty(tiles@, grid, tileset_width, s as int, x, y, i as int);
                }
            }
        }
        let ghost before = layers@;
        if cx < c_wid && cy < c_hei {
            proof {
                lemma_flat_index_bounds(c_wid as int, c_hei as int, cx as int, cy as int);
            }
            let pos: usize = cy as usize * c_wid as usize + (c_wid - 1 - cx) as usize;
            layers[s].set(pos, infos[i]);
        }
        proof {
            assert forall|s2: int, x: int, y: int|
                0 <= s2 < layers@.len() && 0 <= x < c_wid && 0 <= y < c_hei
                    implies #[trigger] layers@[s2]@[flat_index(c_wid as int, x, y)] == entry(
                    tiles@,
                    grid,
                    tileset_width,
                    s2,
                    x,
                    y,
                    i + 1,
                ) by {
                if (x, y) != (cx as int, cy as int) && cx < c_wid && cy < c_hei {
                    if flat_index(c_wid as int, x, y) == flat_index(c_wid as int, cx as int, cy as int) {
                        lemma_flat_index_injective(c_wid as int, x, y, cx as int, cy as int);
                    }
                }
                lemma_flat_index_bounds(c_wid as int, c_hei as int, x, y);
                assert(before[s2]@[flat_index(c_wid as int, x, y)] == entry(tiles@, grid, tileset_width, s2, x, y, i as int));
            }
        }
        i += 1;
    }
    Some(layers)
}

/// A layer needs no more sublayers than it has tiles.
pub proof fn lemma_sublayer_count_le(tiles: Seq<TileInstance>, grid: u32, n: int)
    requires
        0 <= n <= tiles.len(),
    ensures
        sublayer_count(tiles, grid, n) <= n,
    decreases n,
{
    if n > 0 {
        lemma_sublayer_count_le(tiles, grid, n - 1);
        lemma_count_le(tiles, grid, n - 1, cell_of(tiles[n - 1], grid));
    }
}

proof fn lemma_count_le(tiles: Seq<TileInstance>, grid: u32, n: int, c: (int, int))
    requires
        0 <= n,
    ensures
        count_at(tiles, grid, n, c) <= n,
    decreases n,
{
    if n > 0 {
        lemma_count_le(tiles, grid, n - 1, c);
    }
}

proof fn lemma_count_mono(tiles: Seq<TileInstance>, grid: u32, n: int, m: int, c: (int, int))
    requires
        0 <= n <= m,
    ensures
        count_at(tiles, grid, n, c) <= count_at(tiles, grid, m, c),
    decreases m - n,
{
    if n < m {
        lemma_count_mono(tiles, grid, n, m - 1, c);
    }
}

/// Two tiles that land in the same cell never share a sublayer: the later one lies in a higher
/// sublayer. As the sublayer of a tile depends on the tiles before it alone, the assignment is
/// the same on every run over the same tiles in the same order.
pub proof fn lemma_same_cell_distinct_sublayers(tiles: Seq<TileInstance>, grid: u32, i: int, j: int)
    requires
        0 <= i < j < tiles.len(),
        cell_of(tiles[i], grid) == cell_of(tiles[j], grid),
    ensures
        sublayer_of(tiles, grid, i) < sublayer_of(tiles, grid, j),
{
    lemma_count_mono(tiles, grid, i + 1, j, cell_of(tiles[j], grid));
}

/// The number of sublayers is the largest number of tiles that share one cell: no cell holds
/// more, and some cell holds that many.
pub proof fn lemma_sublayer_count_is_max_overlap(tiles: Seq<TileInstance>, grid: u32)
    ensures
        forall|c: (int, int)|
            #[trigger] count_at(tiles, grid, tiles.len() as int, c) <= sublayer_count(
                tiles,
                grid,
                tiles.len() as int,
            ),
        tiles.len() > 0 ==> exists|c: (int, int)|
            #[trigger] count_at(tiles, grid, tiles.len() as int, c) == sublayer_count(
                tiles,
                grid,
                tiles.len() as int,
            ),
{
    assert forall|c: (int, int)|
        #[trigger] count_at(tiles, grid, tiles.len() as int, c) <= sublayer_count(
            tiles,
            grid,
            tiles.len() as int,
        ) by {
        lemma_count_le_sublayer_count(tiles, grid, tiles.len() as int, c);
    }
    if tiles.len() > 0 {
        let c = lemma_crowded_cell(tiles, grid, tiles.len() as int);
    }
}

proof fn lemma_crowded_cell(tiles: Seq<TileInstance>, grid: u32, n: int) -> (c: (int, int))
    requires
        0 < n <= tiles.len(),
    ensures
        count_at(tiles, grid, n, c) == sublayer_count(tiles, grid, n),
    decreases n,
{
    let here = cell_of(tiles[n - 1], grid);
    assert(sublayer_count(tiles, grid, 0) == 0);
    assert(count_at(tiles, grid, n, here) == sublayer_of(tiles, grid, n - 1) + 1);
    if n == 1 || sublayer_of(tiles, grid, n - 1) + 1 > sublayer_count(tiles, grid, n - 1) {
        here
    } else {
        let c = lemma_crowded_cell(tiles, grid, n - 1);
        lemma_count_le_sublayer_count(tiles, grid, n, c);
        assert(count_at(tiles, grid, n, c) >= count_at(tiles, grid, n - 1, c));
        c
    }
}

/// Every cell that no tile reaches in a sublayer holds the empty tile.
pub proof fn lemma_unreached_cell_is_empty(
    tiles: Seq<TileInstance>,
    grid: u32,
    tileset_width: u32,
    s: int,
    x: int,
    y: int,
)
    requires
        forall|i: int|
            0 <= i < tiles.len() ==> !(cell_of(#[trigger] tiles[i], grid) == (x, y) && sublayer_of(
                tiles,
                grid,
                i,
            ) == s),
    ensures
        entry(tiles, grid, tileset_width, s, x, y, tiles.len() as int) == empty_tile(),
{
    lemma_unreached_prefix_is_empty(tiles, grid, tileset_width, s, x, y, tiles.len() as int);
}

proof fn lemma_unreached_prefix_is_empty(
    tiles: Seq<TileInstance>,
    grid: u32,
    tileset_width: u32,
    s: int,
    x: int,
    y: int,
    n: int,
)
    requires
        n <= tiles.len(),
        forall|i: int|
            0 <= i < tiles.len() ==> !(cell_of(#[trigger] tiles[i], grid) == (x, y) && sublayer_of(
                tiles,
                grid,
                i,
            ) == s),
    ensures
        entry(tiles, grid, tileset_width, s, x, y, n) == empty_tile(),
    decreases n,
{
    if n > 0 {
        lemma_unreached_prefix_is_empty(tiles, grid, tileset_width, s, x, y, n - 1);
    }
}

/// Every position of a flattened layer is the position of one of its cells.
pub proof fn lemma_flat_index_covers(w: int, h: int, p: int)
    requires
        0 <= w,
        0 <= h,
        0 <= p < w * h,
    ensures
        0 <= w - 1 - p % w < w,
        0 <= p / w < h,
        flat_index(w, w - 1 - p % w, p / w) == p,
{
    assert(w > 0) by (nonlinear_arith)
        requires
            0 <= w,
            0 <= h,
            0 <= p < w * h,
    ;
    lemma_fundamental_div_mod(p, w);
    lemma_mod_pos_bound(p, w);
    lemma_div_pos_is_pos(p, w);
    let q = p / w;
    assert(q < h) by (nonlinear_arith)
        requires
            p == w * q + p % w,
            0 <= p % w,
            p < w * h,
            w > 0,
    ;
    assert(q * w == w * q) by (nonlinear_arith);
}

} // verus!
