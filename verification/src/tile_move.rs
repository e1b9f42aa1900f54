//! Moving a selection of tiles: capturing the selected tiles when a move
//! starts, and writing them at their new place when it ends, with the
//! record of changed cells from which the move is undone.

use vstd::prelude::*;
use crate::layer::LayerData;
use crate::layout::u32_as_i32;
use crate::level::{Level, cell_index, cell_index_fits, lemma_cell_index_fits, layer_cells, set_tile_post, law_get_after_set};
use crate::paint::{PaintStrokeTracker, TileChange, change_map, inverted};
use crate::tools::{as_i32_spec, cell_tile, in_grid};

verus! {

/// A selected tile captured when a move starts: its cell and its tile.
#[derive(Debug, Clone, Copy)]
pub struct MovedTile {
    pub x: u32,
    pub y: u32,
    pub tile: Option<u32>,
}

/// The cell a captured tile came from.
pub open spec fn entry_pos(e: MovedTile) -> (u32, u32) {
    (e.x, e.y)
}

/// Whether no cell is captured twice.
pub open spec fn positions_unique(entries: Seq<MovedTile>) -> bool {
    forall|i: int, j: int|
        0 <= i < j < entries.len() ==> entry_pos(#[trigger] entries[i]) != entry_pos(
            #[trigger] entries[j],
        )
}

/// Where a captured tile lands when moved by `off`.
pub open spec fn dest_of(e: MovedTile, off: (i32, i32)) -> (int, int) {
    (e.x + off.0, e.y + off.1)
}

/// Whether a captured tile lands inside the level.
pub open spec fn lands(level: Level, e: MovedTile, off: (i32, i32)) -> bool {
    in_grid(level.width, level.height, dest_of(e, off).0, dest_of(e, off).1)
}

/// Whether cell `p` is among the first `n` captured cells.
pub open spec fn source_in(entries: Seq<MovedTile>, n: int, p: (u32, u32)) -> bool {
    exists|j: int| 0 <= j < n && entry_pos(#[trigger] entries[j]) == p
}

/// Whether one of the first `n` captured tiles lands on cell `p`.
pub open spec fn lands_in(level: Level, entries: Seq<MovedTile>, off: (i32, i32), n: int, p: (u32, u32)) -> bool {
    exists|j: int|
        0 <= j < n && lands(level, entries[j], off) && #[trigger] dest_of(entries[j], off) == (
            p.0 as int,
            p.1 as int,
        )
}

/// The tile at cell `p` once the first `n` captured tiles have been written
/// at their destinations, after every captured cell was cleared.
pub open spec fn moved_tile(
    level: Level,
    layer_idx: int,
    entries: Seq<MovedTile>,
    off: (i32, i32),
    n: int,
    p: (u32, u32),
) -> Option<u32> {
    if lands_in(level, entries, off, n, p) {
        let j = choose|j: int|
            0 <= j < n && lands(level, entries[j], off) && #[trigger] dest_of(entries[j], off) == (
                p.0 as int,
                p.1 as int,
            );
        entries[j].tile
    } else if source_in(entries, entries.len() as int, p) {
        None
    } else {
        level.tile_at(layer_idx, p.0, p.1)
    }
}

/// `after` differs from `before` only in the cells of tile layer `layer_idx`
/// that lie inside the level.
pub open spec fn only_cells_changed(before: Level, after: Level, layer_idx: int) -> bool {
    &&& after == (Level { layers: after.layers, ..before })
    &&& after.layers@.len() == before.layers@.len()
    &&& forall|i: int|
        0 <= i < before.layers@.len() && i != layer_idx ==> after.layers@[i]
            == before.layers@[i]
    &&& after.layers@[layer_idx].name == before.layers@[layer_idx].name
    &&& after.layers@[layer_idx].visible == before.layers@[layer_idx].visible
    &&& before.layers@[layer_idx].data matches LayerData::Tiles {
        tileset_id: t0,
        tiles: c0,
        occupied_cells: o0,
    }
    &&& after.layers@[layer_idx].data matches LayerData::Tiles {
        tileset_id: t1,
        tiles: c1,
        occupied_cells: o1,
    }
    &&& t1 == t0
    &&& o1 == o0
    &&& c1@.len() == c0@.len()
    &&& forall|k: int| before.width * before.height <= k < c0@.len() ==> #[trigger] c1@[k] == c0@[k]
}

/// The changes of a finished move, by cell: every captured cell and every
/// cell a tile landed on, with its tile before the move and the tile the move
/// wrote there.
pub open spec fn move_changes(
    before: Level,
    layer_idx: int,
    entries: Seq<MovedTile>,
    off: (i32, i32),
) -> Map<(u32, u32), (Option<u32>, Option<u32>)> {
    Map::new(
        |p: (u32, u32)|
            source_in(entries, entries.len() as int, p) || lands_in(
                before,
                entries,
                off,
                entries.len() as int,
                p,
            ),
        |p: (u32, u32)|
            (
                before.tile_at(layer_idx, p.0, p.1),
                moved_tile(before, layer_idx, entries, off, entries.len() as int, p),
            ),
    )
}

/// Whether every captured tile's destination can be computed in `i32`.
pub open spec fn offsets_fit(entries: Seq<MovedTile>, off: (i32, i32)) -> bool {
    forall|i: int|
        0 <= i < entries.len() ==> #[trigger] entries[i].x <= i32::MAX && entries[i].y <= i32::MAX
            && i32::MIN <= dest_of(entries[i], off).0 <= i32::MAX && i32::MIN <= dest_of(
            entries[i],
            off,
        ).1 <= i32::MAX
}

/// The changes with before and after exchanged, by cell.
proof fn lemma_inverted_map(s: Seq<TileChange>)
    ensures
        change_map(inverted(s)) == change_map(s).map_values(
            |v: (Option<u32>, Option<u32>)| (v.1, v.0),
        ),
    decreases s.len(),
{
    if s.len() > 0 {
        lemma_inverted_map(s.drop_last());
        assert(inverted(s).drop_last() =~= inverted(s.drop_last()));
    }
    assert(change_map(inverted(s)) =~= change_map(s).map_values(
        |v: (Option<u32>, Option<u32>)| (v.1, v.0),
    ));
}

/// An in-bounds cell of a level with at most 2^32 cells has an index below the cell count.
proof fn lemma_cell_below_count(width: u32, height: u32, x: u32, y: u32)
    requires
        x < width,
        y < height,
    ensures
        cell_index(width, x, y) < width * height,
{
    assert(y * width + x < width * height) by (nonlinear_arith)
        requires
            x < width,
            y < height,
    ;
}

/// A `set_tile` on the layer keeps `only_cells_changed` with the start.
proof fn lemma_only_cells_step(
    start: Level,
    mid: Level,
    next: Level,
    layer_idx: int,
    x: u32,
    y: u32,
    tile: Option<u32>,
)
    requires
        only_cells_changed(start, mid, layer_idx),
        set_tile_post(mid, next, layer_idx, x, y, tile),
    ensures
        only_cells_changed(start, next, layer_idx),
{
    if mid.writes_cell(layer_idx, x, y) {
        lemma_cell_below_count(mid.width, mid.height, x, y);
    }
}

/// Capture the tiles of the selected cells of a tile layer when a move
/// starts: for each selected cell, its tile (`None` past the cell vector).
/// Returns `None` when the layer does not exist or is not a tile layer.
pub fn capture_tile_selection_for_move(level: &Level, layer_idx: usize, selection: &Vec<(u32, u32)>) -> (r: Option<Vec<MovedTile>>)
    requires
        forall|i: int|
            0 <= i < selection@.len() ==> #[trigger] selection@[i].1 * level.width + selection@[i].0
                <= u32::MAX,
    ensures
        r matches Some(v) ==> (layer_cells(level.layers@[layer_idx as int]) matches Some(cells) && v@
            == selection@.map_values(
            |p: (u32, u32)|
                MovedTile {
                    x: p.0,
                    y: p.1,
                    tile: cell_tile(cells, level.width, p.0 as int, p.1 as int),
                },
        )),
        r is None <==> !(layer_idx < level.layers@.len() && layer_cells(level.layers@[layer_idx as int]) is Some),
{
    if layer_idx >= level.layers.len() {
        return None;
    }
    let tiles = match &level.layers[layer_idx].data {
        LayerData::Tiles { tiles, .. } => tiles,
        LayerData::Objects { .. } => {
            return None;
        },
    };
    let width = level.width;
    let mut out: Vec<MovedTile> = Vec::new();
    let mut i: usize = 0;
    while i < selection.len()
        invariant
            i <= selection@.len(),
            forall|j: int|
                0 <= j < selection@.len() ==> #[trigger] selection@[j].1 * width + selection@[j].0
                    <= u32::MAX,
            out@ == selection@.take(i as int).map_values(
                |p: (u32, u32)| MovedTile { x: p.0, y: p.1, tile: cell_tile(tiles@, width, p.0 as int, p.1 as int) },
            ),
        decreases selection@.len() - i,
    {
        let (x, y) = selection[i];
        assert(selection@[i as int].1 * width + selection@[i as int].0 <= u32::MAX);
        let idx = (y * width + x) as usize;
        let tile = if idx < tiles.len() {
            tiles[idx]
        } else {
            None
        };
        out.push(MovedTile { x, y, tile });
        i = i + 1;
        assert(out@ =~= selection@.take(i as int).map_values(
            |p: (u32, u32)| MovedTile { x: p.0, y: p.1, tile: cell_tile(tiles@, width, p.0 as int, p.1 as int) },
        ));
    }
    assert(selection@.take(i as int) =~= selection@);
    Some(out)
}

/// The destinations inside the level of the captured tiles, in order.
pub open spec fn landed_cells(level: Level, entries: Seq<MovedTile>, off: (i32, i32)) -> Seq<(u32, u32)>
    decreases entries.len(),
{
    if entries.len() == 0 {
        Seq::empty()
    } else {
        let rest = landed_cells(level, entries.drop_last(), off);
        let e = entries.last();
        if lands(level, e, off) {
            rest.push((dest_of(e, off).0 as u32, dest_of(e, off).1 as u32))
        } else {
            rest
        }
    }
}

/// A cell that `set_tile` does not write reads as empty.
proof fn lemma_unwritable_empty(level: Level, layer_idx: int, x: u32, y: u32)
    ensures
        !level.writes_cell(layer_idx, x, y) ==> level.tile_at(layer_idx, x, y) is None,
{
}

/// One more captured tile changes what the move writes only at its destination.
proof fn lemma_moved_step(
    level: Level,
    layer_idx: int,
    entries: Seq<MovedTile>,
    off: (i32, i32),
    i: int,
    p: (u32, u32),
)
    requires
        positions_unique(entries),
        0 <= i < entries.len(),
    ensures
        !(lands(level, entries[i], off) && dest_of(entries[i], off) == (p.0 as int, p.1 as int))
            ==> moved_tile(level, layer_idx, entries, off, i + 1, p) == moved_tile(
            level,
            layer_idx,
            entries,
            off,
            i,
            p,
        ) && (lands_in(level, entries, off, i + 1, p) == lands_in(level, entries, off, i, p)),
        lands(level, entries[i], off) && dest_of(entries[i], off) == (p.0 as int, p.1 as int)
            ==> moved_tile(level, layer_idx, entries, off, i + 1, p) == entries[i].tile
            && lands_in(level, entries, off, i + 1, p) && !lands_in(level, entries, off, i, p),
{
    let d = (p.0 as int, p.1 as int);
    if lands(level, entries[i], off) && dest_of(entries[i], off) == d {
        assert(lands_in(level, entries, off, i + 1, p));
        let j = choose|j: int|
            0 <= j < i + 1 && lands(level, entries[j], off) && #[trigger] dest_of(entries[j], off)
                == d;
        if j != i {
            assert(entry_pos(entries[j]) == entry_pos(entries[i]));
            if j < i {
                assert(entry_pos(entries[j]) != entry_pos(entries[i]));
            }
        }
        if lands_in(level, entries, off, i, p) {
            let k = choose|k: int|
                0 <= k < i && lands(level, entries[k], off) && #[trigger] dest_of(entries[k], off)
                    == d;
            assert(entry_pos(entries[k]) == entry_pos(entries[i]));
        }
    } else {
        if lands_in(level, entries, off, i + 1, p) {
            let j = choose|j: int|
                0 <= j < i + 1 && lands(level, entries[j], off) && #[trigger] dest_of(entries[j], off)
                    == d;
            assert(j != i);
            assert(lands_in(level, entries, off, i, p));
            let k = choose|k: int|
                0 <= k < i && lands(level, entries[k], off) && #[trigger] dest_of(entries[k], off)
                    == d;
            if j != k {
                assert(entry_pos(entries[j]) == entry_pos(entries[k]));
                if j < k {
                    assert(entry_pos(entries[j]) != entry_pos(entries[k]));
                } else {
                    assert(entry_pos(entries[k]) != entry_pos(entries[j]));
                }
            }
        }
        if lands_in(level, entries, off, i, p) {
            let k = choose|k: int|
                0 <= k < i && lands(level, entries[k], off) && #[trigger] dest_of(entries[k], off)
                    == d;
            assert(lands_in(level, entries, off, i + 1, p));
        }
    }
}

/// What a finished tile move gives back: the batch that undoes it and the
/// new selection (the cells where the tiles landed).
#[derive(Debug, Clone)]
pub struct TileMoveResult {
    /// For each changed cell: (tile now, tile to restore)
    pub undo: Vec<TileChange>,
    pub selection: Vec<(u32, u32)>,
}

/// Finish moving the captured tiles by `offset` on layer `layer_idx`: every
/// captured cell is cleared, then each captured tile whose destination lies
/// inside the level is written there. Returns `None`, changing nothing, when
/// the offset is zero; otherwise the changes (to undo them) and the cells
/// where tiles landed, which become the selection.
pub fn finalize_tile_move(
    level: &mut Level,
    layer_idx: usize,
    originals: &Vec<MovedTile>,
    offset: (i32, i32),
) -> (r: Option<TileMoveResult>)
    requires
        old(level).width * old(level).height <= u32::MAX + 1,
        positions_unique(originals@),
        offsets_fit(originals@, offset),
    ensures
        r is None <==> offset == (0i32, 0i32),
        r is None ==> *final(level) == *old(level),
        r matches Some(res) ==> {
            &&& (crate::tools::is_tile_layer_at(*old(level), layer_idx as int) ==> only_cells_changed(
                *old(level),
                *final(level),
                layer_idx as int,
            ))
            &&& (!crate::tools::is_tile_layer_at(*old(level), layer_idx as int) ==> *final(level)
                == *old(level))
            &&& forall|p: (u32, u32)|
                #[trigger] final(level).tile_at(layer_idx as int, p.0, p.1) == if old(level).writes_cell(
                    layer_idx as int,
                    p.0,
                    p.1,
                ) {
                    moved_tile(*old(level), layer_idx as int, originals@, offset, originals@.len() as int, p)
                } else {
                    old(level).tile_at(layer_idx as int, p.0, p.1)
                }
            &&& crate::paint::keys_unique(res.undo@)
            &&& change_map(res.undo@) == move_changes(
                *old(level),
                layer_idx as int,
                originals@,
                offset,
            ).map_values(|v: (Option<u32>, Option<u32>)| (v.1, v.0))
            &&& res.selection@ == landed_cells(*old(level), originals@, offset)
        },
{
    if offset.0 == 0 && offset.1 == 0 {
        return None;
    }
    let ghost level0 = *level;
    let ghost entries = originals@;
    let ghost lidx = layer_idx as int;
    let ghost is_tile = crate::tools::is_tile_layer_at(level0, lidx);
    let width = level.width;
    let height = level.height;
    let tile_layer = layer_idx < level.layers.len() && match &level.layers[layer_idx].data {
        LayerData::Tiles { .. } => true,
        LayerData::Objects { .. } => false,
    };
    let mut changes = PaintStrokeTracker::new();
    proof {
        assert(changes.change_view() =~= Map::new(
            |p: (u32, u32)| source_in(entries, 0, p),
            |p: (u32, u32)| (level0.tile_at(lidx, p.0, p.1), None::<u32>),
        ));
    }
    let mut i: usize = 0;
    while i < originals.len()
        invariant
            level0.width * level0.height <= u32::MAX + 1,
            entries == originals@,
            positions_unique(entries),
            offsets_fit(entries, offset),
            i <= entries.len(),
            level.width == width && level.height == height,
            width == level0.width && height == level0.height,
            is_tile == crate::tools::is_tile_layer_at(level0, lidx),
            tile_layer == is_tile,
            lidx == layer_idx as int,
            is_tile ==> only_cells_changed(level0, *level, lidx),
            !is_tile ==> *level == level0,
            forall|q: (u32, u32)|
                #[trigger] level.tile_at(lidx, q.0, q.1) == if source_in(entries, i as int, q) {
                    None
                } else {
                    level0.tile_at(lidx, q.0, q.1)
                },
            changes.wf(),
            changes.change_view() == Map::new(
                |p: (u32, u32)| source_in(entries, i as int, p),
                |p: (u32, u32)| (level0.tile_at(lidx, p.0, p.1), None::<u32>),
            ),
        decreases entries.len() - i,
    {
        let e = originals[i];
        let p = (e.x, e.y);
        proof {
            if e.x < width && e.y < height {
                lemma_cell_index_fits(width, height, e.x, e.y);
            }
            if source_in(entries, i as int, p) {
                let j = choose|j: int| 0 <= j < i && entry_pos(#[trigger] entries[j]) == p;
                assert(entry_pos(entries[j]) != entry_pos(entries[i as int]));
            }
        }
        let old_tile = level.get_tile(layer_idx, e.x, e.y);
        let ghost mid = *level;
        if tile_layer {
            level.set_tile(layer_idx, e.x, e.y, None);
        }
        changes.record(e.x, e.y, old_tile, None);
        proof {
            if is_tile {
                lemma_only_cells_step(level0, mid, *level, lidx, e.x, e.y, None);
            }
            assert forall|q: (u32, u32)| #[trigger] level.tile_at(lidx, q.0, q.1) == if source_in(
                entries,
                i + 1,
                q,
            ) {
                None
            } else {
                level0.tile_at(lidx, q.0, q.1)
            } by {
                if tile_layer {
                    law_get_after_set(mid, *level, lidx, e.x, e.y, None, lidx, q.0, q.1);
                }
                lemma_unwritable_empty(mid, lidx, e.x, e.y);
                if q == p {
                    assert(source_in(entries, i + 1, q));
                } else {
                    if source_in(entries, i + 1, q) {
                        let j = choose|j: int| 0 <= j < i + 1 && entry_pos(#[trigger] entries[j]) == q;
                        assert(j != i);
                        assert(source_in(entries, i as int, q));
                    }
                    if source_in(entries, i as int, q) {
                        let j = choose|j: int| 0 <= j < i && entry_pos(#[trigger] entries[j]) == q;
                        assert(source_in(entries, i + 1, q));
                    }
                }
            }
            assert forall|q: (u32, u32)| source_in(entries, i + 1, q) <==> (source_in(entries, i as int, q) || q == p) by {
                if source_in(entries, i + 1, q) {
                    let j = choose|j: int| 0 <= j < i + 1 && entry_pos(#[trigger] entries[j]) == q;
                    if j < i {
                        assert(source_in(entries, i as int, q));
                    }
                }
                if source_in(entries, i as int, q) {
                    let j = choose|j: int| 0 <= j < i && entry_pos(#[trigger] entries[j]) == q;
                    assert(source_in(entries, i + 1, q));
                }
                if q == p {
                    assert(entry_pos(entries[i as int]) == q);
                }
            }
            assert(changes.change_view() =~= Map::new(
                |q: (u32, u32)| source_in(entries, i + 1, q),
                |q: (u32, u32)| (level0.tile_at(lidx, q.0, q.1), None::<u32>),
            ));
        }
        i = i + 1;
    }
    proof {
        assert(changes.change_view() =~= Map::new(
            |q: (u32, u32)| source_in(entries, entries.len() as int, q) || lands_in(level0, entries, offset, 0, q),
            |q: (u32, u32)| (level0.tile_at(lidx, q.0, q.1), moved_tile(level0, lidx, entries, offset, 0, q)),
        ));
        assert(landed_cells(level0, entries.take(0), offset) =~= Seq::<(u32, u32)>::empty());
    }
    let mut selection: Vec<(u32, u32)> = Vec::new();
    let w_i32 = u32_as_i32(width);
    let h_i32 = u32_as_i32(height);
    let mut i: usize = 0;
    while i < originals.len()
        invariant
            level0.width * level0.height <= u32::MAX + 1,
            entries == originals@,
            positions_unique(entries),
            offsets_fit(entries, offset),
            i <= entries.len(),
            level.width == width && level.height == height,
            width == level0.width && height == level0.height,
            w_i32 == as_i32_spec(width),
            h_i32 == as_i32_spec(height),
            is_tile == crate::tools::is_tile_layer_at(level0, lidx),
            tile_layer == is_tile,
            lidx == layer_idx as int,
            is_tile ==> only_cells_changed(level0, *level, lidx),
            !is_tile ==> *level == level0,
            forall|q: (u32, u32)|
                #[trigger] level.tile_at(lidx, q.0, q.1) == if level0.writes_cell(lidx, q.0, q.1) {
                    moved_tile(level0, lidx, entries, offset, i as int, q)
                } else {
                    level0.tile_at(lidx, q.0, q.1)
                },
            changes.wf(),
            changes.change_view() == Map::new(
                |q: (u32, u32)| source_in(entries, entries.len() as int, q) || lands_in(level0, entries, offset, i as int, q),
                |q: (u32, u32)| (level0.tile_at(lidx, q.0, q.1), moved_tile(level0, lidx, entries, offset, i as int, q)),
            ),
            selection@ == landed_cells(level0, entries.take(i as int), offset),
        decreases entries.len() - i,
    {
        let e = originals[i];
        assert(entries[i as int].x <= i32::MAX);
        let dx: i32 = e.x as i32 + offset.0;
        let dy: i32 = e.y as i32 + offset.1;
        let ghost d = dest_of(entries[i as int], offset);
        if dx >= 0 && dy >= 0 && dx < w_i32 && dy < h_i32 {
            let ux = dx as u32;
            let uy = dy as u32;
            let q = (ux, uy);
            proof {
                assert(lands(level0, entries[i as int], offset));
                lemma_cell_index_fits(width, height, ux, uy);
            }
            let old_tile = level.get_tile(layer_idx, ux, uy);
            let ghost mid = *level;
            let ghost view_before = changes.change_view();
            changes.record(ux, uy, old_tile, e.tile);
            if tile_layer {
                level.set_tile(layer_idx, ux, uy, e.tile);
            }
            selection.push(q);
            proof {
                if is_tile {
                    lemma_only_cells_step(level0, mid, *level, lidx, ux, uy, e.tile);
                    assert(mid.writes_cell(lidx, ux, uy) == level0.writes_cell(lidx, ux, uy));
                }
                lemma_moved_step(level0, lidx, entries, offset, i as int, q);
                assert forall|r: (u32, u32)| #[trigger] level.tile_at(lidx, r.0, r.1) == if level0.writes_cell(lidx, r.0, r.1) {
                    moved_tile(level0, lidx, entries, offset, i + 1, r)
                } else {
                    level0.tile_at(lidx, r.0, r.1)
                } by {
                    if tile_layer {
                        law_get_after_set(mid, *level, lidx, ux, uy, e.tile, lidx, r.0, r.1);
                    }
                    lemma_moved_step(level0, lidx, entries, offset, i as int, r);
                    if is_tile {
                        assert(mid.writes_cell(lidx, r.0, r.1) == level0.writes_cell(lidx, r.0, r.1));
                    }
                }
                assert forall|r: (u32, u32)| lands_in(level0, entries, offset, i + 1, r) <==> (lands_in(level0, entries, offset, i as int, r) || r == q) by {
                    lemma_moved_step(level0, lidx, entries, offset, i as int, r);
                }
                assert(changes.change_view() =~= Map::new(
                    |r: (u32, u32)| source_in(entries, entries.len() as int, r) || lands_in(level0, entries, offset, i + 1, r),
                    |r: (u32, u32)| (level0.tile_at(lidx, r.0, r.1), moved_tile(level0, lidx, entries, offset, i + 1, r)),
                ));
                assert(entries.take(i + 1).drop_last() =~= entries.take(i as int));
                assert(selection@ =~= landed_cells(level0, entries.take(i + 1), offset));
            }
        } else {
            proof {
                assert(!lands(level0, entries[i as int], offset));
                assert forall|r: (u32, u32)| #[trigger] moved_tile(level0, lidx, entries, offset, i + 1, r)
                    == moved_tile(level0, lidx, entries, offset, i as int, r) && (lands_in(level0, entries, offset, i + 1, r) == lands_in(level0, entries, offset, i as int, r)) by {
                    lemma_moved_step(level0, lidx, entries, offset, i as int, r);
                }
                assert(changes.change_view() =~= Map::new(
                    |r: (u32, u32)| source_in(entries, entries.len() as int, r) || lands_in(level0, entries, offset, i + 1, r),
                    |r: (u32, u32)| (level0.tile_at(lidx, r.0, r.1), moved_tile(level0, lidx, entries, offset, i + 1, r)),
                ));
                assert(entries.take(i + 1).drop_last() =~= entries.take(i as int));
                assert(selection@ =~= landed_cells(level0, entries.take(i + 1), offset));
            }
        }
        i = i + 1;
    }
    let undo = changes.inverse_changes();
    proof {
        assert(entries.take(entries.len() as int) =~= entries);
        lemma_inverted_map(changes.changes@);
        assert(changes.change_view() =~= move_changes(level0, lidx, entries, offset));
        assert(crate::paint::keys_unique(undo@)) by {
            assert forall|a: int, b: int| 0 <= a < b < undo@.len() implies crate::paint::change_key(#[trigger] undo@[a])
                != crate::paint::change_key(#[trigger] undo@[b]) by {
                assert(crate::paint::change_key(undo@[a]) == crate::paint::change_key(changes.changes@[a]));
                assert(crate::paint::change_key(undo@[b]) == crate::paint::change_key(changes.changes@[b]));
            }
        }
    }
    Some(TileMoveResult { undo, selection })
}

} // verus!
