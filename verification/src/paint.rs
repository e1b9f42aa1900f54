//! Painting and erasing single-cell and multi-cell tiles, with the record of
//! the changes a paint stroke made, from which the stroke is undone.

use std::collections::HashMap;
use vstd::prelude::*;
use crate::ids::Uuid;
use crate::flood::grid_index;
use crate::tile::OCCUPIED_CELL;
use crate::layer::{Layer, LayerData};
use crate::layout::u32_as_i32;
use crate::level::Level;
use crate::tile::{spec_tile_with_flips, tile_with_flips};
use crate::tools::{
    cell_tile,
    fill_rect_cells,
    grid_index_fits,
    in_grid,
    is_tile_layer_at,
    layer_has_tiles,
    get_layer_tileset_id,
    rect_filled,
    spec_layer_has_tiles,
};
use crate::tileset::Tileset;

verus! {

broadcast use vstd::std_specs::hash::group_hash_axioms;

/// One cell changed by a stroke: its tile before the stroke and after it.
#[derive(Debug, Clone, Copy)]
pub struct TileChange {
    pub x: u32,
    pub y: u32,
    pub old_tile: Option<u32>,
    pub new_tile: Option<u32>,
}

/// The cell a change is about.
pub open spec fn change_key(c: TileChange) -> (u32, u32) {
    (c.x, c.y)
}

/// The changes as a map from cell to (tile before, tile after).
pub open spec fn change_map(changes: Seq<TileChange>) -> Map<(u32, u32), (Option<u32>, Option<u32>)>
    decreases changes.len(),
{
    if changes.len() == 0 {
        Map::empty()
    } else {
        let c = changes.last();
        change_map(changes.drop_last()).insert(change_key(c), (c.old_tile, c.new_tile))
    }
}

/// Whether no cell occurs twice among the changes.
pub open spec fn keys_unique(changes: Seq<TileChange>) -> bool {
    forall|i: int, j: int|
        0 <= i < j < changes.len() ==> change_key(#[trigger] changes[i]) != change_key(
            #[trigger] changes[j],
        )
}

/// Tracks a paint or erase stroke in progress, for undo
#[derive(Debug, Clone)]
pub struct PaintStrokeTracker {
    /// Whether a stroke is in progress
    pub active: bool,
    /// The level being painted
    pub level_id: Option<Uuid>,
    /// The layer being painted
    pub layer_idx: Option<usize>,
    /// Changes made during this stroke, one entry per cell
    pub changes: Vec<TileChange>,
    /// Description of the operation
    pub description: String,
}

/// A batch of cell edits that restores the tiles a stroke replaced.
#[derive(Debug, Clone)]
pub struct StrokeUndo {
    pub level_id: Uuid,
    pub layer_idx: usize,
    /// For each changed cell: (tile now, tile to restore)
    pub changes: Vec<TileChange>,
    pub description: String,
}

/// The changes with the tiles before and after exchanged.
pub open spec fn inverted(changes: Seq<TileChange>) -> Seq<TileChange> {
    changes.map_values(
        |c: TileChange| TileChange { x: c.x, y: c.y, old_tile: c.new_tile, new_tile: c.old_tile },
    )
}

/// The undo batch of a stroke sends each cell the stroke changed back from
/// its tile after the stroke to its tile before it, and inverting that batch
/// gives the stroke's changes again.
pub proof fn law_undo_swaps_tiles(changes: Seq<TileChange>)
    ensures
        change_map(inverted(changes)) == change_map(changes).map_values(
            |p: (Option<u32>, Option<u32>)| (p.1, p.0),
        ),
        inverted(inverted(changes)) == changes,
    decreases changes.len(),
{
    if changes.len() > 0 {
        law_undo_swaps_tiles(changes.drop_last());
        assert(inverted(changes).drop_last() =~= inverted(changes.drop_last()));
    }
    assert(change_map(inverted(changes)) =~= change_map(changes).map_values(
        |p: (Option<u32>, Option<u32>)| (p.1, p.0),
    ));
    assert(inverted(inverted(changes)) =~= changes);
}

proof fn lemma_change_map_dom(changes: Seq<TileChange>, k: (u32, u32))
    ensures
        change_map(changes).contains_key(k) <==> exists|i: int|
            0 <= i < changes.len() && change_key(#[trigger] changes[i]) == k,
    decreases changes.len(),
{
    if changes.len() > 0 {
        let rest = changes.drop_last();
        lemma_change_map_dom(rest, k);
        if change_map(rest).contains_key(k) {
            let i = choose|i: int| 0 <= i < rest.len() && change_key(#[trigger] rest[i]) == k;
            assert(changes[i] == rest[i]);
        }
        if exists|i: int| 0 <= i < changes.len() && change_key(#[trigger] changes[i]) == k {
            let i = choose|i: int| 0 <= i < changes.len() && change_key(#[trigger] changes[i]) == k;
            if i < changes.len() - 1 {
                assert(rest[i] == changes[i]);
            }
        }
    }
}

proof fn lemma_change_map_value(changes: Seq<TileChange>, i: int)
    requires
        keys_unique(changes),
        0 <= i < changes.len(),
    ensures
        change_map(changes).contains_key(change_key(changes[i])),
        change_map(changes)[change_key(changes[i])] == (changes[i].old_tile, changes[i].new_tile),
    decreases changes.len(),
{
    let rest = changes.drop_last();
    if i < changes.len() - 1 {
        assert(rest[i] == changes[i]);
        assert(keys_unique(rest)) by {
            assert forall|a: int, b: int| 0 <= a < b < rest.len() implies change_key(
                #[trigger] rest[a],
            ) != change_key(#[trigger] rest[b]) by {
                assert(rest[a] == changes[a] && rest[b] == changes[b]);
            }
        }
        lemma_change_map_value(rest, i);
        assert(change_key(changes[i]) != change_key(changes[changes.len() - 1]));
    }
}

/// Replacing an entry by one for the same cell updates that cell's value.
proof fn lemma_change_map_update(changes: Seq<TileChange>, i: int, c: TileChange)
    requires
        keys_unique(changes),
        0 <= i < changes.len(),
        change_key(c) == change_key(changes[i]),
    ensures
        keys_unique(changes.update(i, c)),
        change_map(changes.update(i, c)) == change_map(changes).insert(
            change_key(c),
            (c.old_tile, c.new_tile),
        ),
    decreases changes.len(),
{
    let s2 = changes.update(i, c);
    assert forall|a: int, b: int| 0 <= a < b < s2.len() implies change_key(#[trigger] s2[a])
        != change_key(#[trigger] s2[b]) by {
        assert(change_key(s2[a]) == change_key(changes[a]));
        assert(change_key(s2[b]) == change_key(changes[b]));
    }
    let rest = changes.drop_last();
    assert(keys_unique(rest)) by {
        assert forall|a: int, b: int| 0 <= a < b < rest.len() implies change_key(
            #[trigger] rest[a],
        ) != change_key(#[trigger] rest[b]) by {
            assert(rest[a] == changes[a] && rest[b] == changes[b]);
        }
    }
    if i == changes.len() - 1 {
        assert(s2.drop_last() =~= rest);
        assert(change_map(s2) =~= change_map(changes).insert(change_key(c), (c.old_tile, c.new_tile)));
    } else {
        lemma_change_map_update(rest, i, c);
        assert(s2.drop_last() =~= rest.update(i, c));
        assert(change_key(c) != change_key(changes.last()));
        assert(change_map(s2) =~= change_map(changes).insert(change_key(c), (c.old_tile, c.new_tile)));
    }
}

impl PaintStrokeTracker {
    /// The changes of the stroke, by cell.
    pub open spec fn change_view(&self) -> Map<(u32, u32), (Option<u32>, Option<u32>)> {
        change_map(self.changes@)
    }

    /// Each cell has one entry.
    pub open spec fn wf(&self) -> bool {
        keys_unique(self.changes@)
    }

    /// A tracker with no stroke in progress.
    pub fn new() -> (r: Self)
        ensures
            r.wf(),
            !r.active,
            r.level_id is None,
            r.layer_idx is None,
            r.change_view() == Map::<(u32, u32), (Option<u32>, Option<u32>)>::empty(),
            r.description@.len() == 0,
    {
        PaintStrokeTracker {
            active: false,
            level_id: None,
            layer_idx: None,
            changes: Vec::new(),
            description: String::new(),
        }
    }

    /// Start a stroke on a level's layer unless one is in progress.
    pub fn begin(&mut self, level_id: Uuid, layer_idx: usize, description: &str)
        ensures
            old(self).active ==> *final(self) == *old(self),
            !old(self).active ==> final(self).active && final(self).level_id == Some(level_id)
                && final(self).layer_idx == Some(layer_idx) && final(self).changes@.len() == 0
                && final(self).description@ == description@,
            final(self).wf() || old(self).active,
            old(self).active ==> (final(self).wf() <==> old(self).wf()),
    {
        if !self.active {
            self.active = true;
            self.level_id = Some(level_id);
            self.layer_idx = Some(layer_idx);
            self.changes = Vec::new();
            self.description = description.to_string();
        }
    }

    /// Record that cell (x, y) went from `old_tile` to `new_tile`: a cell
    /// already changed in this stroke keeps its first tile and takes the new one.
    pub fn record(&mut self, x: u32, y: u32, old_tile: Option<u32>, new_tile: Option<u32>)
        requires
            old(self).wf(),
        ensures
            final(self).wf(),
            final(self).active == old(self).active,
            final(self).level_id == old(self).level_id,
            final(self).layer_idx == old(self).layer_idx,
            final(self).description == old(self).description,
            final(self).change_view() == if old(self).change_view().contains_key((x, y)) {
                old(self).change_view().insert((x, y), (old(self).change_view()[(x, y)].0, new_tile))
            } else {
                old(self).change_view().insert((x, y), (old_tile, new_tile))
            },
    {
        let ghost before = self.changes@;
        let mut i: usize = 0;
        while i < self.changes.len()
            invariant
                self.changes@ == before,
                before == old(self).changes@,
                keys_unique(before),
                self.active == old(self).active,
                self.level_id == old(self).level_id,
                self.layer_idx == old(self).layer_idx,
                self.description == old(self).description,
                i <= before.len(),
                forall|j: int| 0 <= j < i ==> change_key(#[trigger] before[j]) != (x, y),
            decreases before.len() - i,
        {
            if self.changes[i].x == x && self.changes[i].y == y {
                let first = self.changes[i].old_tile;
                let entry = TileChange { x, y, old_tile: first, new_tile };
                proof {
                    lemma_change_map_value(before, i as int);
                    lemma_change_map_update(before, i as int, entry);
                }
                self.changes.set(i, entry);
                assert(self.changes@ == before.update(i as int, entry));
                assert(change_key(before[i as int]) == (x, y));
                return;
            }
            i = i + 1;
        }
        proof {
            lemma_change_map_dom(before, (x, y));
        }
        let entry = TileChange { x, y, old_tile, new_tile };
        self.changes.push(entry);
        proof {
            assert(self.changes@.drop_last() =~= before);
            let s = self.changes@;
            assert forall|a: int, b: int| 0 <= a < b < s.len() implies change_key(#[trigger] s[a])
                != change_key(#[trigger] s[b]) by {
                if b == s.len() - 1 {
                    assert(s[a] == before[a]);
                } else {
                    assert(s[a] == before[a] && s[b] == before[b]);
                }
            }
        }
    }

    /// The changes of the stroke with tiles before and after exchanged: applying
    /// them restores what the stroke replaced.
    pub fn inverse_changes(&self) -> (r: Vec<TileChange>)
        ensures
            r@ == inverted(self.changes@),
    {
        let mut out: Vec<TileChange> = Vec::new();
        let mut i: usize = 0;
        while i < self.changes.len()
            invariant
                i <= self.changes@.len(),
                out@ == inverted(self.changes@.take(i as int)),
            decreases self.changes@.len() - i,
        {
            let c = self.changes[i];
            out.push(TileChange { x: c.x, y: c.y, old_tile: c.new_tile, new_tile: c.old_tile });
            i = i + 1;
            assert(out@ =~= inverted(self.changes@.take(i as int)));
        }
        assert(self.changes@.take(i as int) =~= self.changes@);
        out
    }

    /// End the stroke once painting has stopped and the mouse button is up:
    /// returns the batch that undoes it when it changed cells of a known level
    /// and layer, and resets the tracker. A stroke still in progress, or no
    /// stroke, is left as it is.
    pub fn finish(&mut self, is_painting: bool, mouse_pressed: bool) -> (r: Option<StrokeUndo>)
        requires
            old(self).wf(),
        ensures
            !old(self).active || is_painting || mouse_pressed ==> r is None && *final(self)
                == *old(self),
            old(self).active && !is_painting && !mouse_pressed ==> {
                &&& !final(self).active
                &&& final(self).level_id is None
                &&& final(self).layer_idx is None
                &&& final(self).changes@.len() == 0
                &&& final(self).description@.len() == 0
                &&& final(self).wf()
                &&& match r {
                    Some(u) => old(self).changes@.len() > 0 && old(self).level_id == Some(u.level_id)
                        && old(self).layer_idx == Some(u.layer_idx) && u.changes@ == inverted(
                        old(self).changes@,
                    ) && u.description == old(self).description,
                    None => old(self).changes@.len() == 0 || old(self).level_id is None
                        || old(self).layer_idx is None,
                }
            },
    {
        if !self.active {
            return None;
        }
        if is_painting || mouse_pressed {
            return None;
        }
        let mut undo: Option<StrokeUndo> = None;
        if self.changes.len() > 0 {
            if let Some(level_id) = self.level_id {
                if let Some(layer_idx) = self.layer_idx {
                    let changes = self.inverse_changes();
                    let description = self.description.clone();
                    undo = Some(StrokeUndo { level_id, layer_idx, changes, description });
                }
            }
        }
        self.active = false;
        self.level_id = None;
        self.layer_idx = None;
        self.changes = Vec::new();
        self.description = String::new();
        undo
    }
}

/// The tile at cell `c` as a level reports it: `None` outside the grid or
/// past the cell vector.
pub open spec fn grid_tile(cells: Seq<Option<u32>>, width: u32, height: u32, c: (int, int)) -> Option<u32> {
    if 0 <= c.0 < width && 0 <= c.1 < height {
        cell_tile(cells, width, c.0, c.1)
    } else {
        None
    }
}

/// Whether cell `c` belongs to the cells of the footprint with base (x, y),
/// `gw` columns wide, that come before cell (cx, cy) in row order.
pub open spec fn fp_before(x: u32, y: u32, gw: u32, cx: int, cy: int, c: (int, int)) -> bool {
    x <= c.0 < x + gw && (y <= c.1 < cy || (c.1 == cy && c.0 < cx))
}

/// The position of a pair of cell coordinates.
pub open spec fn cell_pos(k: (u32, u32)) -> (int, int) {
    (k.0 as int, k.1 as int)
}

/// What painting (or, for `paint == false`, erasing) writes into a footprint
/// cell: the tile into the base cell and the occupied marker into the others;
/// erasing empties every cell.
pub open spec fn footprint_value(paint: bool, tile: u32, x: u32, y: u32, c: (int, int)) -> Option<u32> {
    if !paint {
        None
    } else if c == (x as int, y as int) {
        Some(tile)
    } else {
        Some(OCCUPIED_CELL)
    }
}

/// The stroke's changes after the footprint cells before (cx, cy) are recorded.
pub open spec fn strokes_after(
    v0: Map<(u32, u32), (Option<u32>, Option<u32>)>,
    cells: Seq<Option<u32>>,
    width: u32,
    height: u32,
    paint: bool,
    tile: u32,
    x: u32,
    y: u32,
    gw: u32,
    cx: int,
    cy: int,
) -> Map<(u32, u32), (Option<u32>, Option<u32>)> {
    Map::new(
        |k: (u32, u32)| v0.contains_key(k) || fp_before(x, y, gw, cx, cy, cell_pos(k)),
        |k: (u32, u32)|
            if fp_before(x, y, gw, cx, cy, cell_pos(k)) {
                (
                    if v0.contains_key(k) {
                        v0[k].0
                    } else {
                        grid_tile(cells, width, height, cell_pos(k))
                    },
                    footprint_value(paint, tile, x, y, cell_pos(k)),
                )
            } else {
                v0[k]
            },
    )
}

/// Whether index `k` is the index of a footprint cell before (cx, cy).
pub open spec fn fp_index_before(width: u32, x: u32, y: u32, gw: u32, cx: int, cy: int, k: int) -> bool {
    exists|c: (int, int)| fp_before(x, y, gw, cx, cy, c) && #[trigger] grid_index(width, c) == k
}

/// The occupied-cell map after the footprint cells before (cx, cy) are
/// handled. Painting makes each non-base cell point at the base cell and
/// drops the base cell's entry; erasing drops the entries of the non-base cells.
pub open spec fn occupancy_after(
    o0: Map<usize, usize>,
    width: u32,
    paint: bool,
    x: u32,
    y: u32,
    gw: u32,
    cx: int,
    cy: int,
) -> Map<usize, usize> {
    let base = grid_index(width, (x as int, y as int));
    if paint {
        Map::new(
            |k: usize|
                (o0.contains_key(k) && !fp_index_before(width, x, y, gw, cx, cy, k as int)) || (
                fp_index_before(width, x, y, gw, cx, cy, k as int) && k != base),
            |k: usize|
                if fp_index_before(width, x, y, gw, cx, cy, k as int) {
                    base as usize
                } else {
                    o0[k]
                },
        )
    } else {
        Map::new(
            |k: usize|
                o0.contains_key(k) && !(fp_index_before(width, x, y, gw, cx, cy, k as int) && k
                    != base),
            |k: usize| o0[k],
        )
    }
}

/// The footprint cells before (cx, cy) in row order, as coordinates.
pub open spec fn fp_row_cells(x: u32, cy: int, cx: int) -> Seq<(u32, u32)>
    decreases cx - x,
{
    if cx <= x {
        Seq::empty()
    } else {
        fp_row_cells(x, cy, cx - 1).push(((cx - 1) as u32, cy as u32))
    }
}

/// The cells of rows `y..cy` of a footprint `gw` wide, in row order.
pub open spec fn fp_rows_cells(x: u32, y: u32, gw: u32, cy: int) -> Seq<(u32, u32)>
    decreases cy - y,
{
    if cy <= y {
        Seq::empty()
    } else {
        fp_rows_cells(x, y, gw, cy - 1) + fp_row_cells(x, cy - 1, x + gw)
    }
}

/// Whether every footprint cell of a `gw` by `gh` tile at (x, y) has
/// coordinates and a row-major index that fit in a `u32`.
pub open spec fn footprint_fits(width: u32, x: u32, y: u32, gw: u32, gh: u32) -> bool {
    gw == 0 || gh == 0 || (x + gw - 1 <= u32::MAX && y + gh - 1 <= u32::MAX && (y + gh - 1)
        * width + (x + gw - 1) <= u32::MAX)
}

/// Taking one more cell of a row adds exactly that cell's index.
proof fn lemma_fp_index_step(width: u32, x: u32, y: u32, gw: u32, cx: int, cy: int, k: int)
    requires
        x <= cx < x + gw,
        y <= cy,
    ensures
        fp_index_before(width, x, y, gw, cx + 1, cy, k) <==> (fp_index_before(
            width,
            x,
            y,
            gw,
            cx,
            cy,
            k,
        ) || k == grid_index(width, (cx, cy))),
{
    if fp_index_before(width, x, y, gw, cx + 1, cy, k) {
        let c = choose|c: (int, int)|
            fp_before(x, y, gw, cx + 1, cy, c) && #[trigger] grid_index(width, c) == k;
        if c != (cx, cy) {
            assert(fp_before(x, y, gw, cx, cy, c));
        }
    }
    if fp_index_before(width, x, y, gw, cx, cy, k) {
        let c = choose|c: (int, int)|
            fp_before(x, y, gw, cx, cy, c) && #[trigger] grid_index(width, c) == k;
        assert(fp_before(x, y, gw, cx + 1, cy, c));
    }
    if k == grid_index(width, (cx, cy)) {
        assert(fp_before(x, y, gw, cx + 1, cy, (cx, cy)));
    }
}

/// A finished row is the same as the start of the next one.
proof fn lemma_fp_row_done(width: u32, x: u32, y: u32, gw: u32, cy: int, k: int)
    requires
        y <= cy,
    ensures
        fp_index_before(width, x, y, gw, x + gw, cy, k) <==> fp_index_before(
            width,
            x,
            y,
            gw,
            x as int,
            cy + 1,
            k,
        ),
{
    if fp_index_before(width, x, y, gw, x + gw, cy, k) {
        let c = choose|c: (int, int)|
            fp_before(x, y, gw, x + gw, cy, c) && #[trigger] grid_index(width, c) == k;
        assert(fp_before(x, y, gw, x as int, cy + 1, c));
    }
    if fp_index_before(width, x, y, gw, x as int, cy + 1, k) {
        let c = choose|c: (int, int)|
            fp_before(x, y, gw, x as int, cy + 1, c) && #[trigger] grid_index(width, c) == k;
        assert(fp_before(x, y, gw, x + gw, cy, c));
    }
}

/// Records the footprint's changes in the stroke and updates the occupied-cell
/// map, without writing cells; returns the footprint cells in row order.
fn record_footprint(
    cells: &Vec<Option<u32>>,
    occupied: &mut HashMap<usize, usize>,
    stroke: &mut PaintStrokeTracker,
    width: u32,
    height: u32,
    paint: bool,
    tile: u32,
    x: u32,
    y: u32,
    gw: u32,
    gh: u32,
) -> (visited: Vec<(u32, u32)>)
    requires
        old(stroke).wf(),
        x < width,
        footprint_fits(width, x, y, gw, gh),
    ensures
        final(stroke).wf(),
        final(stroke).active == old(stroke).active,
        final(stroke).level_id == old(stroke).level_id,
        final(stroke).layer_idx == old(stroke).layer_idx,
        final(stroke).description == old(stroke).description,
        final(stroke).change_view() == strokes_after(
            old(stroke).change_view(),
            cells@,
            width,
            height,
            paint,
            tile,
            x,
            y,
            gw,
            x as int,
            y + gh,
        ),
        final(occupied)@ == occupancy_after(old(occupied)@, width, paint, x, y, gw, x as int, y + gh),
        visited@ == fp_rows_cells(x, y, gw, y + gh),
{
    let ghost v0 = stroke.change_view();
    let ghost o0 = occupied@;
    let mut visited: Vec<(u32, u32)> = Vec::new();
    if gw == 0 || gh == 0 {
        proof {
            assert(strokes_after(v0, cells@, width, height, paint, tile, x, y, gw, x as int, y + gh)
                =~= v0);
            assert forall|k: usize| !#[trigger] fp_index_before(width, x, y, gw, x as int, y + gh, k as int) by {
                if fp_index_before(width, x, y, gw, x as int, y + gh, k as int) {
                    let c = choose|c: (int, int)|
                        fp_before(x, y, gw, x as int, y + gh, c) && #[trigger] grid_index(width, c)
                            == k;
                }
            }
            assert(occupancy_after(o0, width, paint, x, y, gw, x as int, y + gh) =~= o0);
            if gh == 0 {
                assert(fp_rows_cells(x, y, gw, y + gh) =~= Seq::empty());
            } else {
                assert forall|cy: int| y <= cy implies #[trigger] fp_rows_cells(x, y, gw, cy)
                    =~= Seq::<(u32, u32)>::empty() by {
                    lemma_empty_rows(x, y, gw, cy);
                }
            }
        }
        return visited;
    }
    proof {
        assert(y * width + x <= (y + gh - 1) * width + (x + gw - 1)) by (nonlinear_arith)
            requires
                gw > 0,
                gh > 0,
        ;
    }
    let base_idx: usize = (y * width + x) as usize;
    let y_end: u64 = y as u64 + gh as u64;
    let x_end: u64 = x as u64 + gw as u64;
    let mut cy: u64 = y as u64;
    proof {
        assert(strokes_after(v0, cells@, width, height, paint, tile, x, y, gw, x as int, y as int)
            =~= v0);
        assert forall|k: usize| !#[trigger] fp_index_before(width, x, y, gw, x as int, y as int, k as int) by {
            if fp_index_before(width, x, y, gw, x as int, y as int, k as int) {
                let c = choose|c: (int, int)|
                    fp_before(x, y, gw, x as int, y as int, c) && #[trigger] grid_index(width, c)
                        == k;
            }
        }
        assert(occupancy_after(o0, width, paint, x, y, gw, x as int, y as int) =~= o0);
    }
    while cy < y_end
        invariant
            gw > 0,
            gh > 0,
            x < width,
            footprint_fits(width, x, y, gw, gh),
            base_idx == y * width + x,
            y_end == y + gh,
            x_end == x + gw,
            y <= cy <= y_end,
            stroke.wf(),
            stroke.active == old(stroke).active,
            stroke.level_id == old(stroke).level_id,
            stroke.layer_idx == old(stroke).layer_idx,
            stroke.description == old(stroke).description,
            v0 == old(stroke).change_view(),
            o0 == old(occupied)@,
            stroke.change_view() == strokes_after(
                v0,
                cells@,
                width,
                height,
                paint,
                tile,
                x,
                y,
                gw,
                x as int,
                cy as int,
            ),
            occupied@ == occupancy_after(o0, width, paint, x, y, gw, x as int, cy as int),
            visited@ == fp_rows_cells(x, y, gw, cy as int),
        decreases y_end - cy,
    {
        let mut cx: u64 = x as u64;
        assert(visited@ =~= fp_rows_cells(x, y, gw, cy as int) + fp_row_cells(x, cy as int, cx as int));
        while cx < x_end
            invariant
                gw > 0,
                gh > 0,
                x < width,
                footprint_fits(width, x, y, gw, gh),
                base_idx == y * width + x,
                y_end == y + gh,
                x_end == x + gw,
                y <= cy < y_end,
                x <= cx <= x_end,
                stroke.wf(),
                stroke.active == old(stroke).active,
                stroke.level_id == old(stroke).level_id,
                stroke.layer_idx == old(stroke).layer_idx,
                stroke.description == old(stroke).description,
                v0 == old(stroke).change_view(),
                o0 == old(occupied)@,
                stroke.change_view() == strokes_after(
                    v0,
                    cells@,
                    width,
                    height,
                    paint,
                    tile,
                    x,
                    y,
                    gw,
                    cx as int,
                    cy as int,
                ),
                occupied@ == occupancy_after(o0, width, paint, x, y, gw, cx as int, cy as int),
                visited@ == fp_rows_cells(x, y, gw, cy as int) + fp_row_cells(x, cy as int, cx as int),
            decreases x_end - cx,
        {
            let ux = cx as u32;
            let uy = cy as u32;
            assert(uy * width + ux <= (y + gh - 1) * width + (x + gw - 1)) by (nonlinear_arith)
                requires
                    uy <= y + gh - 1,
                    ux <= x + gw - 1,
            ;
            let cidx_u32: u32 = uy * width + ux;
            let cidx = cidx_u32 as usize;
            let old_tile = if ux < width && uy < height {
                if cidx < cells.len() {
                    cells[cidx]
                } else {
                    None
                }
            } else {
                None
            };
            let is_base = ux == x && uy == y;
            let new_tile = if paint {
                if is_base {
                    Some(tile)
                } else {
                    Some(OCCUPIED_CELL)
                }
            } else {
                None
            };
            proof {
                if !is_base {
                    assert(cidx != base_idx) by (nonlinear_arith)
                        requires
                            cidx == uy * width + ux,
                            base_idx == y * width + x,
                            ux >= x,
                            uy >= y,
                            x < width,
                            !(ux == x && uy == y),
                    {
                        if uy > y {
                            assert(uy * width >= (y + 1) * width);
                        }
                    }
                }
            }
            let ghost occ_before = occupied@;
            if paint {
                if is_base {
                    occupied.remove(&cidx);
                } else {
                    occupied.insert(cidx, base_idx);
                }
            } else if !is_base {
                occupied.remove(&cidx);
            }
            let ghost view_before = stroke.change_view();
            stroke.record(ux, uy, old_tile, new_tile);
            visited.push((ux, uy));
            proof {
                let c = (cx as int, cy as int);
                assert(cell_pos((ux, uy)) == c);
                assert forall|k: usize| #[trigger] fp_index_before(width, x, y, gw, cx + 1, cy as int, k as int)
                    <==> (fp_index_before(width, x, y, gw, cx as int, cy as int, k as int) || k == cidx) by {
                    lemma_fp_index_step(width, x, y, gw, cx as int, cy as int, k as int);
                }
                assert(occupied@ =~= occupancy_after(o0, width, paint, x, y, gw, cx + 1, cy as int));
                assert(!fp_before(x, y, gw, cx as int, cy as int, c));
                assert(stroke.change_view() =~= strokes_after(
                    v0,
                    cells@,
                    width,
                    height,
                    paint,
                    tile,
                    x,
                    y,
                    gw,
                    cx + 1,
                    cy as int,
                ));
                assert(visited@ =~= fp_rows_cells(x, y, gw, cy as int) + fp_row_cells(x, cy as int, cx + 1));
            }
            cx = cx + 1;
        }
        proof {
            assert forall|k: usize| #[trigger] fp_index_before(width, x, y, gw, x + gw, cy as int, k as int)
                <==> fp_index_before(width, x, y, gw, x as int, cy + 1, k as int) by {
                lemma_fp_row_done(width, x, y, gw, cy as int, k as int);
            }
            assert(occupied@ =~= occupancy_after(o0, width, paint, x, y, gw, x as int, cy + 1));
            assert(stroke.change_view() =~= strokes_after(
                v0,
                cells@,
                width,
                height,
                paint,
                tile,
                x,
                y,
                gw,
                x as int,
                cy + 1,
            ));
            assert(visited@ =~= fp_rows_cells(x, y, gw, cy + 1));
        }
        cy = cy + 1;
    }
    visited
}

/// A footprint with no columns has no cells in any of its rows.
proof fn lemma_empty_rows(x: u32, y: u32, gw: u32, cy: int)
    requires
        gw == 0,
    ensures
        fp_rows_cells(x, y, gw, cy) =~= Seq::<(u32, u32)>::empty(),
    decreases cy - y,
{
    if cy > y {
        lemma_empty_rows(x, y, gw, cy - 1);
        assert(fp_row_cells(x, cy - 1, x + gw) =~= Seq::<(u32, u32)>::empty());
    }
}

/// Whether a tileset with the given id is among `tilesets`.
pub open spec fn tileset_known(tilesets: Seq<Tileset>, id: Uuid) -> bool {
    exists|i: int| 0 <= i < tilesets.len() && tilesets[i].id == id
}

/// Whether `tilesets` holds one with the given id.
pub fn contains_tileset(tilesets: &Vec<Tileset>, id: Uuid) -> (r: bool)
    ensures
        r == tileset_known(tilesets@, id),
{
    let mut i: usize = 0;
    while i < tilesets.len()
        invariant
            i <= tilesets@.len(),
            forall|j: int| 0 <= j < i ==> tilesets@[j].id != id,
        decreases tilesets@.len() - i,
    {
        if tilesets[i].id == id {
            return true;
        }
        i = i + 1;
    }
    false
}

/// Whether a paint on `layer` first clears it: it holds tiles of a tileset
/// that is no longer in the project.
pub open spec fn paint_clears_layer(layer: Layer, tilesets: Seq<Tileset>) -> bool {
    spec_layer_has_tiles(layer) && !(layer.spec_tileset_id() matches Some(t) && tileset_known(
        tilesets,
        t,
    ))
}

/// Whether a paint on `layer` with the selected tileset is refused: the layer
/// holds tiles of another tileset of the project.
pub open spec fn paint_blocked(layer: Layer, tilesets: Seq<Tileset>, selected: Uuid) -> bool {
    &&& spec_layer_has_tiles(layer)
    &&& layer.spec_tileset_id() matches Some(t)
    &&& tileset_known(tilesets, t)
    &&& t != selected
}

/// Whether a tile of `gw` by `gh` cells spans more than one cell.
pub open spec fn is_multi_cell(gw: u32, gh: u32) -> bool {
    gw > 1 || gh > 1
}

/// Whether the footprint with base (x, y) lies inside the level.
pub open spec fn footprint_inside(width: u32, height: u32, x: u32, y: u32, gw: u32, gh: u32) -> bool {
    gw == 0 || gh == 0 || (x + gw <= width && y + gh <= height)
}

/// `cells` with cell `k` set to `v` when the vector holds it.
pub open spec fn set_cell(cells: Seq<Option<u32>>, k: int, v: Option<u32>) -> Seq<Option<u32>> {
    if 0 <= k < cells.len() {
        cells.update(k, v)
    } else {
        cells
    }
}

/// The cells after a tile is painted with base (x, y): a single-cell tile
/// sets its cell; a multi-cell tile sets its base cell and marks the other
/// cells of its footprint as occupied.
pub open spec fn painted_cells(
    cells: Seq<Option<u32>>,
    width: u32,
    x: u32,
    y: u32,
    gw: u32,
    gh: u32,
    tile: u32,
) -> Seq<Option<u32>> {
    let base = grid_index(width, (x as int, y as int));
    if !is_multi_cell(gw, gh) {
        set_cell(cells, base, Some(tile))
    } else if gw == 0 || gh == 0 {
        cells
    } else {
        set_cell(
            rect_filled(cells, width as int, x as int, x + gw - 1, y as int, y + gh - 1, Some(OCCUPIED_CELL)),
            base,
            Some(tile),
        )
    }
}

/// The cell updates a paint reports, in row order.
pub open spec fn paint_updates(cells: Seq<(u32, u32)>, tile: u32, x: u32, y: u32) -> Seq<(u32, u32, Option<u32>)> {
    cells.map_values(|c: (u32, u32)| (c.0, c.1, footprint_value(true, tile, x, y, cell_pos(c))))
}

/// How a paint that went ahead changes the level, the stroke and the last
/// painted cell.
pub open spec fn paint_post(
    before: Level,
    after: Level,
    stroke0: PaintStrokeTracker,
    stroke1: PaintStrokeTracker,
    layer_idx: int,
    level_id: Uuid,
    x: u32,
    y: u32,
    tile: u32,
    selected: Uuid,
    clears: bool,
    gw: u32,
    gh: u32,
) -> bool {
    let w = before.width;
    let h = before.height;
    let (fw, fh) = if is_multi_cell(gw, gh) { (gw, gh) } else { (1u32, 1u32) };
    let started = if stroke0.active { stroke0.change_view() } else { Map::empty() };
    &&& after == (Level { layers: after.layers, ..before })
    &&& after.layers@.len() == before.layers@.len()
    &&& forall|i: int|
        0 <= i < before.layers@.len() && i != layer_idx ==> after.layers@[i]
            == before.layers@[i]
    &&& stroke1.wf()
    &&& stroke1.active
    &&& (!stroke0.active ==> stroke1.level_id == Some(level_id) && stroke1.layer_idx == Some(
        layer_idx as usize,
    ) && stroke1.description@ == "Paint Tiles"@)
    &&& (stroke0.active ==> stroke1.level_id == stroke0.level_id && stroke1.layer_idx
        == stroke0.layer_idx && stroke1.description == stroke0.description)
    &&& ({
        let l0 = before.layers@[layer_idx];
        let l1 = after.layers@[layer_idx];
        &&& l1.name == l0.name
        &&& l1.visible == l0.visible
        &&& l0.data matches LayerData::Tiles { tileset_id: t0, tiles: c0, occupied_cells: o0 }
        &&& l1.data matches LayerData::Tiles { tileset_id: t1, tiles: c1, occupied_cells: o1 }
        &&& t1 == selected
        &&& {
            let start_cells = if clears { crate::layer::empty_cells(c0@.len()) } else { c0@ };
            let start_occ = if clears { Map::empty() } else { o0@ };
            &&& c1@ == painted_cells(start_cells, w, x, y, gw, gh, tile)
            &&& o1@ == if is_multi_cell(gw, gh) {
                occupancy_after(start_occ, w, true, x, y, gw, x as int, y + gh)
            } else {
                start_occ
            }
            &&& stroke1.change_view() == strokes_after(
                started,
                start_cells,
                w,
                h,
                true,
                tile,
                x,
                y,
                fw,
                x as int,
                y + fh,
            )
        }
    })
}

/// Whether a paint at (x, y) passes every check before the footprint check:
/// the layer is a tile layer, the cell is not the one painted last, it lies
/// inside the level, and the layer holds no tiles of another tileset of the
/// project.
pub open spec fn paint_reaches_footprint(
    level: Level,
    layer_idx: int,
    x: i32,
    y: i32,
    selected: Uuid,
    tilesets: Seq<Tileset>,
    last_painted: Option<(u32, u32)>,
) -> bool {
    &&& is_tile_layer_at(level, layer_idx)
    &&& last_painted != Some((x as u32, y as u32))
    &&& in_grid(level.width, level.height, x as int, y as int)
    &&& !paint_blocked(level.layers@[layer_idx], tilesets, selected)
}

/// Whether `after` is `before` with tile layer `layer_idx` made ready for a
/// paint: it takes the selected tileset and, when `clears`, loses all its
/// tiles and occupied cells.
pub open spec fn prepared_for_paint(before: Level, after: Level, layer_idx: int, selected: Uuid, clears: bool) -> bool {
    let l0 = before.layers@[layer_idx];
    let l1 = after.layers@[layer_idx];
    &&& after == (Level { layers: after.layers, ..before })
    &&& after.layers@.len() == before.layers@.len()
    &&& forall|i: int| 0 <= i < before.layers@.len() && i != layer_idx ==> after.layers@[i] == before.layers@[i]
    &&& l1.name == l0.name
    &&& l1.visible == l0.visible
    &&& l0.data matches LayerData::Tiles { tiles: c0, occupied_cells: o0, .. }
    &&& l1.data matches LayerData::Tiles { tileset_id: t1, tiles: c1, occupied_cells: o1 }
    &&& t1 == selected
    &&& c1@ == if clears { crate::layer::empty_cells(c0@.len()) } else { c0@ }
    &&& o1@ == if clears { Map::<usize, usize>::empty() } else { o0@ }
}

/// Empties every cell.
fn clear_cells(tiles: &mut Vec<Option<u32>>)
    ensures
        final(tiles)@ == crate::layer::empty_cells(old(tiles)@.len()),
{
    let ghost n = tiles@.len();
    let mut i: usize = 0;
    while i < tiles.len()
        invariant
            tiles@.len() == n,
            i <= n,
            forall|j: int| 0 <= j < i ==> tiles@[j] is None,
        decreases n - i,
    {
        tiles.set(i, None);
        i = i + 1;
    }
    assert(tiles@ =~= crate::layer::empty_cells(n));
}

/// Paint a tile with base cell (`tile_x`, `tile_y`) on a tile layer. The tile
/// is `base_tile` with the flip flags applied; `grid` is its footprint in
/// cells as its tileset gives it. Nothing happens when the layer is not a tile
/// layer, the cell is the one painted last, it lies outside the level, or the
/// layer holds tiles of another tileset of the project. Otherwise the layer
/// is made ready first: a layer whose tiles belong to a tileset no longer in
/// the project is cleared, and the layer takes the selected tileset. Only
/// then is a multi-cell tile that does not fit refused, the layer keeping
/// that preparation (see `prepared_for_paint`). The stroke
/// starts if none is in progress and records every changed cell; the cell
/// becomes the last painted one. Returns the cells to redraw with their new
/// tiles, or `None` when nothing was painted.
pub fn paint_tile(
    level: &mut Level,
    level_id: Uuid,
    layer_idx: usize,
    tile_x: i32,
    tile_y: i32,
    base_tile: u32,
    flip_x: bool,
    flip_y: bool,
    selected_tileset: Uuid,
    tilesets: &Vec<Tileset>,
    grid: (u32, u32),
    stroke: &mut PaintStrokeTracker,
    last_painted: &mut Option<(u32, u32)>,
) -> (updates: Option<Vec<(u32, u32, Option<u32>)>>)
    requires
        grid_index_fits(old(level).width, old(level).height),
        old(stroke).wf(),
    ensures
        updates is Some <==> ({
            &&& paint_reaches_footprint(
                *old(level),
                layer_idx as int,
                tile_x,
                tile_y,
                selected_tileset,
                tilesets@,
                *old(last_painted),
            )
            &&& (is_multi_cell(grid.0, grid.1) ==> footprint_inside(
                old(level).width,
                old(level).height,
                tile_x as u32,
                tile_y as u32,
                grid.0,
                grid.1,
            ))
        }),
        updates is None ==> *final(stroke) == *old(stroke) && *final(last_painted) == *old(last_painted),
        updates is None ==> if paint_reaches_footprint(
            *old(level),
            layer_idx as int,
            tile_x,
            tile_y,
            selected_tileset,
            tilesets@,
            *old(last_painted),
        ) {
            prepared_for_paint(
                *old(level),
                *final(level),
                layer_idx as int,
                selected_tileset,
                paint_clears_layer(old(level).layers@[layer_idx as int], tilesets@),
            )
        } else {
            *final(level) == *old(level)
        },
        updates matches Some(u) ==> {
            let tile = spec_tile_with_flips(base_tile, flip_x, flip_y) as u32;
            let (fw, fh) = if is_multi_cell(grid.0, grid.1) { grid } else { (1u32, 1u32) };
            &&& paint_post(
                *old(level),
                *final(level),
                *old(stroke),
                *final(stroke),
                layer_idx as int,
                level_id,
                tile_x as u32,
                tile_y as u32,
                tile,
                selected_tileset,
                paint_clears_layer(old(level).layers@[layer_idx as int], tilesets@),
                grid.0,
                grid.1,
            )
            &&& *final(last_painted) == Some((tile_x as u32, tile_y as u32))
            &&& u@ == paint_updates(
                fp_rows_cells(tile_x as u32, tile_y as u32, fw, tile_y + fh),
                tile,
                tile_x as u32,
                tile_y as u32,
            )
        },
{
    if layer_idx >= level.layers.len() {
        return None;
    }
    let is_tiles = match &level.layers[layer_idx].data {
        LayerData::Tiles { .. } => true,
        LayerData::Objects { .. } => false,
    };
    if !is_tiles {
        return None;
    }
    let tile = tile_with_flips(base_tile, flip_x, flip_y);
    let (gw, gh) = grid;
    let multi = gw > 1 || gh > 1;
    if let Some((lx, ly)) = *last_painted {
        if lx == #[verifier::truncate] (tile_x as u32) && ly == #[verifier::truncate] (tile_y as u32) {
            return None;
        }
    }
    let width = level.width;
    let height = level.height;
    if tile_x < 0 || tile_y < 0 || tile_x >= u32_as_i32(width) || tile_y >= u32_as_i32(height) {
        return None;
    }
    let x = tile_x as u32;
    let y = tile_y as u32;
    let has_tiles = layer_has_tiles(&level.layers[layer_idx]);
    let layer_tileset = get_layer_tileset_id(&level.layers[layer_idx]);
    let known = match layer_tileset {
        Some(id) => contains_tileset(tilesets, id),
        None => false,
    };
    let mut clears = false;
    if has_tiles {
        if !known {
            clears = true;
        } else {
            match layer_tileset {
                Some(id) => {
                    if id != selected_tileset {
                        return None;
                    }
                },
                None => {},
            }
        }
    }
    {
        let layer = &mut level.layers[layer_idx];
        match &mut layer.data {
            LayerData::Tiles { tileset_id, tiles, occupied_cells } => {
                if clears {
                    clear_cells(tiles);
                    occupied_cells.clear();
                }
                *tileset_id = selected_tileset;
            },
            LayerData::Objects { .. } => {},
        }
    }
    proof {
        assert(level.layers@ =~= old(level).layers@.update(layer_idx as int, level.layers@[layer_idx as int]));
    }
    if multi && gw > 0 && gh > 0 {
        if x as u64 + gw as u64 > width as u64 || y as u64 + gh as u64 > height as u64 {
            return None;
        }
    }
    proof {
        assert(in_grid(width, height, x as int, y as int));
        if multi && gw > 0 && gh > 0 {
            assert(in_grid(width, height, x + gw - 1, y + gh - 1));
        }
    }
    let ghost stroke0 = *stroke;
    stroke.begin(level_id, layer_idx, "Paint Tiles");
    let ghost started = stroke.change_view();
    proof {
        reveal_strlit("Paint Tiles");
        if !stroke0.active {
            assert(stroke.change_view() =~= Map::empty());
        }
    }
    let mut updates: Vec<(u32, u32, Option<u32>)> = Vec::new();
    let layer = &mut level.layers[layer_idx];
    match &mut layer.data {
        LayerData::Tiles { tiles, occupied_cells, .. } => {
            let ghost start_cells = tiles@;
            let ghost start_occ = occupied_cells@;
            let base_idx = (y * width + x) as usize;
            if multi {
                let cells = record_footprint(
                    tiles,
                    occupied_cells,
                    stroke,
                    width,
                    height,
                    true,
                    tile,
                    x,
                    y,
                    gw,
                    gh,
                );
                if gw > 0 && gh > 0 {
                    fill_rect_cells(tiles, width, x, x + gw - 1, y, y + gh - 1, Some(OCCUPIED_CELL));
                    if base_idx < tiles.len() {
                        tiles.set(base_idx, Some(tile));
                    }
                }
                let mut i: usize = 0;
                while i < cells.len()
                    invariant
                        i <= cells@.len(),
                        updates@ == paint_updates(cells@.take(i as int), tile, x, y),
                    decreases cells@.len() - i,
                {
                    let (cx, cy) = cells[i];
                    let v = if cx == x && cy == y {
                        Some(tile)
                    } else {
                        Some(OCCUPIED_CELL)
                    };
                    updates.push((cx, cy, v));
                    i = i + 1;
                    assert(updates@ =~= paint_updates(cells@.take(i as int), tile, x, y));
                }
                assert(cells@.take(i as int) =~= cells@);
            } else {
                let old_tile = if base_idx < tiles.len() {
                    tiles[base_idx]
                } else {
                    None
                };
                if base_idx < tiles.len() {
                    tiles.set(base_idx, Some(tile));
                }
                stroke.record(x, y, old_tile, Some(tile));
                updates.push((x, y, Some(tile)));
                proof {
                    assert(stroke.change_view() =~= strokes_after(
                        started,
                        start_cells,
                        width,
                        height,
                        true,
                        tile,
                        x,
                        y,
                        1,
                        x as int,
                        y + 1,
                    ));
                    assert(fp_row_cells(x, y as int, x as int) =~= Seq::<(u32, u32)>::empty());
                    assert(fp_row_cells(x, y as int, x + 1) =~= seq![(x, y)]);
                    assert(fp_rows_cells(x, y, 1, y as int) =~= Seq::<(u32, u32)>::empty());
                    assert(fp_rows_cells(x, y, 1, y + 1) =~= seq![(x, y)]);
                    assert(updates@ =~= paint_updates(fp_rows_cells(x, y, 1, y + 1), tile, x, y));
                }
            }
        },
        LayerData::Objects { .. } => {},
    }
    *last_painted = Some((x, y));
    Some(updates)
}

/// The tiles of a tile layer's cells and its occupied-cell map.
pub open spec fn layer_parts(layer: Layer) -> (Uuid, Seq<Option<u32>>, Map<usize, usize>) {
    match layer.data {
        LayerData::Tiles { tileset_id, tiles, occupied_cells } => (
            tileset_id,
            tiles@,
            occupied_cells@,
        ),
        LayerData::Objects { .. } => (Uuid { value: 0 }, Seq::empty(), Map::empty()),
    }
}

/// The base cell of the tile covering cell (x, y): the cell the occupied-cell
/// map points to, or the cell itself; split into column and row.
pub open spec fn erase_base(width: u32, occ: Map<usize, usize>, x: u32, y: u32) -> (u32, u32) {
    let k = grid_index(width, (x as int, y as int));
    let b: int = if occ.contains_key(k as usize) { occ[k as usize] as int } else { k };
    ((b % (width as int)) as u32, (b / (width as int)) as u32)
}

/// The footprint erased for a base tile: the tileset's footprint for a real
/// tile, one cell for an empty cell or an occupied marker.
pub open spec fn erase_grid(base_tile: Option<u32>, tile_grid: (u32, u32)) -> (u32, u32) {
    match base_tile {
        Some(t) => if t != OCCUPIED_CELL { tile_grid } else { (1u32, 1u32) },
        None => (1u32, 1u32),
    }
}

/// Whether an erase at (x, y) on the layer clears a multi-cell footprint
/// whose every cell has coordinates and an index that fit in a `u32`.
pub open spec fn erase_fits(level: Level, layer_idx: int, x: u32, y: u32, tile_grid: (u32, u32)) -> bool {
    let (_, cells, occ) = layer_parts(level.layers@[layer_idx]);
    let (bx, by) = erase_base(level.width, occ, x, y);
    let (gw, gh) = erase_grid(grid_tile(cells, level.width, level.height, (bx as int, by as int)), tile_grid);
    is_multi_cell(gw, gh) ==> footprint_fits(level.width, bx, by, gw, gh)
}

/// The smaller of two integers.
pub open spec fn min_of(a: int, b: int) -> int {
    if a <= b { a } else { b }
}

/// How an erase that went ahead changes the level and the stroke.
pub open spec fn erase_post(
    before: Level,
    after: Level,
    stroke0: PaintStrokeTracker,
    stroke1: PaintStrokeTracker,
    layer_idx: int,
    level_id: Uuid,
    x: u32,
    y: u32,
    tile_grid: (u32, u32),
) -> bool {
    let w = before.width;
    let h = before.height;
    let (t0, c0, o0) = layer_parts(before.layers@[layer_idx]);
    let (bx, by) = erase_base(w, o0, x, y);
    let (gw, gh) = erase_grid(grid_tile(c0, w, h, (bx as int, by as int)), tile_grid);
    let multi = is_multi_cell(gw, gh);
    let (ex, ey, fw, fh) = if multi { (bx, by, gw, gh) } else { (x, y, 1u32, 1u32) };
    let started = if stroke0.active { stroke0.change_view() } else { Map::empty() };
    &&& after == (Level { layers: after.layers, ..before })
    &&& after.layers@.len() == before.layers@.len()
    &&& forall|i: int|
        0 <= i < before.layers@.len() && i != layer_idx ==> after.layers@[i]
            == before.layers@[i]
    &&& after.layers@[layer_idx].name == before.layers@[layer_idx].name
    &&& after.layers@[layer_idx].visible == before.layers@[layer_idx].visible
    &&& after.layers@[layer_idx].data is Tiles
    &&& layer_parts(after.layers@[layer_idx]).0 == t0
    &&& layer_parts(after.layers@[layer_idx]).1 == if multi {
        rect_filled(
            c0,
            w as int,
            bx as int,
            min_of(bx + gw - 1, w - 1),
            by as int,
            min_of(by + gh - 1, h - 1),
            None,
        )
    } else {
        set_cell(c0, grid_index(w, (x as int, y as int)), None)
    }
    &&& layer_parts(after.layers@[layer_idx]).2 == if multi {
        occupancy_after(o0, w, false, bx, by, gw, bx as int, by + gh)
    } else {
        o0
    }
    &&& stroke1.wf()
    &&& stroke1.active
    &&& (!stroke0.active ==> stroke1.level_id == Some(level_id) && stroke1.layer_idx == Some(
        layer_idx as usize,
    ) && stroke1.description@ == "Erase Tiles"@)
    &&& (stroke0.active ==> stroke1.level_id == stroke0.level_id && stroke1.layer_idx
        == stroke0.layer_idx && stroke1.description == stroke0.description)
    &&& stroke1.change_view() == strokes_after(
        started,
        c0,
        w,
        h,
        false,
        0,
        ex,
        ey,
        fw,
        ex as int,
        ey + fh,
    )
}

/// The cells an erase at (x, y) reports for redrawing, in row order.
pub open spec fn erase_updates(level: Level, layer_idx: int, x: u32, y: u32, tile_grid: (u32, u32)) -> Seq<(u32, u32)> {
    let w = level.width;
    let (_, c0, o0) = layer_parts(level.layers@[layer_idx]);
    let (bx, by) = erase_base(w, o0, x, y);
    let (gw, gh) = erase_grid(grid_tile(c0, w, level.height, (bx as int, by as int)), tile_grid);
    if is_multi_cell(gw, gh) {
        fp_rows_cells(bx, by, gw, by + gh)
    } else {
        seq![(x, y)]
    }
}

/// The base cell of the tile that covers cell (x, y) of a tile layer: the
/// cell recorded for it in the occupied-cell map, or the cell itself.
pub fn base_cell_of(level: &Level, layer_idx: usize, x: u32, y: u32) -> (r: (u32, u32))
    requires
        is_tile_layer_at(*level, layer_idx as int),
        x < level.width,
        y < level.height,
        crate::level::cell_index_fits(level.width, x, y),
    ensures
        r == erase_base(level.width, layer_parts(level.layers@[layer_idx as int]).2, x, y),
{
    let width = level.width;
    let cell_idx = (y * width + x) as usize;
    let base = match &level.layers[layer_idx].data {
        LayerData::Tiles { occupied_cells, .. } => match occupied_cells.get(&cell_idx) {
            Some(b) => *b,
            None => cell_idx,
        },
        LayerData::Objects { .. } => cell_idx,
    };
    let w = width as usize;
    let bx = (base % w) as u32;
    let by = #[verifier::truncate] ((base / w) as u32);
    (bx, by)
}

/// Erase the tile at cell (`tile_x`, `tile_y`) of a tile layer. When the cell
/// belongs to a multi-cell tile (through the occupied-cell map) the whole
/// footprint of its base cell is erased; `tile_grid` is the footprint that the
/// layer's tileset gives for the tile in the base cell. Nothing happens when
/// the layer is not a tile layer, the cell is the one painted last, or it lies
/// outside the level. The stroke starts if none is in progress and records
/// every cleared cell; the cell becomes the last painted one. Returns the
/// cells to redraw, or `None` when nothing was erased.
pub fn erase_tile(
    level: &mut Level,
    level_id: Uuid,
    layer_idx: usize,
    tile_x: i32,
    tile_y: i32,
    tile_grid: (u32, u32),
    stroke: &mut PaintStrokeTracker,
    last_painted: &mut Option<(u32, u32)>,
) -> (updates: Option<Vec<(u32, u32)>>)
    requires
        grid_index_fits(old(level).width, old(level).height),
        old(stroke).wf(),
        is_tile_layer_at(*old(level), layer_idx as int) && in_grid(
            old(level).width,
            old(level).height,
            tile_x as int,
            tile_y as int,
        ) ==> erase_fits(*old(level), layer_idx as int, tile_x as u32, tile_y as u32, tile_grid),
    ensures
        updates is Some <==> (is_tile_layer_at(*old(level), layer_idx as int) && *old(last_painted)
            != Some((tile_x as u32, tile_y as u32)) && in_grid(
            old(level).width,
            old(level).height,
            tile_x as int,
            tile_y as int,
        )),
        updates is None ==> *final(level) == *old(level) && *final(stroke) == *old(stroke)
            && *final(last_painted) == *old(last_painted),
        updates matches Some(u) ==> {
            &&& erase_post(
                *old(level),
                *final(level),
                *old(stroke),
                *final(stroke),
                layer_idx as int,
                level_id,
                tile_x as u32,
                tile_y as u32,
                tile_grid,
            )
            &&& *final(last_painted) == Some((tile_x as u32, tile_y as u32))
            &&& u@ == erase_updates(*old(level), layer_idx as int, tile_x as u32, tile_y as u32, tile_grid)
        },
{
    if layer_idx >= level.layers.len() {
        return None;
    }
    let is_tiles = match &level.layers[layer_idx].data {
        LayerData::Tiles { .. } => true,
        LayerData::Objects { .. } => false,
    };
    if !is_tiles {
        return None;
    }
    if let Some((lx, ly)) = *last_painted {
        if lx == #[verifier::truncate] (tile_x as u32) && ly == #[verifier::truncate] (tile_y as u32) {
            return None;
        }
    }
    let width = level.width;
    let height = level.height;
    if tile_x < 0 || tile_y < 0 || tile_x >= u32_as_i32(width) || tile_y >= u32_as_i32(height) {
        return None;
    }
    let x = tile_x as u32;
    let y = tile_y as u32;
    proof {
        assert(in_grid(width, height, x as int, y as int));
    }
    let (bx, by) = base_cell_of(level, layer_idx, x, y);
    let base_tile = if bx < width && by < height {
        proof {
            assert(in_grid(width, height, bx as int, by as int));
        }
        level.get_tile(layer_idx, bx, by)
    } else {
        None
    };
    let (gw, gh) = match base_tile {
        Some(t) => if t != OCCUPIED_CELL {
            tile_grid
        } else {
            (1u32, 1u32)
        },
        None => (1u32, 1u32),
    };
    let multi = gw > 1 || gh > 1;
    let ghost stroke0 = *stroke;
    stroke.begin(level_id, layer_idx, "Erase Tiles");
    let ghost started = stroke.change_view();
    proof {
        reveal_strlit("Erase Tiles");
        if !stroke0.active {
            assert(stroke.change_view() =~= Map::empty());
        }
    }
    let ghost before = *level;
    let mut updates: Vec<(u32, u32)> = Vec::new();
    let layer = &mut level.layers[layer_idx];
    match &mut layer.data {
        LayerData::Tiles { tiles, occupied_cells, .. } => {
            proof {
                assert(base_tile == grid_tile(tiles@, width, height, (bx as int, by as int)));
            }
            if multi {
                updates = record_footprint(
                    tiles,
                    occupied_cells,
                    stroke,
                    width,
                    height,
                    false,
                    0,
                    bx,
                    by,
                    gw,
                    gh,
                );
                if gw > 0 && gh > 0 && by < height {
                    let x1: u32 = if bx as u64 + gw as u64 - 1 < width as u64 {
                        bx + gw - 1
                    } else {
                        width - 1
                    };
                    let y1: u32 = if by as u64 + gh as u64 - 1 < height as u64 {
                        by + gh - 1
                    } else {
                        height - 1
                    };
                    proof {
                        assert(in_grid(width, height, x1 as int, y1 as int));
                    }
                    fill_rect_cells(tiles, width, bx, x1, by, y1, None);
                } else {
                    proof {
                        assert(tiles@ =~= rect_filled(
                            tiles@,
                            width as int,
                            bx as int,
                            min_of(bx + gw - 1, width - 1),
                            by as int,
                            min_of(by + gh - 1, height - 1),
                            None,
                        ));
                    }
                }
            } else {
                let ghost start_cells = tiles@;
                let idx = (y * width + x) as usize;
                let old_tile = if idx < tiles.len() {
                    tiles[idx]
                } else {
                    None
                };
                if idx < tiles.len() {
                    tiles.set(idx, None);
                }
                stroke.record(x, y, old_tile, None);
                updates.push((x, y));
                proof {
                    assert(stroke.change_view() =~= strokes_after(
                        started,
                        start_cells,
                        width,
                        height,
                        false,
                        0,
                        x,
                        y,
                        1,
                        x as int,
                        y + 1,
                    ));
                }
            }
        },
        LayerData::Objects { .. } => {},
    }
    *last_painted = Some((x, y));
    Some(updates)
}

/// A random index below `n`, from `fastrand::usize(..n)`, which the crate
/// documents as a random `usize` in the given range and which panics on an
/// empty range. Nothing more is claimed of the value.
#[verifier::external_body]
fn random_index_below(n: usize) -> (r: usize)
    requires
        n > 0,
    ensures
        r < n,
{
    fastrand::usize(..n)
}

/// Which tile a paint uses, given the index `pick` drawn into the random
/// set: with random painting on and a non-empty set, the tile at `pick`;
/// otherwise the selected tile (`None` when none is selected).
pub fn paint_tile_choice(
    random_paint: bool,
    random_tiles: &Vec<u32>,
    selected_tile: Option<u32>,
    pick: usize,
) -> (r: Option<u32>)
    requires
        random_paint && random_tiles@.len() > 0 ==> pick < random_tiles@.len(),
    ensures
        r == if random_paint && random_tiles@.len() > 0 {
            Some(random_tiles@[pick as int])
        } else {
            selected_tile
        },
{
    if random_paint && random_tiles.len() > 0 {
        Some(random_tiles[pick])
    } else {
        selected_tile
    }
}

/// Which tile a paint uses: with random painting on and a non-empty random
/// set, one of the set drawn at random; otherwise the selected tile.
pub fn choose_paint_tile(random_paint: bool, random_tiles: &Vec<u32>, selected_tile: Option<u32>) -> (r: Option<u32>)
    ensures
        !(random_paint && random_tiles@.len() > 0) ==> r == selected_tile,
        random_paint && random_tiles@.len() > 0 ==> (r matches Some(t) && random_tiles@.contains(t)),
{
    if random_paint && random_tiles.len() > 0 {
        let pick = random_index_below(random_tiles.len());
        let r = paint_tile_choice(random_paint, random_tiles, selected_tile, pick);
        assert(random_tiles@.contains(random_tiles@[pick as int]));
        r
    } else {
        selected_tile
    }
}

} // verus!
