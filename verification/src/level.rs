//! Level/map containing tiles and entities

use vstd::prelude::*;
use crate::ids::Uuid;
use crate::layer::{Layer, LayerData};
use crate::value::{Property, Value, duplicate_properties, named_props, props_wf, same_value, set_property};

verus! {

/// An entity placed in a level: its id, its schema type name, its position
/// and its property values.
#[derive(Debug)]
pub struct EntityInstance {
    pub id: Uuid,
    pub entity_type: String,
    /// Position in pixels: x and y, each the IEEE 754 bit pattern of an `f32`
    pub position: [u32; 2],
    /// Property values, each name once
    pub properties: Vec<Property>,
}

/// Whether two property lists hold the same names and values, position by position.
pub open spec fn same_properties(a: Seq<Property>, b: Seq<Property>) -> bool {
    &&& a.len() == b.len()
    &&& forall|i: int| 0 <= i < a.len() ==> #[trigger] a[i].name@ == b[i].name@ && same_value(a[i].value, b[i].value)
}

/// Whether `copy` holds the type, position and properties of `orig` (its id aside).
pub open spec fn same_entity_data(orig: EntityInstance, copy: EntityInstance) -> bool {
    &&& copy.entity_type@ == orig.entity_type@
    &&& copy.position == orig.position
    &&& same_properties(copy.properties@, orig.properties@)
}

impl EntityInstance {
    /// Create a new entity instance of the given type at the given position,
    /// with a fresh id and no properties
    pub fn new(entity_type: String, position: [u32; 2]) -> (r: Self)
        ensures
            crate::ids::is_random_v4(r.id.value),
            r.entity_type == entity_type,
            r.position == position,
            r.properties@.len() == 0,
    {
        EntityInstance { id: Uuid::new_v4(), entity_type, position, properties: Vec::new() }
    }

    /// A copy of this entity under the given id.
    pub fn copy_with_id(&self, id: Uuid) -> (r: Self)
        ensures
            r.id == id,
            same_entity_data(*self, r),
    {
        EntityInstance {
            id,
            entity_type: self.entity_type.clone(),
            position: self.position,
            properties: duplicate_properties(&self.properties),
        }
    }
}

/// A level/map containing tiles and entities
#[derive(Debug)]
pub struct Level {
    pub id: Uuid,
    pub name: String,
    pub width: u32,
    pub height: u32,
    pub layers: Vec<Layer>,
    pub entities: Vec<EntityInstance>,
    /// World X position in pixels (for world view)
    pub world_x: i32,
    /// World Y position in pixels (for world view)
    pub world_y: i32,
    /// Background color for world view (hex format, e.g., "#3C3C50")
    pub bg_color: Option<String>,
}

/// Whether the row-major cell index of (x, y) fits in a `u32` for a grid of the given width.
pub open spec fn cell_index_fits(width: u32, x: u32, y: u32) -> bool {
    y * width + x <= u32::MAX
}

/// The first position in `entities` holding an entity with the given id, if any.
pub open spec fn first_entity_index(entities: Seq<EntityInstance>, id: Uuid) -> Option<int> {
    if exists|i: int| 0 <= i < entities.len() && entities[i].id == id {
        Some(
            choose|i: int|
                0 <= i < entities.len() && entities[i].id == id && forall|j: int|
                    0 <= j < i ==> entities[j].id != id,
        )
    } else {
        None
    }
}

/// How `set_tile(layer_index, x, y, tile)` changes a level: only the addressed
/// cell of the addressed tile layer changes, and only when `writes_cell` holds.
pub open spec fn set_tile_post(
    before: Level,
    after: Level,
    layer_index: int,
    x: u32,
    y: u32,
    tile: Option<u32>,
) -> bool {
    &&& after == (Level { layers: after.layers, ..before })
    &&& after.layers@.len() == before.layers@.len()
    &&& forall|i: int|
        0 <= i < before.layers@.len() && i != layer_index ==> after.layers@[i]
            == before.layers@[i]
    &&& !before.writes_cell(layer_index, x, y) ==> after.layers@ =~= before.layers@
    &&& before.writes_cell(layer_index, x, y) ==> ({
        let l0 = before.layers@[layer_index];
        let l1 = after.layers@[layer_index];
        &&& l1.name == l0.name
        &&& l1.visible == l0.visible
        &&& l0.data matches LayerData::Tiles { tileset_id: t0, tiles: c0, occupied_cells: o0 }
        &&& l1.data matches LayerData::Tiles { tileset_id: t1, tiles: c1, occupied_cells: o1 }
        &&& t1 == t0 && o1 == o0
        &&& c1@ =~= c0@.update(cell_index(before.width, x, y), tile)
    })
}

/// Every in-bounds cell of a grid whose cell count is at most 2^32 has a
/// row-major index that fits in a `u32`.
pub proof fn lemma_cell_index_fits(width: u32, height: u32, x: u32, y: u32)
    requires
        width as int * height as int <= u32::MAX as int + 1,
        x < width,
        y < height,
    ensures
        cell_index_fits(width, x, y),
{
    assert(y as int * width as int + x as int <= (height as int - 1) * width as int + width as int
        - 1) by (nonlinear_arith)
        requires
            x < width,
            y < height,
    ;
    assert((height as int - 1) * width as int + width as int == width as int * height as int)
        by (nonlinear_arith);
}

/// `s` with the elements at positions `i` and `i + 1` exchanged.
pub open spec fn swap_adjacent<T>(s: Seq<T>, i: int) -> Seq<T> {
    s.update(i, s[i + 1]).update(i + 1, s[i])
}

/// Where a tile lives: the cell index in a tile layer's row-major tile vector.
pub open spec fn cell_index(width: u32, x: u32, y: u32) -> int {
    y * width + x
}

/// The tile cells of a layer, if it is a tile layer.
pub open spec fn layer_cells(layer: Layer) -> Option<Seq<Option<u32>>> {
    match layer.data {
        LayerData::Tiles { tiles, .. } => Some(tiles@),
        LayerData::Objects { .. } => None,
    }
}

impl Level {
    /// The tile at (x, y) on layer `layer_index`: `None` when the position is
    /// outside the level, the layer does not exist or is not a tile layer, the
    /// cell index lies past the layer's tile vector, or the cell is empty.
    pub open spec fn tile_at(&self, layer_index: int, x: u32, y: u32) -> Option<u32> {
        if x >= self.width || y >= self.height || !(0 <= layer_index < self.layers@.len()) {
            None
        } else {
            match layer_cells(self.layers@[layer_index]) {
                Some(cells) => {
                    let idx = cell_index(self.width, x, y);
                    if idx < cells.len() {
                        cells[idx]
                    } else {
                        None
                    }
                },
                None => None,
            }
        }
    }

    /// Whether `set_tile(layer_index, x, y, _)` writes a cell: the position is
    /// inside the level and addresses an existing cell of an existing tile layer.
    pub open spec fn writes_cell(&self, layer_index: int, x: u32, y: u32) -> bool {
        &&& x < self.width
        &&& y < self.height
        &&& 0 <= layer_index < self.layers@.len()
        &&& layer_cells(self.layers@[layer_index]) matches Some(cells)
        &&& cell_index(self.width, x, y) < cells.len()
    }

    /// Create a new empty level
    pub fn new(name: String, width: u32, height: u32) -> (r: Self)
        ensures
            crate::ids::is_random_v4(r.id.value),
            r.name == name,
            r.width == width,
            r.height == height,
            r.layers@.len() == 0,
            r.entities@.len() == 0,
            r.world_x == 0,
            r.world_y == 0,
            r.bg_color is None,
    {
        Level {
            id: Uuid::new_v4(),
            name,
            width,
            height,
            layers: Vec::new(),
            entities: Vec::new(),
            world_x: 0,
            world_y: 0,
            bg_color: None,
        }
    }

    /// Create a new level at a specific world position
    pub fn new_at(name: String, width: u32, height: u32, world_x: i32, world_y: i32) -> (r: Self)
        ensures
            crate::ids::is_random_v4(r.id.value),
            r.name == name,
            r.width == width,
            r.height == height,
            r.layers@.len() == 0,
            r.entities@.len() == 0,
            r.world_x == world_x,
            r.world_y == world_y,
            r.bg_color is None,
    {
        Level {
            id: Uuid::new_v4(),
            name,
            width,
            height,
            layers: Vec::new(),
            entities: Vec::new(),
            world_x,
            world_y,
            bg_color: None,
        }
    }

    /// Set the world position
    pub fn set_world_position(&mut self, x: i32, y: i32)
        ensures
            *final(self) == (Level { world_x: x, world_y: y, ..*old(self) }),
    {
        self.world_x = x;
        self.world_y = y;
    }

    /// Get the world position as a tuple
    pub fn world_position(&self) -> (r: (i32, i32))
        ensures
            r == (self.world_x, self.world_y),
    {
        (self.world_x, self.world_y)
    }

    /// Add a new layer
    pub fn add_layer(&mut self, layer: Layer)
        ensures
            final(self).layers@ == old(self).layers@.push(layer),
            *final(self) == (Level { layers: final(self).layers, ..*old(self) }),
    {
        self.layers.push(layer);
    }

    /// Add an entity to the level
    pub fn add_entity(&mut self, entity: EntityInstance)
        ensures
            final(self).entities@ == old(self).entities@.push(entity),
            *final(self) == (Level { entities: final(self).entities, ..*old(self) }),
    {
        self.entities.push(entity);
    }

    /// The position of the first entity with the given id.
    pub(crate) fn find_entity(&self, id: Uuid) -> (r: Option<usize>)
        ensures
            match r {
                Some(i) => first_entity_index(self.entities@, id) == Some(i as int) && i
                    < self.entities@.len() && self.entities@[i as int].id == id,
                None => first_entity_index(self.entities@, id) is None,
            },
    {
        let mut i: usize = 0;
        while i < self.entities.len()
            invariant
                i <= self.entities@.len(),
                forall|j: int| 0 <= j < i ==> self.entities@[j].id != id,
            decreases self.entities@.len() - i,
        {
            if self.entities[i].id == id {
                proof {
                    let w = choose|w: int|
                        0 <= w < self.entities@.len() && self.entities@[w].id == id && forall|
                            j: int,
                        | 0 <= j < w ==> self.entities@[j].id != id;
                    assert(0 <= w < self.entities@.len() && self.entities@[w].id == id);
                    if w < i {
                    } else if w > i {
                        assert(self.entities@[i as int].id == id);
                    }
                }
                return Some(i);
            }
            i = i + 1;
        }
        None
    }

    /// Remove an entity by ID
    pub fn remove_entity(&mut self, id: Uuid) -> (r: Option<EntityInstance>)
        ensures
            match first_entity_index(old(self).entities@, id) {
                Some(i) => r == Some(old(self).entities@[i]) && final(self).entities@
                    == old(self).entities@.remove(i),
                None => r is None && final(self).entities@ == old(self).entities@,
            },
            *final(self) == (Level { entities: final(self).entities, ..*old(self) }),
    {
        match self.find_entity(id) {
            Some(pos) => Some(self.entities.remove(pos)),
            None => None,
        }
    }

    /// Get entity by ID
    pub fn get_entity(&self, id: Uuid) -> (r: Option<&EntityInstance>)
        ensures
            match first_entity_index(self.entities@, id) {
                Some(i) => r == Some(&self.entities@[i]),
                None => r is None,
            },
    {
        match self.find_entity(id) {
            Some(pos) => Some(&self.entities[pos]),
            None => None,
        }
    }

    /// Get tile at position for a specific layer
    pub fn get_tile(&self, layer_index: usize, x: u32, y: u32) -> (r: Option<u32>)
        requires
            x < self.width && y < self.height ==> cell_index_fits(self.width, x, y),
        ensures
            r == self.tile_at(layer_index as int, x, y),
    {
        if x >= self.width || y >= self.height {
            return None;
        }
        if layer_index < self.layers.len() {
            let layer = &self.layers[layer_index];
            if let LayerData::Tiles { tiles, .. } = &layer.data {
                let index = (y * self.width + x) as usize;
                if index < tiles.len() {
                    return tiles[index];
                }
            }
        }
        None
    }

    /// Set tile at position for a specific layer
    pub fn set_tile(&mut self, layer_index: usize, x: u32, y: u32, tile: Option<u32>)
        requires
            x < old(self).width && y < old(self).height
                ==> cell_index_fits(old(self).width, x, y),
        ensures
            set_tile_post(*old(self), *final(self), layer_index as int, x, y, tile),
    {
        if x >= self.width || y >= self.height {
            return;
        }
        if layer_index < self.layers.len() {
            let width = self.width;
            let layer = &mut self.layers[layer_index];
            match &mut layer.data {
                LayerData::Tiles { tiles, .. } => {
                    let index = (y * width + x) as usize;
                    if index < tiles.len() {
                        tiles.set(index, tile);
                    }
                },
                LayerData::Objects { .. } => {},
            }
        }
    }

    /// Get mutable entity by ID
    pub fn get_entity_mut(&mut self, id: Uuid) -> (r: Option<&mut EntityInstance>)
        ensures
            match first_entity_index(old(self).entities@, id) {
                Some(i) => r matches Some(e) && *e == old(self).entities@[i] && final(self).entities@
                    == old(self).entities@.update(i, *final(e)),
                None => r is None && final(self).entities@ == old(self).entities@,
            },
            *final(self) == (Level { entities: final(self).entities, ..*old(self) }),
    {
        match self.find_entity(id) {
            Some(pos) => Some(&mut self.entities[pos]),
            None => None,
        }
    }

    /// Set the "name" property of the first entity with the given id to the
    /// text `new_name`; `false` (nothing changed) when no entity has the id.
    pub fn rename_entity(&mut self, id: Uuid, new_name: String) -> (r: bool)
        ensures
            r == first_entity_index(old(self).entities@, id) is Some,
            match first_entity_index(old(self).entities@, id) {
                Some(i) => {
                    let before = old(self).entities@[i];
                    let after = final(self).entities@[i];
                    &&& final(self).entities@.len() == old(self).entities@.len()
                    &&& forall|j: int| 0 <= j < old(self).entities@.len() && j != i ==> #[trigger] final(self).entities@[j]
                        == old(self).entities@[j]
                    &&& after.id == before.id
                    &&& after.entity_type == before.entity_type
                    &&& after.position == before.position
                    &&& named_props(before.properties@, after.properties@, new_name@)
                    &&& props_wf(before.properties@) ==> props_wf(after.properties@)
                },
                None => final(self).entities@ == old(self).entities@,
            },
            *final(self) == (Level { entities: final(self).entities, ..*old(self) }),
    {
        match self.find_entity(id) {
            Some(pos) => {
                let ghost items = self.entities@;
                let mut entity = self.entities.remove(pos);
                let key = String::from_str("name");
                proof {
                    reveal_strlit("name");
                }
                set_property(&mut entity.properties, key, Value::String(new_name));
                self.entities.insert(pos, entity);
                assert(self.entities@ =~= items.update(pos as int, entity));
                true
            },
            None => false,
        }
    }

    /// Remove a layer by index
    pub fn remove_layer(&mut self, index: usize) -> (r: Option<Layer>)
        ensures
            index < old(self).layers@.len() ==> r == Some(old(self).layers@[index as int])
                && final(self).layers@ == old(self).layers@.remove(index as int),
            index >= old(self).layers@.len() ==> r is None && final(self).layers@ == old(
                self,
            ).layers@,
            *final(self) == (Level { layers: final(self).layers, ..*old(self) }),
    {
        if index < self.layers.len() {
            Some(self.layers.remove(index))
        } else {
            None
        }
    }

    /// Move a layer up (toward index 0)
    pub fn move_layer_up(&mut self, index: usize) -> (r: bool)
        ensures
            r == (0 < index < old(self).layers@.len()),
            r ==> final(self).layers@ == swap_adjacent(old(self).layers@, index - 1),
            !r ==> final(self).layers@ == old(self).layers@,
            *final(self) == (Level { layers: final(self).layers, ..*old(self) }),
    {
        if index > 0 && index < self.layers.len() {
            let layer = self.layers.remove(index);
            self.layers.insert(index - 1, layer);
            proof {
                assert(final(self).layers@ =~= swap_adjacent(old(self).layers@, index - 1));
            }
            true
        } else {
            false
        }
    }

    /// Move a layer down (toward higher index)
    pub fn move_layer_down(&mut self, index: usize) -> (r: bool)
        ensures
            r == (index + 1 < old(self).layers@.len()),
            r ==> final(self).layers@ == swap_adjacent(old(self).layers@, index as int),
            !r ==> final(self).layers@ == old(self).layers@,
            *final(self) == (Level { layers: final(self).layers, ..*old(self) }),
    {
        let n = self.layers.len();
        let last = if n >= 1 { n - 1 } else { 0 };
        if index < last {
            let layer = self.layers.remove(index);
            self.layers.insert(index + 1, layer);
            proof {
                assert(final(self).layers@ =~= swap_adjacent(old(self).layers@, index as int));
            }
            true
        } else {
            false
        }
    }

    /// Toggle layer visibility
    pub fn toggle_layer_visibility(&mut self, index: usize) -> (r: bool)
        ensures
            r == (index < old(self).layers@.len()),
            r ==> final(self).layers@ == old(self).layers@.update(
                index as int,
                Layer { visible: !old(self).layers@[index as int].visible, ..old(self).layers@[index as int] },
            ),
            !r ==> final(self).layers@ == old(self).layers@,
            *final(self) == (Level { layers: final(self).layers, ..*old(self) }),
    {
        if index < self.layers.len() {
            let layer = &mut self.layers[index];
            layer.visible = !layer.visible;
            true
        } else {
            false
        }
    }

    /// Get layer by index
    pub fn get_layer(&self, index: usize) -> (r: Option<&Layer>)
        ensures
            index < self.layers@.len() ==> r == Some(&self.layers@[index as int]),
            index >= self.layers@.len() ==> r is None,
    {
        if index < self.layers.len() {
            Some(&self.layers[index])
        } else {
            None
        }
    }

    /// Get mutable layer by index
    pub fn get_layer_mut(&mut self, index: usize) -> (r: Option<&mut Layer>)
        ensures
            index < old(self).layers@.len() ==> (r matches Some(l) && *l == old(self).layers@[index as int]
                && final(self).layers@ == old(self).layers@.update(index as int, *final(l))),
            index >= old(self).layers@.len() ==> r is None && final(self).layers@ == old(self).layers@,
            *final(self) == (Level { layers: final(self).layers, ..*old(self) }),
    {
        if index < self.layers.len() {
            Some(&mut self.layers[index])
        } else {
            None
        }
    }

    /// The entries of one row of a region: cells (x, y) for x in x0..=x1, each with its tile.
    pub open spec fn region_row(&self, layer_index: int, y: u32, x0: u32, x1: u32) -> Seq<
        ((u32, u32), Option<u32>),
    > {
        Seq::new(
            if x0 <= x1 { (x1 - x0 + 1) as nat } else { 0 },
            |i: int| (((x0 + i) as u32, y), self.tile_at(layer_index, (x0 + i) as u32, y)),
        )
    }

    /// The rows y0..y_end (exclusive) of a region, row after row.
    pub open spec fn region_rows(&self, layer_index: int, y0: int, y_end: int, x0: u32, x1: u32) -> Seq<
        ((u32, u32), Option<u32>),
    >
        decreases y_end - y0,
    {
        if y_end <= y0 {
            Seq::empty()
        } else {
            self.region_rows(layer_index, y0, y_end - 1, x0, x1) + self.region_row(
                layer_index,
                (y_end - 1) as u32,
                x0,
                x1,
            )
        }
    }

    /// Whether every cell of the level has a row-major index that fits in a `u32`.
    pub open spec fn cells_fit(&self) -> bool {
        self.width as int * self.height as int <= u32::MAX as int + 1
    }

    /// Get all tiles in a region (for undo/redo snapshots).
    /// The bounds are first clamped to the last column and row of the level.
    pub fn get_tiles_in_region(
        &self,
        layer_index: usize,
        min_x: u32,
        max_x: u32,
        min_y: u32,
        max_y: u32,
    ) -> (r: Vec<((u32, u32), Option<u32>)>)
        requires
            self.cells_fit(),
        ensures
            ({
                let last_x = if self.width >= 1 { (self.width - 1) as u32 } else { 0u32 };
                let last_y = if self.height >= 1 { (self.height - 1) as u32 } else { 0u32 };
                let x0 = if min_x <= last_x { min_x } else { last_x };
                let x1 = if max_x <= last_x { max_x } else { last_x };
                let y0 = if min_y <= last_y { min_y } else { last_y };
                let y1 = if max_y <= last_y { max_y } else { last_y };
                r@ == self.region_rows(layer_index as int, y0 as int, y1 + 1, x0, x1)
            }),
    {
        let last_x = self.width.saturating_sub(1);
        let last_y = self.height.saturating_sub(1);
        let x0 = if min_x <= last_x { min_x } else { last_x };
        let x1 = if max_x <= last_x { max_x } else { last_x };
        let y0 = if min_y <= last_y { min_y } else { last_y };
        let y1 = if max_y <= last_y { max_y } else { last_y };
        let mut tiles: Vec<((u32, u32), Option<u32>)> = Vec::new();
        let mut y: u64 = y0 as u64;
        while y <= y1 as u64
            invariant
                y0 <= y <= y1 as int + 1 || (y == y0 && y0 > y1),
                y1 <= last_y,
                x1 <= last_x,
                last_x == (if self.width >= 1 { (self.width - 1) as u32 } else { 0u32 }),
                last_y == (if self.height >= 1 { (self.height - 1) as u32 } else { 0u32 }),
                self.cells_fit(),
                tiles@ == self.region_rows(layer_index as int, y0 as int, y as int, x0, x1),
            decreases y1 + 1 - y,
        {
            let mut x: u64 = x0 as u64;
            while x <= x1 as u64
                invariant
                    y0 <= y <= y1,
                    y1 <= last_y,
                    x1 <= last_x,
                    x0 <= x <= x1 as int + 1 || (x == x0 && x0 > x1),
                    last_x == (if self.width >= 1 { (self.width - 1) as u32 } else { 0u32 }),
                    last_y == (if self.height >= 1 { (self.height - 1) as u32 } else { 0u32 }),
                    self.cells_fit(),
                    tiles@ == self.region_rows(layer_index as int, y0 as int, y as int, x0, x1)
                        + self.region_row(layer_index as int, y as u32, x0, x1).subrange(
                        0,
                        x - x0,
                    ),
                decreases x1 + 1 - x,
            {
                let xx = x as u32;
                let yy = y as u32;
                proof {
                    if xx < self.width && yy < self.height {
                        lemma_cell_index_fits(self.width, self.height, xx, yy);
                    }
                }
                let tile = self.get_tile(layer_index, xx, yy);
                tiles.push(((xx, yy), tile));
                x = x + 1;
                proof {
                    let row = self.region_row(layer_index as int, y as u32, x0, x1);
                    assert(row.subrange(0, x - x0) =~= row.subrange(0, x - 1 - x0).push(
                        row[x - 1 - x0],
                    ));
                }
            }
            proof {
                let row = self.region_row(layer_index as int, y as u32, x0, x1);
                assert(row.subrange(0, row.len() as int) =~= row);
            }
            y = y + 1;
        }
        tiles
    }
}

/// Reading a tile back after writing it: the written cell reads as the written
/// value, and every other cell reads as before.
pub proof fn law_get_after_set(
    before: Level,
    after: Level,
    layer_index: int,
    x: u32,
    y: u32,
    tile: Option<u32>,
    q_layer: int,
    qx: u32,
    qy: u32,
)
    requires
        set_tile_post(before, after, layer_index, x, y, tile),
    ensures
        (q_layer == layer_index && qx == x && qy == y && before.writes_cell(layer_index, x, y))
            ==> after.tile_at(q_layer, qx, qy) == tile,
        !(q_layer == layer_index && qx == x && qy == y) ==> after.tile_at(q_layer, qx, qy)
            == before.tile_at(q_layer, qx, qy),
        !before.writes_cell(layer_index, x, y) ==> after.tile_at(q_layer, qx, qy)
            == before.tile_at(q_layer, qx, qy),
{
    if q_layer == layer_index && before.writes_cell(layer_index, x, y) && qx < before.width
        && qy < before.height && !(qx == x && qy == y) {
        lemma_cell_index_injective(before.width, x, y, qx, qy);
    }
}

/// Distinct in-bounds cells have distinct row-major indices.
pub proof fn lemma_cell_index_injective(width: u32, x: u32, y: u32, qx: u32, qy: u32)
    requires
        x < width,
        qx < width,
        !(x == qx && y == qy),
    ensures
        cell_index(width, x, y) != cell_index(width, qx, qy),
{
    if y == qy {
    } else if y < qy {
        assert(y as int * width as int + width as int <= qy as int * width as int)
            by (nonlinear_arith)
            requires
                y < qy,
        ;
    } else {
        assert(qy as int * width as int + width as int <= y as int * width as int)
            by (nonlinear_arith)
            requires
                qy < y,
        ;
    }
}

/// Moving a layer up and then moving it back down (or the reverse) restores
/// the original layer order.
pub proof fn law_move_layer_round_trip<T>(layers: Seq<T>, i: int)
    requires
        0 <= i,
        i + 1 < layers.len(),
    ensures
        swap_adjacent(swap_adjacent(layers, i), i) == layers,
{
    assert(swap_adjacent(swap_adjacent(layers, i), i) =~= layers);
}

/// Toggling the visibility of a layer twice restores the layer list.
pub proof fn law_toggle_visibility_twice(layers: Seq<Layer>, i: int)
    requires
        0 <= i < layers.len(),
    ensures
        ({
            let once = layers.update(i, Layer { visible: !layers[i].visible, ..layers[i] });
            once.update(i, Layer { visible: !once[i].visible, ..once[i] }) == layers
        }),
{
    let once = layers.update(i, Layer { visible: !layers[i].visible, ..layers[i] });
    assert(once.update(i, Layer { visible: !once[i].visible, ..once[i] }) =~= layers);
}

/// An entity added to a level whose entities do not carry its id is found
/// again by that id, at the end of the list, so removing it by id gives it back.
pub proof fn law_find_added_entity(entities: Seq<EntityInstance>, e: EntityInstance)
    requires
        forall|i: int| 0 <= i < entities.len() ==> entities[i].id != e.id,
    ensures
        first_entity_index(entities.push(e), e.id) == Some(entities.len() as int),
        entities.push(e).remove(entities.len() as int) == entities,
{
    let s = entities.push(e);
    assert(s[entities.len() as int].id == e.id);
    let w = choose|w: int| 0 <= w < s.len() && s[w].id == e.id && forall|j: int| 0 <= j < w ==> s[j].id != e.id;
    assert(s.remove(entities.len() as int) =~= entities);
}

/// Whether layer `b` holds the same data as layer `a`.
pub open spec fn same_layer(a: Layer, b: Layer) -> bool {
    &&& a.name == b.name
    &&& a.visible == b.visible
    &&& match (a.data, b.data) {
        (
            LayerData::Tiles { tileset_id: ta, tiles: ca, occupied_cells: oa },
            LayerData::Tiles { tileset_id: tb, tiles: cb, occupied_cells: ob },
        ) => ta == tb && ca@ == cb@ && oa@ == ob@,
        (LayerData::Objects { entities: ea }, LayerData::Objects { entities: eb }) => ea@ == eb@,
        _ => false,
    }
}

/// Whether `copy` is a copy of level `orig` under a new name: the same size,
/// place, color and layers, and the same entities (by type, in order) under
/// fresh ids.
pub open spec fn is_level_copy(copy: Level, orig: Level, name: Seq<char>) -> bool {
    &&& copy.name@ == name
    &&& copy.width == orig.width
    &&& copy.height == orig.height
    &&& copy.world_x == orig.world_x
    &&& copy.world_y == orig.world_y
    &&& copy.bg_color == orig.bg_color
    &&& copy.layers@.len() == orig.layers@.len()
    &&& forall|i: int| 0 <= i < orig.layers@.len() ==> same_layer(#[trigger] orig.layers@[i], copy.layers@[i])
    &&& copy.entities@.len() == orig.entities@.len()
    &&& forall|i: int|
        0 <= i < orig.entities@.len() ==> same_entity_data(orig.entities@[i], #[trigger] copy.entities@[i])
            && crate::ids::is_random_v4(copy.entities@[i].id.value)
}

/// A copy of a cell vector.
fn copy_cells(v: &Vec<Option<u32>>) -> (r: Vec<Option<u32>>)
    ensures
        r@ == v@,
{
    let mut out: Vec<Option<u32>> = Vec::new();
    let mut i: usize = 0;
    while i < v.len()
        invariant
            i <= v@.len(),
            out@ == v@.take(i as int),
        decreases v@.len() - i,
    {
        out.push(v[i]);
        i = i + 1;
        assert(out@ =~= v@.take(i as int));
    }
    assert(v@.take(i as int) =~= v@);
    out
}

/// A copy of an id list.
pub(crate) fn copy_ids(v: &Vec<Uuid>) -> (r: Vec<Uuid>)
    ensures
        r@ == v@,
{
    let mut out: Vec<Uuid> = Vec::new();
    let mut i: usize = 0;
    while i < v.len()
        invariant
            i <= v@.len(),
            out@ == v@.take(i as int),
        decreases v@.len() - i,
    {
        out.push(v[i]);
        i = i + 1;
        assert(out@ =~= v@.take(i as int));
    }
    assert(v@.take(i as int) =~= v@);
    out
}

impl Layer {
    /// A copy of the layer holding the same data.
    pub fn duplicate(&self) -> (r: Layer)
        ensures
            same_layer(*self, r),
    {
        let data = match &self.data {
            LayerData::Tiles { tileset_id, tiles, occupied_cells } => LayerData::Tiles {
                tileset_id: *tileset_id,
                tiles: copy_cells(tiles),
                occupied_cells: occupied_cells.clone(),
            },
            LayerData::Objects { entities } => LayerData::Objects { entities: copy_ids(entities) },
        };
        Layer { name: self.name.clone(), visible: self.visible, data }
    }
}

impl Level {
    /// A copy of the level with a fresh id, named `name`, whose entities get
    /// fresh ids.
    pub fn duplicate_as(&self, name: String) -> (r: Level)
        ensures
            is_level_copy(r, *self, name@),
            crate::ids::is_random_v4(r.id.value),
    {
        let mut layers: Vec<Layer> = Vec::new();
        let mut i: usize = 0;
        while i < self.layers.len()
            invariant
                i <= self.layers@.len(),
                layers@.len() == i,
                forall|j: int| 0 <= j < i ==> same_layer(#[trigger] self.layers@[j], layers@[j]),
            decreases self.layers@.len() - i,
        {
            layers.push(self.layers[i].duplicate());
            i = i + 1;
        }
        let mut entities: Vec<EntityInstance> = Vec::new();
        let mut k: usize = 0;
        while k < self.entities.len()
            invariant
                k <= self.entities@.len(),
                entities@.len() == k,
                forall|j: int|
                    0 <= j < k ==> same_entity_data(self.entities@[j], #[trigger] entities@[j])
                        && crate::ids::is_random_v4(entities@[j].id.value),
            decreases self.entities@.len() - k,
        {
            entities.push(self.entities[k].copy_with_id(Uuid::new_v4()));
            k = k + 1;
        }
        let bg_color = match &self.bg_color {
            Some(c) => Some(c.clone()),
            None => None,
        };
        Level {
            id: Uuid::new_v4(),
            name,
            width: self.width,
            height: self.height,
            layers,
            entities,
            world_x: self.world_x,
            world_y: self.world_y,
            bg_color,
        }
    }
}

/// Whether `copy` holds the same level as `orig`: the same id, name, size,
/// place, color, layers and entities.
pub open spec fn same_level(orig: Level, copy: Level) -> bool {
    &&& copy.id == orig.id
    &&& copy.name@ == orig.name@
    &&& copy.width == orig.width
    &&& copy.height == orig.height
    &&& copy.world_x == orig.world_x
    &&& copy.world_y == orig.world_y
    &&& crate::entity_config::same_text(orig.bg_color, copy.bg_color)
    &&& copy.layers@.len() == orig.layers@.len()
    &&& forall|i: int| 0 <= i < orig.layers@.len() ==> same_layer(#[trigger] orig.layers@[i], copy.layers@[i])
    &&& copy.entities@.len() == orig.entities@.len()
    &&& forall|i: int|
        0 <= i < orig.entities@.len() ==> #[trigger] copy.entities@[i].id == orig.entities@[i].id
            && same_entity_data(orig.entities@[i], copy.entities@[i])
}

impl Level {
    /// A copy of the level, ids included.
    pub fn duplicate(&self) -> (r: Level)
        ensures
            same_level(*self, r),
    {
        let mut layers: Vec<Layer> = Vec::new();
        let mut i: usize = 0;
        while i < self.layers.len()
            invariant
                i <= self.layers@.len(),
                layers@.len() == i,
                forall|j: int| 0 <= j < i ==> same_layer(#[trigger] self.layers@[j], layers@[j]),
            decreases self.layers@.len() - i,
        {
            layers.push(self.layers[i].duplicate());
            i = i + 1;
        }
        let mut entities: Vec<EntityInstance> = Vec::new();
        let mut k: usize = 0;
        while k < self.entities.len()
            invariant
                k <= self.entities@.len(),
                entities@.len() == k,
                forall|j: int|
                    0 <= j < k ==> #[trigger] entities@[j].id == self.entities@[j].id
                        && same_entity_data(self.entities@[j], entities@[j]),
            decreases self.entities@.len() - k,
        {
            entities.push(self.entities[k].copy_with_id(self.entities[k].id));
            k = k + 1;
        }
        Level {
            id: self.id,
            name: self.name.clone(),
            width: self.width,
            height: self.height,
            layers,
            entities,
            world_x: self.world_x,
            world_y: self.world_y,
            bg_color: crate::entity_config::copy_text(&self.bg_color),
        }
    }
}

} // verus!
