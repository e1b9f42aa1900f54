//! Layer types for tile and object layers

use std::collections::HashMap;
use vstd::prelude::*;
use crate::ids::Uuid;

verus! {

/// The type of a layer
#[derive(Debug, Clone, Copy, PartialEq, Eq, Structural)]
pub enum LayerType {
    Tiles,
    Objects,
}

/// The data contained in a layer
#[derive(Debug, Clone)]
pub enum LayerData {
    /// Tile layer with virtual tile indices
    Tiles {
        /// The tileset used for this layer
        tileset_id: Uuid,
        /// Tile data in row-major order: None means empty, Some(idx) is a
        /// virtual tile index. For multi-cell tiles the base cell has the tile
        /// index and the other cells hold OCCUPIED_CELL.
        tiles: Vec<Option<u32>>,
        /// Maps occupied cell indices to their base cell index (for multi-cell tiles).
        /// Only populated for cells that are part of a multi-cell tile but not the base.
        occupied_cells: HashMap<usize, usize>,
    },
    /// Object layer containing entity references
    Objects {
        /// Entity IDs placed on this layer
        entities: Vec<Uuid>,
    },
}

/// A layer (tiles or objects)
#[derive(Debug, Clone)]
pub struct Layer {
    pub name: String,
    pub visible: bool,
    pub data: LayerData,
}

/// A row of `n` empty cells.
pub open spec fn empty_cells(n: nat) -> Seq<Option<u32>> {
    Seq::new(n, |i: int| None::<u32>)
}

impl Layer {
    /// The layer type that `layer_type` reports.
    pub open spec fn spec_layer_type(&self) -> LayerType {
        match self.data {
            LayerData::Tiles { .. } => LayerType::Tiles,
            LayerData::Objects { .. } => LayerType::Objects,
        }
    }

    /// The tileset of a tile layer; `None` for an object layer.
    pub open spec fn spec_tileset_id(&self) -> Option<Uuid> {
        match self.data {
            LayerData::Tiles { tileset_id, .. } => Some(tileset_id),
            LayerData::Objects { .. } => None,
        }
    }

    /// Create a new tile layer with the given tileset
    pub fn new_tile_layer(name: String, tileset_id: Uuid, width: u32, height: u32) -> (r: Self)
        requires
            width * height <= u32::MAX,
        ensures
            r.name == name,
            r.visible,
            r.data matches LayerData::Tiles { tileset_id: t, tiles, occupied_cells } && t
                == tileset_id && tiles@ == empty_cells((width * height) as nat)
                && occupied_cells@.is_empty(),
    {
        let size = (width * height) as usize;
        let mut tiles: Vec<Option<u32>> = Vec::new();
        let mut i: usize = 0;
        while i < size
            invariant
                i <= size,
                tiles@ == empty_cells(i as nat),
            decreases size - i,
        {
            tiles.push(None);
            i = i + 1;
            assert(tiles@ =~= empty_cells(i as nat));
        }
        Layer {
            name,
            visible: true,
            data: LayerData::Tiles { tileset_id, tiles, occupied_cells: HashMap::new() },
        }
    }

    /// Create a new object layer
    pub fn new_object_layer(name: String) -> (r: Self)
        ensures
            r.name == name,
            r.visible,
            r.data matches LayerData::Objects { entities } && entities@.len() == 0,
    {
        Layer { name, visible: true, data: LayerData::Objects { entities: Vec::new() } }
    }

    /// Get the type of this layer
    pub fn layer_type(&self) -> (r: LayerType)
        ensures
            r == self.spec_layer_type(),
    {
        match &self.data {
            LayerData::Tiles { .. } => LayerType::Tiles,
            LayerData::Objects { .. } => LayerType::Objects,
        }
    }

    /// Get the tileset ID if this is a tile layer
    pub fn tileset_id(&self) -> (r: Option<Uuid>)
        ensures
            r == self.spec_tileset_id(),
    {
        match &self.data {
            LayerData::Tiles { tileset_id, .. } => Some(*tileset_id),
            LayerData::Objects { .. } => None,
        }
    }
}

} // verus!
