//! Tilesets: tile atlases made of one or more images cut into square tiles.

use vstd::prelude::*;
use crate::ids::Uuid;

verus! {

/// One image of a tileset
#[derive(Debug, Clone)]
pub struct TilesetImage {
    pub id: Uuid,
    /// Path of the image file, relative to the assets directory
    pub path: String,
    /// Number of tile columns in the image
    pub columns: u32,
    /// Number of tile rows in the image
    pub rows: u32,
}

/// A tile atlas
#[derive(Debug, Clone)]
pub struct Tileset {
    pub id: Uuid,
    pub name: String,
    /// Width and height of one tile, in pixels
    pub tile_size: u32,
    /// Number of tile columns (of the first image)
    pub columns: u32,
    /// Number of tile rows (of the first image)
    pub rows: u32,
    /// The images of the tileset
    pub images: Vec<TilesetImage>,
    /// Path of the single image of a tileset saved in the older one-image format
    pub path: Option<String>,
}

impl Tileset {
    /// Create a tileset made of one image
    pub fn new(name: String, path: String, tile_size: u32, columns: u32, rows: u32) -> (r: Self)
        ensures
            crate::ids::is_random_v4(r.id.value) && crate::ids::is_random_v4(r.images@[0].id.value),
            r.name == name,
            r.tile_size == tile_size,
            r.columns == columns,
            r.rows == rows,
            r.images@.len() == 1,
            r.images@[0].path == path,
            r.images@[0].columns == columns,
            r.images@[0].rows == rows,
            r.path is None,
    {
        let mut images: Vec<TilesetImage> = Vec::new();
        images.push(TilesetImage { id: Uuid::new_v4(), path, columns, rows });
        Tileset { id: Uuid::new_v4(), name, tile_size, columns, rows, images, path: None }
    }
}

/// Whether `copy` holds the same tileset as `orig`: the same id, name, tile
/// geometry, images and one-image path.
pub open spec fn same_tileset(orig: Tileset, copy: Tileset) -> bool {
    &&& copy.id == orig.id
    &&& copy.name@ == orig.name@
    &&& copy.tile_size == orig.tile_size
    &&& copy.columns == orig.columns
    &&& copy.rows == orig.rows
    &&& copy.images@.len() == orig.images@.len()
    &&& forall|i: int|
        0 <= i < orig.images@.len() ==> #[trigger] copy.images@[i].id == orig.images@[i].id
            && copy.images@[i].path@ == orig.images@[i].path@ && copy.images@[i].columns
            == orig.images@[i].columns && copy.images@[i].rows == orig.images@[i].rows
    &&& crate::entity_config::same_text(orig.path, copy.path)
}

impl Tileset {
    /// A copy of the tileset, ids included.
    pub fn duplicate(&self) -> (r: Tileset)
        ensures
            same_tileset(*self, r),
    {
        let mut images: Vec<TilesetImage> = Vec::new();
        let mut i: usize = 0;
        while i < self.images.len()
            invariant
                i <= self.images@.len(),
                images@.len() == i,
                forall|j: int|
                    0 <= j < i ==> #[trigger] images@[j].id == self.images@[j].id && images@[j].path@
                        == self.images@[j].path@ && images@[j].columns == self.images@[j].columns
                        && images@[j].rows == self.images@[j].rows,
            decreases self.images@.len() - i,
        {
            let im = &self.images[i];
            images.push(TilesetImage { id: im.id, path: im.path.clone(), columns: im.columns, rows: im.rows });
            i = i + 1;
        }
        Tileset {
            id: self.id,
            name: self.name.clone(),
            tile_size: self.tile_size,
            columns: self.columns,
            rows: self.rows,
            images,
            path: crate::entity_config::copy_text(&self.path),
        }
    }
}

} // verus!
