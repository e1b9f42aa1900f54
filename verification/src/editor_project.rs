//! The editor's project: levels, tilesets, saved stamps, the world layout and
//! the game project settings, with id-to-position indices kept in step with
//! the level and tileset lists.

use std::collections::HashMap;
use vstd::prelude::*;
use crate::ids::Uuid;
use crate::level::{EntityInstance, Level, is_level_copy};
use crate::entity_config::EntityTypeConfig;
use crate::schema::{Schema, entry_index, entry_names, find_entry};
use crate::data_store::{DataInstance, DataStore, instance_position};
use crate::value::{copy_name, copy_renamed, push_copy_suffix};
use crate::data_store::is_copy_of;
use crate::tileset::Tileset;
use crate::world::WorldConfig;

verus! {

broadcast use vstd::std_specs::hash::group_hash_axioms;

/// A saved tile stamp (reusable tile arrangement)
#[derive(Debug, Clone)]
pub struct TileStamp {
    /// Unique identifier for this stamp
    pub id: Uuid,
    /// User-friendly name
    pub name: String,
    /// Width of the stamp in tiles
    pub width: u32,
    /// Height of the stamp in tiles
    pub height: u32,
    /// The tileset this stamp uses
    pub tileset_id: Uuid,
    /// Tile data in row-major order (None = empty cell); values include flip flags
    pub tiles: Vec<Option<u32>>,
}

impl TileStamp {
    /// Create a new, empty stamp with the given name and dimensions
    pub fn new(name: String, width: u32, height: u32, tileset_id: Uuid) -> (r: Self)
        requires
            width * height <= u32::MAX,
        ensures
            crate::ids::is_random_v4(r.id.value),
            r.name == name,
            r.width == width,
            r.height == height,
            r.tileset_id == tileset_id,
            r.tiles@ == crate::layer::empty_cells((width * height) as nat),
    {
        let size = (width * height) as usize;
        let mut tiles: Vec<Option<u32>> = Vec::new();
        let mut i: usize = 0;
        while i < size
            invariant
                i <= size,
                tiles@ == crate::layer::empty_cells(i as nat),
            decreases size - i,
        {
            tiles.push(None);
            i = i + 1;
            assert(tiles@ =~= crate::layer::empty_cells(i as nat));
        }
        TileStamp { id: Uuid::new_v4(), name, width, height, tileset_id, tiles }
    }

    /// The tile at (x, y): `None` when out of bounds, past the tile data, or empty.
    pub open spec fn tile_at(&self, x: u32, y: u32) -> Option<u32> {
        if x >= self.width || y >= self.height {
            None
        } else {
            let idx = y * self.width + x;
            if idx < self.tiles@.len() {
                self.tiles@[idx]
            } else {
                None
            }
        }
    }

    /// Get tile at position (returns None if out of bounds or empty)
    pub fn get_tile(&self, x: u32, y: u32) -> (r: Option<u32>)
        requires
            x < self.width && y < self.height ==> crate::level::cell_index_fits(self.width, x, y),
        ensures
            r == self.tile_at(x, y),
    {
        if x >= self.width || y >= self.height {
            return None;
        }
        let idx = (y * self.width + x) as usize;
        if idx < self.tiles.len() {
            self.tiles[idx]
        } else {
            None
        }
    }
}

/// Configuration for an associated game project
#[derive(Debug, Clone)]
pub struct GameProjectConfig {
    /// Path to the game project directory (contains Cargo.toml)
    pub project_path: Option<String>,
    /// ID of the level to load when the game starts
    pub starting_level: Option<Uuid>,
    /// Project name (used for Cargo.toml package name)
    pub project_name: String,
    /// Whether to use release mode when building
    pub use_release_build: bool,
}

impl Default for GameProjectConfig {
    fn default() -> (r: Self)
        ensures
            r.project_path is None,
            r.starting_level is None,
            r.project_name@.len() == 0,
            !r.use_release_build,
    {
        GameProjectConfig {
            project_path: None,
            starting_level: None,
            project_name: String::new(),
            use_release_build: false,
        }
    }
}

/// The integer values of the ids of `levels`, in order.
pub open spec fn level_keys(levels: Seq<Level>) -> Seq<u128> {
    levels.map_values(|l: Level| l.id.value)
}

/// The integer values of the ids of `tilesets`, in order.
pub open spec fn tileset_keys(tilesets: Seq<Tileset>) -> Seq<u128> {
    tilesets.map_values(|t: Tileset| t.id.value)
}

/// The last position of `k` in `keys`, if it occurs.
pub open spec fn last_index_of(keys: Seq<u128>, k: u128) -> Option<int> {
    if exists|i: int| 0 <= i < keys.len() && keys[i] == k {
        Some(
            choose|i: int|
                0 <= i < keys.len() && keys[i] == k && forall|j: int|
                    i < j < keys.len() ==> keys[j] != k,
        )
    } else {
        None
    }
}

/// Whether `index` maps exactly the keys of `keys` to their last position.
pub open spec fn index_matches(index: Map<u128, usize>, keys: Seq<u128>) -> bool {
    forall|k: u128|
        match last_index_of(keys, k) {
            Some(i) => #[trigger] index.contains_key(k) && index[k] == i,
            None => !index.contains_key(k),
        }
}

proof fn lemma_last_index_push(keys: Seq<u128>, k: u128, q: u128)
    ensures
        last_index_of(keys.push(k), q) == if q == k {
            Some(keys.len() as int)
        } else {
            last_index_of(keys, q)
        },
{
    let s = keys.push(k);
    if q == k {
        assert(s[keys.len() as int] == k);
        let w = choose|i: int| 0 <= i < s.len() && s[i] == q && forall|j: int| i < j < s.len() ==> s[j] != q;
        assert(0 <= w < s.len() && s[w] == q);
        if w < keys.len() {
            assert(s[keys.len() as int] != q);
        }
    } else {
        if exists|i: int| 0 <= i < keys.len() && keys[i] == q {
            let w0 = choose|i: int| 0 <= i < keys.len() && keys[i] == q && forall|j: int| i < j < keys.len() ==> keys[j] != q;
            let i0 = choose|i: int| 0 <= i < keys.len() && keys[i] == q;
            lemma_last_exists(keys, q, i0);
            assert(s[w0] == q);
            let w = choose|i: int| 0 <= i < s.len() && s[i] == q && forall|j: int| i < j < s.len() ==> s[j] != q;
            assert(0 <= w < s.len() && s[w] == q);
            if w < w0 {
                assert(s[w0] != q);
            } else if w > w0 {
                assert(keys[w] == q);
            }
        } else {
            if exists|i: int| 0 <= i < s.len() && s[i] == q {
                let i = choose|i: int| 0 <= i < s.len() && s[i] == q;
                assert(keys[i] == q);
            }
        }
    }
}

proof fn lemma_last_exists(keys: Seq<u128>, q: u128, i0: int)
    requires
        0 <= i0 < keys.len(),
        keys[i0] == q,
    ensures
        exists|i: int| 0 <= i < keys.len() && keys[i] == q && forall|j: int| i < j < keys.len() ==> keys[j] != q,
    decreases keys.len() - i0,
{
    if exists|j: int| i0 < j < keys.len() && keys[j] == q {
        let j = choose|j: int| i0 < j < keys.len() && keys[j] == q;
        lemma_last_exists(keys, q, j);
    } else {
        assert(forall|j: int| i0 < j < keys.len() ==> keys[j] != q);
    }
}

/// An index mapping each key of `keys` to its last position.
#[verifier::rlimit(40)]
fn build_index(keys: &Vec<u128>) -> (r: HashMap<u128, usize>)
    ensures
        index_matches(r@, keys@),
{
    let mut index: HashMap<u128, usize> = HashMap::new();
    let mut i: usize = 0;
    while i < keys.len()
        invariant
            i <= keys@.len(),
            index_matches(index@, keys@.subrange(0, i as int)),
        decreases keys@.len() - i,
    {
        let k = keys[i];
        proof {
            let p = keys@.subrange(0, i as int);
            assert(keys@.subrange(0, i + 1) =~= p.push(k));
            assert forall|q: u128| #![auto] true implies last_index_of(p.push(k), q) == if q == k {
                Some(p.len() as int)
            } else {
                last_index_of(p, q)
            } by {
                lemma_last_index_push(p, k, q);
            }
        }
        index.insert(k, i);
        i = i + 1;
    }
    assert(keys@.subrange(0, keys@.len() as int) =~= keys@);
    index
}

/// The keys of the ids of `levels`, as a vector.
fn level_key_vec(levels: &Vec<Level>) -> (r: Vec<u128>)
    ensures
        r@ == level_keys(levels@),
{
    let mut r: Vec<u128> = Vec::new();
    let mut i: usize = 0;
    while i < levels.len()
        invariant
            i <= levels@.len(),
            r@ == level_keys(levels@.subrange(0, i as int)),
        decreases levels@.len() - i,
    {
        r.push(levels[i].id.value);
        i = i + 1;
        assert(r@ =~= level_keys(levels@.subrange(0, i as int)));
    }
    assert(levels@.subrange(0, levels@.len() as int) =~= levels@);
    r
}

/// The keys of the ids of `tilesets`, as a vector.
fn tileset_key_vec(tilesets: &Vec<Tileset>) -> (r: Vec<u128>)
    ensures
        r@ == tileset_keys(tilesets@),
{
    let mut r: Vec<u128> = Vec::new();
    let mut i: usize = 0;
    while i < tilesets.len()
        invariant
            i <= tilesets@.len(),
            r@ == tileset_keys(tilesets@.subrange(0, i as int)),
        decreases tilesets@.len() - i,
    {
        r.push(tilesets[i].id.value);
        i = i + 1;
        assert(r@ =~= tileset_keys(tilesets@.subrange(0, i as int)));
    }
    assert(tilesets@.subrange(0, tilesets@.len() as int) =~= tilesets@);
    r
}

/// The entire editor project
#[derive(Debug)]
pub struct Project {
    pub version: u32,
    /// Where the project was last saved or loaded from
    pub path: Option<String>,
    pub schema: Schema,
    pub tilesets: Vec<Tileset>,
    /// Instances of the schema's data types
    pub data: DataStore,
    pub levels: Vec<Level>,
    /// World configuration (layout mode, connections)
    pub world_config: WorldConfig,
    /// Saved tile stamps (reusable tile arrangements)
    pub stamps: Vec<TileStamp>,
    /// Associated game project configuration
    pub game_config: GameProjectConfig,
    /// Whether the project has unsaved changes
    pub dirty: bool,
    /// Position of each level id in `levels` (the last level holding it)
    pub level_index: HashMap<u128, usize>,
    /// Position of each tileset id in `tilesets` (the last tileset holding it)
    pub tileset_index: HashMap<u128, usize>,
    /// Component configuration of entity types, by type name, each name once
    pub entity_type_configs: Vec<(String, EntityTypeConfig)>,
}

impl Project {
    /// The lookup indices agree with the level and tileset lists.
    pub open spec fn wf(&self) -> bool {
        &&& index_matches(self.level_index@, level_keys(self.levels@))
        &&& index_matches(self.tileset_index@, tileset_keys(self.tilesets@))
        &&& self.data.wf()
        &&& entry_names(self.entity_type_configs@).no_duplicates()
    }

    /// Create an empty project for a schema
    pub fn new(schema: Schema) -> (r: Self)
        ensures
            r.wf(),
            r.version == 1,
            r.path is None,
            r.schema == schema,
            r.tilesets@.len() == 0,
            r.data.instances@.len() == 0,
            r.levels@.len() == 0,
            r.stamps@.len() == 0,
            r.world_config.layout == crate::world::WorldLayout::Free,
            r.world_config.grid_width == 256,
            r.world_config.grid_height == 256,
            r.world_config.connections@.len() == 0,
            r.entity_type_configs@.len() == 0,
            !r.dirty,
    {
        let r = Project {
            version: 1,
            path: None,
            schema,
            tilesets: Vec::new(),
            data: DataStore::default(),
            levels: Vec::new(),
            world_config: WorldConfig::default(),
            stamps: Vec::new(),
            game_config: GameProjectConfig::default(),
            dirty: false,
            level_index: HashMap::new(),
            tileset_index: HashMap::new(),
            entity_type_configs: Vec::new(),
        };
        proof {
            assert(entry_names(r.entity_type_configs@) =~= Seq::<Seq<char>>::empty());
            assert(level_keys(r.levels@) =~= Seq::<u128>::empty());
            assert(tileset_keys(r.tilesets@) =~= Seq::<u128>::empty());
        }
        r
    }

    /// Rebuild all lookup indices. Call after loading or bulk modifications.
    pub fn rebuild_indices(&mut self)
        requires
            old(self).data.wf(),
            entry_names(old(self).entity_type_configs@).no_duplicates(),
        ensures
            *final(self) == (Project { level_index: final(self).level_index, tileset_index: final(self).tileset_index, ..*old(self) }),
            final(self).wf(),
            final(self).levels == old(self).levels,
            final(self).tilesets == old(self).tilesets,
            final(self).dirty == old(self).dirty,
            final(self).world_config == old(self).world_config,
    {
        let keys = level_key_vec(&self.levels);
        self.level_index = build_index(&keys);
        let keys = tileset_key_vec(&self.tilesets);
        self.tileset_index = build_index(&keys);
    }

    /// Mark project as modified
    pub fn mark_dirty(&mut self)
        ensures
            *final(self) == (Project { dirty: true, ..*old(self) }),
    {
        self.dirty = true;
    }

    /// Check if project has unsaved changes
    pub fn is_dirty(&self) -> (r: bool)
        ensures
            r == self.dirty,
    {
        self.dirty
    }

    /// Add a new level
    pub fn add_level(&mut self, level: Level)
        requires
            old(self).wf(),
        ensures
            *final(self) == (Project { levels: final(self).levels, level_index: final(self).level_index, dirty: final(self).dirty, ..*old(self) }),
            final(self).wf(),
            final(self).levels@ == old(self).levels@.push(level),
            final(self).tilesets == old(self).tilesets,
            final(self).world_config == old(self).world_config,
            final(self).dirty,
    {
        let id = level.id.value;
        let idx = self.levels.len();
        let ghost keys = level_keys(self.levels@);
        self.levels.push(level);
        self.level_index.insert(id, idx);
        self.dirty = true;
        proof {
            assert(level_keys(self.levels@) =~= keys.push(id));
            assert forall|q: u128| #![auto] true implies last_index_of(keys.push(id), q) == if q == id {
                Some(keys.len() as int)
            } else {
                last_index_of(keys, q)
            } by {
                lemma_last_index_push(keys, id, q);
            }
        }
    }

    /// The position of the level with the given id (the last one holding it).
    pub(crate) fn level_position(&self, id: Uuid) -> (r: Option<usize>)
        requires
            self.wf(),
        ensures
            match r {
                Some(p) => last_index_of(level_keys(self.levels@), id.value) == Some(p as int) && p
                    < self.levels@.len(),
                None => last_index_of(level_keys(self.levels@), id.value) is None,
            },
    {
        match self.level_index.get(&id.value) {
            Some(idx) => {
                proof {
                    lemma_last_index_bounds(level_keys(self.levels@), id.value);
                }
                Some(*idx)
            },
            None => None,
        }
    }

    /// Get level by ID: the last level holding that id, if any
    pub fn get_level(&self, id: Uuid) -> (r: Option<&Level>)
        requires
            self.wf(),
        ensures
            match last_index_of(level_keys(self.levels@), id.value) {
                Some(i) => r == Some(&self.levels@[i]),
                None => r is None,
            },
    {
        match self.level_index.get(&id.value) {
            Some(idx) => {
                proof {
                    assert(self.level_index@.contains_key(id.value));
                    lemma_last_index_bounds(level_keys(self.levels@), id.value);
                }
                Some(&self.levels[*idx])
            },
            None => {
                proof {
                    assert(!self.level_index@.contains_key(id.value));
                }
                None
            },
        }
    }
}

impl Project {
    /// Get mutable level by ID (marks the project dirty)
    pub fn get_level_mut(&mut self, id: Uuid) -> (r: Option<&mut Level>)
        requires
            old(self).wf(),
        ensures
            *final(self) == (Project { levels: final(self).levels, dirty: final(self).dirty, ..*old(self) }),
            match last_index_of(level_keys(old(self).levels@), id.value) {
                Some(i) => (r matches Some(l) && *l == old(self).levels@[i] && final(self).levels@
                    == old(self).levels@.update(i, *final(l))),
                None => r is None && final(self).levels@ == old(self).levels@,
            },
            final(self).level_index == old(self).level_index,
            final(self).tileset_index == old(self).tileset_index,
            final(self).tilesets == old(self).tilesets,
            final(self).world_config == old(self).world_config,
            final(self).dirty,
    {
        self.dirty = true;
        let found = match self.level_index.get(&id.value) {
            Some(idx) => Some(*idx),
            None => None,
        };
        proof {
            lemma_last_index_bounds(level_keys(self.levels@), id.value);
        }
        match found {
            Some(idx) => Some(&mut self.levels[idx]),
            None => None,
        }
    }

    /// Remove a level by ID (the last level holding that id)
    pub fn remove_level(&mut self, id: Uuid) -> (r: Option<Level>)
        requires
            old(self).wf(),
        ensures
            *final(self) == (Project { levels: final(self).levels, level_index: final(self).level_index, dirty: final(self).dirty, ..*old(self) }),
            final(self).wf(),
            match last_index_of(level_keys(old(self).levels@), id.value) {
                Some(i) => r == Some(old(self).levels@[i]) && final(self).levels@ == old(self).levels@.remove(i) && final(self).dirty,
                None => r is None && final(self).levels@ == old(self).levels@ && final(self).dirty
                    == old(self).dirty,
            },
            final(self).tilesets == old(self).tilesets,
            final(self).world_config == old(self).world_config,
    {
        let found = match self.level_index.get(&id.value) {
            Some(idx) => Some(*idx),
            None => None,
        };
        proof {
            lemma_last_index_bounds(level_keys(self.levels@), id.value);
        }
        match found {
            Some(idx) => {
                let removed = self.levels.remove(idx);
                let keys = level_key_vec(&self.levels);
                self.level_index = build_index(&keys);
                self.dirty = true;
                Some(removed)
            },
            None => None,
        }
    }

    /// Add a new tileset
    pub fn add_tileset(&mut self, tileset: Tileset)
        requires
            old(self).wf(),
        ensures
            *final(self) == (Project { tilesets: final(self).tilesets, tileset_index: final(self).tileset_index, dirty: final(self).dirty, ..*old(self) }),
            final(self).wf(),
            final(self).tilesets@ == old(self).tilesets@.push(tileset),
            final(self).levels == old(self).levels,
            final(self).world_config == old(self).world_config,
            final(self).dirty,
    {
        let id = tileset.id.value;
        let idx = self.tilesets.len();
        let ghost keys = tileset_keys(self.tilesets@);
        self.tilesets.push(tileset);
        self.tileset_index.insert(id, idx);
        self.dirty = true;
        proof {
            assert(tileset_keys(self.tilesets@) =~= keys.push(id));
            assert forall|q: u128| #![auto] true implies last_index_of(keys.push(id), q) == if q == id {
                Some(keys.len() as int)
            } else {
                last_index_of(keys, q)
            } by {
                lemma_last_index_push(keys, id, q);
            }
        }
    }

    /// Get tileset by ID: the last tileset holding that id, if any
    pub fn get_tileset(&self, id: Uuid) -> (r: Option<&Tileset>)
        requires
            self.wf(),
        ensures
            match last_index_of(tileset_keys(self.tilesets@), id.value) {
                Some(i) => r == Some(&self.tilesets@[i]),
                None => r is None,
            },
    {
        match self.tileset_index.get(&id.value) {
            Some(idx) => {
                proof {
                    lemma_last_index_bounds(tileset_keys(self.tilesets@), id.value);
                }
                Some(&self.tilesets[*idx])
            },
            None => None,
        }
    }

    /// Get mutable tileset by ID (marks the project dirty)
    pub fn get_tileset_mut(&mut self, id: Uuid) -> (r: Option<&mut Tileset>)
        requires
            old(self).wf(),
        ensures
            *final(self) == (Project { tilesets: final(self).tilesets, dirty: final(self).dirty, ..*old(self) }),
            match last_index_of(tileset_keys(old(self).tilesets@), id.value) {
                Some(i) => (r matches Some(t) && *t == old(self).tilesets@[i] && final(self).tilesets@
                    == old(self).tilesets@.update(i, *final(t))),
                None => r is None && final(self).tilesets@ == old(self).tilesets@,
            },
            final(self).level_index == old(self).level_index,
            final(self).tileset_index == old(self).tileset_index,
            final(self).levels == old(self).levels,
            final(self).world_config == old(self).world_config,
            final(self).dirty,
    {
        self.dirty = true;
        let found = match self.tileset_index.get(&id.value) {
            Some(idx) => Some(*idx),
            None => None,
        };
        proof {
            lemma_last_index_bounds(tileset_keys(self.tilesets@), id.value);
        }
        match found {
            Some(idx) => Some(&mut self.tilesets[idx]),
            None => None,
        }
    }

    /// Remove a tileset by ID (the last tileset holding that id)
    pub fn remove_tileset(&mut self, id: Uuid) -> (r: Option<Tileset>)
        requires
            old(self).wf(),
        ensures
            *final(self) == (Project { tilesets: final(self).tilesets, tileset_index: final(self).tileset_index, dirty: final(self).dirty, ..*old(self) }),
            final(self).wf(),
            match last_index_of(tileset_keys(old(self).tilesets@), id.value) {
                Some(i) => r == Some(old(self).tilesets@[i]) && final(self).tilesets@ == old(self).tilesets@.remove(i) && final(self).dirty,
                None => r is None && final(self).tilesets@ == old(self).tilesets@ && final(self).dirty == old(self).dirty,
            },
            final(self).levels == old(self).levels,
            final(self).world_config == old(self).world_config,
    {
        let found = match self.tileset_index.get(&id.value) {
            Some(idx) => Some(*idx),
            None => None,
        };
        proof {
            lemma_last_index_bounds(tileset_keys(self.tilesets@), id.value);
        }
        match found {
            Some(idx) => {
                let removed = self.tilesets.remove(idx);
                let keys = tileset_key_vec(&self.tilesets);
                self.tileset_index = build_index(&keys);
                self.dirty = true;
                Some(removed)
            },
            None => None,
        }
    }
}

proof fn lemma_last_index_bounds(keys: Seq<u128>, k: u128)
    ensures
        last_index_of(keys, k) matches Some(i) ==> 0 <= i < keys.len() && keys[i] == k && forall|
            j: int,
        | i < j < keys.len() ==> keys[j] != k,
{
    if exists|i: int| 0 <= i < keys.len() && keys[i] == k {
        let i0 = choose|i: int| 0 <= i < keys.len() && keys[i] == k;
        lemma_last_exists(keys, k, i0);
    }
}

/// How many of `entities` have the given entity type.
pub open spec fn count_of_type(entities: Seq<EntityInstance>, entity_type: Seq<char>) -> nat
    decreases entities.len(),
{
    if entities.len() == 0 {
        0
    } else {
        count_of_type(entities.drop_last(), entity_type) + if entities.last().entity_type@ == entity_type {
            1nat
        } else {
            0nat
        }
    }
}

/// How many entities of the given type the levels hold together.
pub open spec fn count_in_levels(levels: Seq<Level>, entity_type: Seq<char>) -> nat
    decreases levels.len(),
{
    if levels.len() == 0 {
        0
    } else {
        count_in_levels(levels.drop_last(), entity_type) + count_of_type(levels.last().entities@, entity_type)
    }
}

/// How many entities the levels hold together.
pub open spec fn total_entities(levels: Seq<Level>) -> nat
    decreases levels.len(),
{
    if levels.len() == 0 {
        0
    } else {
        total_entities(levels.drop_last()) + levels.last().entities@.len()
    }
}

proof fn lemma_count_of_type_bound(entities: Seq<EntityInstance>, entity_type: Seq<char>)
    ensures
        count_of_type(entities, entity_type) <= entities.len(),
    decreases entities.len(),
{
    if entities.len() > 0 {
        lemma_count_of_type_bound(entities.drop_last(), entity_type);
    }
}

proof fn lemma_count_in_levels_bound(levels: Seq<Level>, entity_type: Seq<char>)
    ensures
        count_in_levels(levels, entity_type) <= total_entities(levels),
    decreases levels.len(),
{
    if levels.len() > 0 {
        lemma_count_in_levels_bound(levels.drop_last(), entity_type);
        lemma_count_of_type_bound(levels.last().entities@, entity_type);
    }
}

proof fn lemma_total_prefix(levels: Seq<Level>, n: int)
    requires
        0 <= n <= levels.len(),
    ensures
        total_entities(levels.take(n)) <= total_entities(levels),
    decreases levels.len(),
{
    if n < levels.len() {
        lemma_total_prefix(levels.drop_last(), n);
        assert(levels.drop_last().take(n) =~= levels.take(n));
    } else {
        assert(levels.take(n) =~= levels);
    }
}

impl Project {
    /// Count how many entities of the given type the levels hold.
    pub fn count_entities_of_type(&self, entity_type: &str) -> (r: usize)
        requires
            total_entities(self.levels@) <= usize::MAX,
        ensures
            r == count_in_levels(self.levels@, entity_type@),
    {
        let mut total: usize = 0;
        let mut i: usize = 0;
        while i < self.levels.len()
            invariant
                i <= self.levels@.len(),
                total_entities(self.levels@) <= usize::MAX,
                total == count_in_levels(self.levels@.take(i as int), entity_type@),
            decreases self.levels@.len() - i,
        {
            let entities = &self.levels[i].entities;
            let mut k: usize = 0;
            let mut count: usize = 0;
            while k < entities.len()
                invariant
                    k <= entities@.len(),
                    count == count_of_type(entities@.take(k as int), entity_type@),
                decreases entities@.len() - k,
            {
                proof {
                    assert(entities@.take(k + 1).drop_last() =~= entities@.take(k as int));
                    lemma_count_of_type_bound(entities@.take(k as int), entity_type@);
                }
                if crate::text::str_equal(entities[k].entity_type.as_str(), entity_type) {
                    count = count + 1;
                }
                k = k + 1;
            }
            proof {
                assert(entities@.take(k as int) =~= entities@);
                let next = self.levels@.take(i + 1);
                assert(next.drop_last() =~= self.levels@.take(i as int));
                lemma_count_in_levels_bound(next, entity_type@);
                lemma_total_prefix(self.levels@, i + 1);
            }
            total = total + count;
            i = i + 1;
        }
        assert(self.levels@.take(i as int) =~= self.levels@);
        total
    }

    /// Add a data instance
    pub fn add_data_instance(&mut self, instance: DataInstance)
        requires
            old(self).wf(),
            crate::value::props_wf(instance.properties@),
        ensures
            *final(self) == (Project { data: final(self).data, dirty: final(self).dirty, ..*old(self) }),
            final(self).wf(),
            final(self).dirty,
            final(self).levels == old(self).levels,
            final(self).tilesets == old(self).tilesets,
            crate::data_store::all_of(final(self).data.instances@).to_multiset() == crate::data_store::all_of(
                old(self).data.instances@,
            ).to_multiset().insert(instance),
    {
        let ghost before = self.data.instances@;
        let ghost inst = instance;
        self.data.add(instance);
        self.dirty = true;
        proof {
            crate::data_store::lemma_add_all_of(before, self.data.instances@, inst);
        }
    }

    /// Remove a data instance by id (the first one with that id)
    pub fn remove_data_instance(&mut self, id: Uuid) -> (r: Option<DataInstance>)
        requires
            old(self).wf(),
        ensures
            *final(self) == (Project { data: final(self).data, dirty: final(self).dirty, ..*old(self) }),
            final(self).wf(),
            final(self).levels == old(self).levels,
            final(self).tilesets == old(self).tilesets,
            match instance_position(old(self).data.instances@, id) {
                Some((g, k)) => r == Some(old(self).data.instances@[g].1@[k]) && final(self).dirty,
                None => r is None && final(self).data.instances@ == old(self).data.instances@
                    && final(self).dirty == old(self).dirty,
            },
    {
        let result = self.data.remove(id);
        if result.is_some() {
            self.dirty = true;
        }
        result
    }

    /// Get a data instance by id
    pub fn get_data_instance(&self, id: Uuid) -> (r: Option<&DataInstance>)
        ensures
            match instance_position(self.data.instances@, id) {
                Some((g, k)) => r == Some(&self.data.instances@[g].1@[k]),
                None => r is None,
            },
    {
        self.data.get(id)
    }

    /// Get a data instance by id for editing (marks the project dirty when found)
    pub fn get_data_instance_mut(&mut self, id: Uuid) -> (r: Option<&mut DataInstance>)
        requires
            old(self).wf(),
        ensures
            final(self).wf() <==> (instance_position(old(self).data.instances@, id) matches Some((g, k))
                ==> crate::value::props_wf(final(self).data.instances@[g].1@[k].properties@)),
            *final(self) == (Project {
                data: final(self).data,
                dirty: old(self).dirty || instance_position(old(self).data.instances@, id) is Some,
                ..*old(self)
            }),
            match instance_position(old(self).data.instances@, id) {
                Some((g, k)) => (r matches Some(x) && *x == old(self).data.instances@[g].1@[k]
                    && final(self).data.instances@.len() == old(self).data.instances@.len()
                    && (forall|h: int|
                    0 <= h < old(self).data.instances@.len() && h != g ==> final(self).data.instances@[h]
                        == old(self).data.instances@[h]) && final(self).data.instances@[g].0
                    == old(self).data.instances@[g].0 && final(self).data.instances@[g].1@
                    == old(self).data.instances@[g].1@.update(k, *final(x))),
                None => r is None && final(self).data.instances@ == old(self).data.instances@,
            },
    {
        let result = self.data.get_mut(id);
        if result.is_some() {
            self.dirty = true;
        }
        result
    }

    /// Duplicate a data instance: a copy with a fresh id whose "name"
    /// property, when it is a string, gets " (Copy)" appended; the copy joins
    /// the instances of its type. Returns the new id, or `None` when no
    /// instance has the given id.
    pub fn duplicate_data_instance(&mut self, id: Uuid) -> (r: Option<Uuid>)
        requires
            old(self).wf(),
        ensures
            *final(self) == (Project { data: final(self).data, dirty: final(self).dirty, ..*old(self) }),
            final(self).wf(),
            final(self).levels == old(self).levels,
            final(self).tilesets == old(self).tilesets,
            r is Some <==> instance_position(old(self).data.instances@, id) is Some,
            r is None ==> final(self).data.instances@ == old(self).data.instances@
                && final(self).dirty == old(self).dirty,
            r matches Some(new_id) ==> {
                let (g, k) = instance_position(old(self).data.instances@, id)->0;
                &&& final(self).dirty
                &&& crate::ids::is_random_v4(new_id.value)
                &&& exists|copy: DataInstance|
                    #![trigger is_copy_of(copy, old(self).data.instances@[g].1@[k])]
                    copy.id == new_id && is_copy_of(copy, old(self).data.instances@[g].1@[k])
                        && crate::data_store::all_of(final(self).data.instances@).to_multiset()
                        == crate::data_store::all_of(old(self).data.instances@).to_multiset().insert(
                        copy,
                    )
            },
    {
        let found = self.data.get(id);
        let (data_type, properties) = match found {
            None => {
                return None;
            },
            Some(original) => (original.data_type.clone(), copy_renamed(&original.properties)),
        };
        let new_id = Uuid::new_v4();
        let duplicate = DataInstance { id: new_id, data_type, properties };
        let ghost dup = duplicate;
        proof {
            let (g, k) = instance_position(old(self).data.instances@, id)->0;
            crate::data_store::lemma_position_found(old(self).data.instances@, id);
            assert(crate::value::props_wf(old(self).data.instances@[g].1@[k].properties@));
            crate::value::lemma_renamed_props_wf(old(self).data.instances@[g].1@[k].properties@, dup.properties@);
        }
        self.add_data_instance(duplicate);
        proof {
            let (g, k) = instance_position(old(self).data.instances@, id)->0;
            assert(is_copy_of(dup, old(self).data.instances@[g].1@[k]));
        }
        Some(new_id)
    }
}

impl Project {
    /// Duplicate a level: a copy named "<name> (Copy)" with a fresh id, whose
    /// entities get fresh ids, added after the other levels. Returns the new
    /// id, or `None` when no level has the given id.
    pub fn duplicate_level(&mut self, id: Uuid) -> (r: Option<Uuid>)
        requires
            old(self).wf(),
        ensures
            *final(self) == (Project { levels: final(self).levels, level_index: final(self).level_index, dirty: final(self).dirty, ..*old(self) }),
            final(self).wf(),
            final(self).tilesets == old(self).tilesets,
            final(self).world_config == old(self).world_config,
            r is Some <==> last_index_of(level_keys(old(self).levels@), id.value) is Some,
            r is None ==> final(self).levels == old(self).levels && final(self).dirty == old(self).dirty,
            r matches Some(new_id) ==> {
                let i = last_index_of(level_keys(old(self).levels@), id.value)->0;
                let orig = old(self).levels@[i];
                &&& final(self).dirty
                &&& final(self).levels@.len() == old(self).levels@.len() + 1
                &&& final(self).levels@.drop_last() == old(self).levels@
                &&& final(self).levels@.last().id == new_id
                &&& crate::ids::is_random_v4(new_id.value)
                &&& is_level_copy(final(self).levels@.last(), orig, copy_name(orig.name@))
            },
    {
        let copy = match self.get_level(id) {
            None => {
                return None;
            },
            Some(orig) => {
                let mut name = orig.name.clone();
                push_copy_suffix(&mut name);
                orig.duplicate_as(name)
            },
        };
        let new_id = copy.id;
        self.add_level(copy);
        proof {
            assert(self.levels@.drop_last() =~= old(self).levels@);
        }
        Some(new_id)
    }
}

/// State for the game settings dialog
#[derive(Debug, Clone)]
pub struct GameSettingsDialogState {
    /// Whether the dialog is open
    pub open: bool,
    /// Full path to the game project (e.g., C:\Dev\Games\my_game)
    pub project_path_input: String,
    /// Selected starting level ID
    pub selected_starting_level: Option<Uuid>,
    /// Whether to use release build
    pub use_release_build: bool,
    /// Status message to display
    pub status_message: Option<String>,
    /// Whether Bevy CLI is installed (cached)
    pub cli_installed: Option<bool>,
}

impl Default for GameSettingsDialogState {
    fn default() -> (r: Self)
        ensures
            !r.open,
            r.project_path_input@.len() == 0,
            r.selected_starting_level is None,
            !r.use_release_build,
            r.status_message is None,
            r.cli_installed is None,
    {
        GameSettingsDialogState {
            open: false,
            project_path_input: String::new(),
            selected_starting_level: None,
            use_release_build: false,
            status_message: None,
            cli_installed: None,
        }
    }
}

impl GameSettingsDialogState {
    /// Initialize dialog state from project config
    pub fn load_from_project(&mut self, project: &Project)
        ensures
            final(self).project_path_input@ == match project.game_config.project_path {
                Some(p) => p@,
                None => Seq::<char>::empty(),
            },
            final(self).selected_starting_level == project.game_config.starting_level,
            final(self).use_release_build == project.game_config.use_release_build,
            final(self).status_message is None,
            final(self).open == old(self).open,
            final(self).cli_installed == old(self).cli_installed,
    {
        self.project_path_input = match &project.game_config.project_path {
            Some(p) => p.clone(),
            None => String::new(),
        };
        self.selected_starting_level = project.game_config.starting_level;
        self.use_release_build = project.game_config.use_release_build;
        self.status_message = None;
    }
}

/// Result of rendering the game settings dialog
#[derive(Debug, Clone, Copy)]
pub struct GameSettingsDialogResult {
    /// User wants to save the settings
    pub save_requested: bool,
    /// User wants to create a new game project
    pub create_project_requested: bool,
    /// User wants to install Bevy CLI
    pub install_cli_requested: bool,
}

impl Default for GameSettingsDialogResult {
    fn default() -> (r: Self)
        ensures
            !r.save_requested,
            !r.create_project_requested,
            !r.install_cli_requested,
    {
        GameSettingsDialogResult {
            save_requested: false,
            create_project_requested: false,
            install_cli_requested: false,
        }
    }
}

/// Whether `p` is a plain file name: not empty, without a path separator,
/// a drive colon or a dot, so that every platform reads it as its own stem.
pub open spec fn simple_name(p: Seq<char>) -> bool {
    &&& p.len() > 0
    &&& forall|i: int| 0 <= i < p.len() ==> p[i] != '/' && p[i] != '\\' && p[i] != ':' && p[i] != '.'
}

/// Whether `s` occurs in `p` as a run of consecutive characters.
pub open spec fn is_part_of(s: Seq<char>, p: Seq<char>) -> bool {
    exists|i: int, j: int| 0 <= i <= j <= p.len() && s == p.subrange(i, j)
}

/// The stem of the file a path names: `std::path::Path::file_stem`, read as
/// text with `OsStr::to_str`. The stem is a non-empty part of the path's file
/// name (the whole name, or the part before its last dot), and a plain file
/// name is its own stem; what else counts as a separator depends on the
/// platform and is not stated.
#[verifier::external_body]
fn path_file_stem(path: &str) -> (r: Option<String>)
    ensures
        r is None ==> !simple_name(path@),
        r matches Some(s) ==> s@.len() > 0 && is_part_of(s@, path@) && (simple_name(path@) ==> s@
            == path@),
{
    std::path::Path::new(path).file_stem().and_then(|s| s.to_str()).map(|s| s.to_string())
}

/// The project name shown for a file stem found for the project's path: the
/// stem, or the schema's project name when there is none.
pub fn name_from_stem(stem: Option<String>, schema_name: &String) -> (r: String)
    ensures
        r@ == match stem {
            Some(s) => s@,
            None => schema_name@,
        },
{
    match stem {
        Some(s) => s,
        None => schema_name.clone(),
    }
}

impl Project {
    /// Get project name: the file stem of the project's path, or the schema's
    /// project name when the project has no path or its path no stem
    pub fn name(&self) -> (r: String)
        ensures
            self.path is None ==> r@ == self.schema.project.name@,
            self.path matches Some(p) ==> (simple_name(p@) ==> r@ == p@),
            self.path matches Some(p) ==> (r@ == self.schema.project.name@ || (r@.len() > 0
                && is_part_of(r@, p@))),
    {
        let stem = match &self.path {
            Some(p) => path_file_stem(p.as_str()),
            None => None,
        };
        name_from_stem(stem, &self.schema.project.name)
    }
}

/// With each name once, removing an entry or adding one under a new name
/// keeps each name once.
proof fn lemma_names_after_edit(entries: Seq<(String, EntityTypeConfig)>, i: int, e: (String, EntityTypeConfig))
    requires
        entry_names(entries).no_duplicates(),
    ensures
        0 <= i < entries.len() ==> entry_names(entries.remove(i)).no_duplicates(),
        0 <= i < entries.len() && e.0@ == entries[i].0@ ==> entry_names(entries.update(i, e)).no_duplicates(),
        entry_index(entries, e.0@) is None ==> entry_names(entries.push(e)).no_duplicates(),
{
    if 0 <= i < entries.len() {
        assert(entry_names(entries.remove(i)) =~= entry_names(entries).remove(i));
        if e.0@ == entries[i].0@ {
            assert(entry_names(entries.update(i, e)) =~= entry_names(entries));
        }
    }
    if entry_index(entries, e.0@) is None {
        lemma_names_push(entries, e);
    }
}

/// Adding an entry under a name no entry has keeps each name once.
#[verifier::rlimit(30)]
proof fn lemma_names_push(entries: Seq<(String, EntityTypeConfig)>, e: (String, EntityTypeConfig))
    requires
        entry_names(entries).no_duplicates(),
        entry_index(entries, e.0@) is None,
    ensures
        entry_names(entries.push(e)).no_duplicates(),
{
    let old_names = entry_names(entries);
    let names = entry_names(entries.push(e));
    assert(names =~= old_names.push(e.0@));
    assert forall|a: int| 0 <= a < old_names.len() implies old_names[a] != e.0@ by {
        assert(entries[a].0@ == old_names[a]);
    }
    assert forall|a: int, b: int| 0 <= a < names.len() && 0 <= b < names.len() && a != b
        implies names[a] != names[b] by {
        if a < old_names.len() && b < old_names.len() {
            assert(names[a] == old_names[a] && names[b] == old_names[b]);
        } else if a == old_names.len() {
            assert(names[b] == old_names[b]);
        } else {
            assert(names[a] == old_names[a]);
        }
    }
}

impl Project {
    /// Get entity type config by type name
    pub fn get_entity_type_config(&self, entity_type: &str) -> (r: Option<&EntityTypeConfig>)
        ensures
            match entry_index(self.entity_type_configs@, entity_type@) {
                Some(i) => r == Some(&self.entity_type_configs@[i].1),
                None => r is None,
            },
    {
        match find_entry(&self.entity_type_configs, entity_type) {
            Some(i) => Some(&self.entity_type_configs[i].1),
            None => None,
        }
    }

    /// Get mutable entity type config by type name (marks the project dirty)
    pub fn get_entity_type_config_mut(&mut self, entity_type: &str) -> (r: Option<&mut EntityTypeConfig>)
        ensures
            *final(self) == (Project {
                entity_type_configs: final(self).entity_type_configs,
                dirty: true,
                ..*old(self)
            }),
            match entry_index(old(self).entity_type_configs@, entity_type@) {
                Some(i) => (r matches Some(c) && *c == old(self).entity_type_configs@[i].1
                    && final(self).entity_type_configs@ == old(self).entity_type_configs@.update(
                    i,
                    (old(self).entity_type_configs@[i].0, *final(c)),
                )),
                None => r is None && final(self).entity_type_configs@ == old(self).entity_type_configs@,
            },
    {
        self.dirty = true;
        match find_entry(&self.entity_type_configs, entity_type) {
            Some(i) => Some(&mut self.entity_type_configs[i].1),
            None => None,
        }
    }

    /// Set entity type config for a type: replaces the config of a type that
    /// has one, otherwise adds the type at the end
    pub fn set_entity_type_config(&mut self, entity_type: &str, config: EntityTypeConfig)
        requires
            old(self).wf(),
        ensures
            final(self).wf(),
            *final(self) == (Project {
                entity_type_configs: final(self).entity_type_configs,
                dirty: true,
                ..*old(self)
            }),
            match entry_index(old(self).entity_type_configs@, entity_type@) {
                Some(i) => final(self).entity_type_configs@ == old(self).entity_type_configs@.update(
                    i,
                    (old(self).entity_type_configs@[i].0, config),
                ),
                None => final(self).entity_type_configs@.len() == old(self).entity_type_configs@.len() + 1
                    && final(self).entity_type_configs@.drop_last() == old(self).entity_type_configs@
                    && final(self).entity_type_configs@.last().0@ == entity_type@
                    && final(self).entity_type_configs@.last().1 == config,
            },
    {
        match find_entry(&self.entity_type_configs, entity_type) {
            Some(i) => {
                proof {
                    lemma_names_after_edit(
                        self.entity_type_configs@,
                        i as int,
                        (self.entity_type_configs@[i as int].0, config),
                    );
                }
                self.entity_type_configs[i].1 = config;
            },
            None => {
                let entry = (entity_type.to_string(), config);
                proof {
                    lemma_names_after_edit(self.entity_type_configs@, 0, entry);
                }
                self.entity_type_configs.push(entry);
                assert(self.entity_type_configs@.drop_last() =~= old(self).entity_type_configs@);
            },
        }
        self.dirty = true;
    }

    /// Remove entity type config for a type (marks the project dirty)
    pub fn remove_entity_type_config(&mut self, entity_type: &str) -> (r: Option<EntityTypeConfig>)
        requires
            old(self).wf(),
        ensures
            final(self).wf(),
            *final(self) == (Project {
                entity_type_configs: final(self).entity_type_configs,
                dirty: true,
                ..*old(self)
            }),
            match entry_index(old(self).entity_type_configs@, entity_type@) {
                Some(i) => r == Some(old(self).entity_type_configs@[i].1)
                    && final(self).entity_type_configs@ == old(self).entity_type_configs@.remove(i),
                None => r is None && final(self).entity_type_configs@ == old(self).entity_type_configs@,
            },
    {
        self.dirty = true;
        match find_entry(&self.entity_type_configs, entity_type) {
            Some(i) => {
                proof {
                    lemma_names_after_edit(self.entity_type_configs@, i as int, self.entity_type_configs@[i as int]);
                }
                let (_, config) = self.entity_type_configs.remove(i);
                Some(config)
            },
            None => None,
        }
    }

    /// Ensure a type has an entity type config (adds an empty one, and marks
    /// the project dirty, when it has none), and return it for editing
    pub fn ensure_entity_type_config(&mut self, entity_type: &str) -> (r: &mut EntityTypeConfig)
        requires
            old(self).wf(),
        ensures
            final(self).wf(),
            match entry_index(old(self).entity_type_configs@, entity_type@) {
                Some(i) => *r == old(self).entity_type_configs@[i].1
                    && final(self).entity_type_configs@ == old(self).entity_type_configs@.update(
                    i,
                    (old(self).entity_type_configs@[i].0, *final(r)),
                ) && *final(self) == (Project {
                    entity_type_configs: final(self).entity_type_configs,
                    ..*old(self)
                }),
                None => r.physics is None && r.input is None && r.sprite is None
                    && final(self).entity_type_configs@.len() == old(self).entity_type_configs@.len() + 1
                    && final(self).entity_type_configs@.drop_last() == old(self).entity_type_configs@
                    && final(self).entity_type_configs@.last().0@ == entity_type@
                    && final(self).entity_type_configs@.last().1 == *final(r)
                    && *final(self) == (Project {
                    entity_type_configs: final(self).entity_type_configs,
                    dirty: true,
                    ..*old(self)
                }),
            },
    {
        let i = match find_entry(&self.entity_type_configs, entity_type) {
            Some(i) => i,
            None => {
                let entry = (entity_type.to_string(), EntityTypeConfig::default());
                proof {
                    lemma_names_after_edit(self.entity_type_configs@, 0, entry);
                }
                self.entity_type_configs.push(entry);
                self.dirty = true;
                assert(self.entity_type_configs@.drop_last() =~= old(self).entity_type_configs@);
                self.entity_type_configs.len() - 1
            },
        };
        proof {
            let cur = self.entity_type_configs@;
            assert forall|c: EntityTypeConfig| #[trigger] entry_names(cur.update(i as int, (cur[i as int].0, c))).no_duplicates() by {
                lemma_names_after_edit(cur, i as int, (cur[i as int].0, c));
            }
        }
        &mut self.entity_type_configs[i].1
    }
}

/// A level just added is the one found under its id, and removing that id
/// again takes it back out, leaving the levels as they were.
pub proof fn law_added_level_found_and_removed(levels: Seq<Level>, level: Level)
    ensures
        last_index_of(level_keys(levels.push(level)), level.id.value) == Some(levels.len() as int),
        levels.push(level)[levels.len() as int] == level,
        levels.push(level).remove(levels.len() as int) == levels,
{
    assert(level_keys(levels.push(level)) =~= level_keys(levels).push(level.id.value));
    lemma_last_index_push(level_keys(levels), level.id.value, level.id.value);
    assert(levels.push(level).remove(levels.len() as int) =~= levels);
}

/// A tileset just added is the one found under its id, and removing that id
/// again takes it back out, leaving the tilesets as they were.
pub proof fn law_added_tileset_found_and_removed(tilesets: Seq<Tileset>, tileset: Tileset)
    ensures
        last_index_of(tileset_keys(tilesets.push(tileset)), tileset.id.value) == Some(
            tilesets.len() as int,
        ),
        tilesets.push(tileset)[tilesets.len() as int] == tileset,
        tilesets.push(tileset).remove(tilesets.len() as int) == tilesets,
{
    assert(tileset_keys(tilesets.push(tileset)) =~= tileset_keys(tilesets).push(tileset.id.value));
    lemma_last_index_push(tileset_keys(tilesets), tileset.id.value, tileset.id.value);
    assert(tilesets.push(tileset).remove(tilesets.len() as int) =~= tilesets);
}

/// Adding a level leaves every other id finding what it found before.
pub proof fn law_add_level_keeps_other_lookups(levels: Seq<Level>, level: Level, id: u128)
    requires
        id != level.id.value,
    ensures
        last_index_of(level_keys(levels.push(level)), id) == last_index_of(level_keys(levels), id),
{
    assert(level_keys(levels.push(level)) =~= level_keys(levels).push(level.id.value));
    lemma_last_index_push(level_keys(levels), level.id.value, id);
}

} // verus!
