//! Map projects: a level bundled with the tilesets it needs, in the simple
//! runtime format (tilesets keyed by id) and the editor's export format
//! (tilesets and levels as arrays).

use std::collections::HashMap;
use vstd::prelude::*;
use crate::ids::{Uuid, spec_hyphenated};
use crate::layer::{Layer, LayerData};
use crate::level::Level;
use crate::text::{decimal_digits, push_decimal};
use crate::entity_config::{EntityTypeConfig, same_config};
use crate::level::same_level;
use crate::schema::{entry_index, find_entry};
use crate::tileset::{Tileset, same_tileset};

verus! {

broadcast use vstd::std_specs::hash::group_hash_axioms;

/// The tilesets of `s` keyed by the integer value of their id; a later tileset
/// replaces an earlier one with the same id.
pub open spec fn tileset_map(s: Seq<Tileset>) -> Map<u128, Tileset>
    decreases s.len(),
{
    if s.len() == 0 {
        Map::empty()
    } else {
        tileset_map(s.drop_last()).insert(s.last().id.value, s.last())
    }
}

/// The tileset ids of the tile layers among `layers`, in layer order.
pub open spec fn tile_layer_ids(layers: Seq<Layer>) -> Seq<Uuid>
    decreases layers.len(),
{
    if layers.len() == 0 {
        Seq::empty()
    } else {
        let rest = tile_layer_ids(layers.drop_last());
        match layers.last().data {
            LayerData::Tiles { tileset_id, .. } => rest.push(tileset_id),
            LayerData::Objects { .. } => rest,
        }
    }
}

/// Whether the ids of `s` are in strictly increasing order of their values.
pub open spec fn strictly_increasing(s: Seq<Uuid>) -> bool {
    forall|i: int, j: int| 0 <= i < j < s.len() ==> s[i].value < s[j].value
}

/// The first tile layer among `layers` whose tileset is not among the keys of
/// `tilesets`, if any.
pub open spec fn first_missing_tileset(layers: Seq<Layer>, tilesets: Map<u128, Tileset>) -> Option<int> {
    if exists|i: int| 0 <= i < layers.len() && missing_tileset(layers[i], tilesets) {
        Some(
            choose|i: int|
                0 <= i < layers.len() && missing_tileset(layers[i], tilesets) && forall|j: int|
                    0 <= j < i ==> !missing_tileset(layers[j], tilesets),
        )
    } else {
        None
    }
}

/// Whether `layer` is a tile layer whose tileset is not among the keys of `tilesets`.
pub open spec fn missing_tileset(layer: Layer, tilesets: Map<u128, Tileset>) -> bool {
    match layer.data {
        LayerData::Tiles { tileset_id, .. } => !tilesets.contains_key(tileset_id.value),
        LayerData::Objects { .. } => false,
    }
}

/// The message reporting that layer `index` refers to the missing tileset `id`.
pub open spec fn missing_tileset_message(index: nat, id: Uuid) -> Seq<char> {
    "Layer "@ + decimal_digits(index) + " references missing tileset "@ + spec_hyphenated(id.value)
}

/// The image paths to load for the tileset with the given id: each image with
/// its index, or for a tileset in the one-image format its single path at index 0.
pub open spec fn tileset_image_paths(id: Uuid, t: Tileset) -> Seq<(Uuid, usize, Seq<char>)> {
    if t.images@.len() > 0 {
        Seq::new(t.images@.len(), |i: int| (id, i as usize, t.images@[i].path@))
    } else {
        match t.path {
            Some(p) => seq![(id, 0usize, p@)],
            None => Seq::empty(),
        }
    }
}

/// The image paths of `r` with their texts as character sequences.
pub open spec fn path_views(r: Seq<(Uuid, usize, &str)>) -> Seq<(Uuid, usize, Seq<char>)> {
    r.map_values(|t: (Uuid, usize, &str)| (t.0, t.1, t.2@))
}

proof fn lemma_path_views_push(r: Seq<(Uuid, usize, &str)>, t: (Uuid, usize, &str))
    ensures
        path_views(r.push(t)) == path_views(r).push((t.0, t.1, t.2@)),
{
    assert(path_views(r.push(t)) =~= path_views(r).push((t.0, t.1, t.2@)));
}

/// The image paths for the ids of `ids` in order, skipping ids with no tileset.
pub open spec fn image_paths_for(ids: Seq<Uuid>, tilesets: Map<u128, Tileset>) -> Seq<
    (Uuid, usize, Seq<char>),
>
    decreases ids.len(),
{
    if ids.len() == 0 {
        Seq::empty()
    } else {
        let rest = image_paths_for(ids.drop_last(), tilesets);
        let id = ids.last();
        if tilesets.contains_key(id.value) {
            rest + tileset_image_paths(id, tilesets[id.value])
        } else {
            rest
        }
    }
}

/// A self-contained map project that includes level data and tileset metadata
#[derive(Debug)]
pub struct MapProject {
    /// Format version for future compatibility
    pub version: u32,
    /// The level data
    pub level: Level,
    /// Tilesets used by this level, keyed by the integer value of their id
    pub tilesets: HashMap<u128, Tileset>,
    /// Component configuration of entity types, by type name, each name once
    pub entity_type_configs: Vec<(String, EntityTypeConfig)>,
}

impl MapProject {
    /// Create a new map project from a level and its tilesets
    pub fn new(level: Level, tilesets: Vec<Tileset>) -> (r: Self)
        ensures
            r.version == 1,
            r.level == level,
            r.tilesets@ == tileset_map(tilesets@),
            r.entity_type_configs@.len() == 0,
    {
        let ghost all = tilesets@;
        let mut rest = tilesets;
        let mut map: HashMap<u128, Tileset> = HashMap::new();
        let ghost mut done: int = 0;
        while rest.len() > 0
            invariant
                0 <= done <= all.len(),
                rest@ == all.subrange(done, all.len() as int),
                map@ == tileset_map(all.subrange(0, done)),
            decreases rest@.len(),
        {
            let t = rest.remove(0);
            proof {
                let p = all.subrange(0, done + 1);
                assert(p.drop_last() =~= all.subrange(0, done));
                assert(p.last() == t);
                done = done + 1;
            }
            map.insert(t.id.value, t);
            assert(rest@ =~= all.subrange(done, all.len() as int));
        }
        assert(all.subrange(0, done) =~= all);
        MapProject { version: 1, level, tilesets: map, entity_type_configs: Vec::new() }
    }
}

proof fn lemma_first_missing_is(layers: Seq<Layer>, tilesets: Map<u128, Tileset>, i: int)
    requires
        0 <= i < layers.len(),
        missing_tileset(layers[i], tilesets),
        forall|j: int| 0 <= j < i ==> !missing_tileset(layers[j], tilesets),
    ensures
        first_missing_tileset(layers, tilesets) == Some(i),
{
    let w = choose|w: int|
        0 <= w < layers.len() && missing_tileset(layers[w], tilesets) && forall|j: int|
            0 <= j < w ==> !missing_tileset(layers[j], tilesets);
    assert(0 <= w < layers.len() && missing_tileset(layers[w], tilesets));
    if w > i {
        assert(!missing_tileset(layers[i], tilesets));
    } else if w < i {
        assert(!missing_tileset(layers[w], tilesets));
    }
}

/// Inserts `id` into the strictly increasing `ids` unless it is already there.
#[verifier::spinoff_prover]
fn insert_sorted_unique(ids: &mut Vec<Uuid>, id: Uuid)
    requires
        strictly_increasing(old(ids)@),
    ensures
        strictly_increasing(final(ids)@),
        forall|x: Uuid| final(ids)@.contains(x) <==> (old(ids)@.contains(x) || x == id),
{
    let mut p: usize = 0;
    while p < ids.len() && ids[p].value < id.value
        invariant
            ids@ == old(ids)@,
            strictly_increasing(ids@),
            p <= ids@.len(),
            forall|j: int| 0 <= j < p ==> ids@[j].value < id.value,
        decreases ids@.len() - p,
    {
        p = p + 1;
    }
    if p < ids.len() && ids[p].value == id.value {
        proof {
            assert(ids@[p as int] == id);
        }
        return;
    }
    let ghost before = ids@;
    ids.insert(p, id);
    proof {
        assert forall|a: int, b: int| 0 <= a < b < ids@.len() implies ids@[a].value < ids@[b].value by {
            if b < p {
                assert(ids@[a] == before[a] && ids@[b] == before[b]);
            } else if b == p {
                assert(ids@[a] == before[a]);
            } else if a < p {
                assert(ids@[a] == before[a] && ids@[b] == before[b - 1]);
                if p < before.len() {
                    assert(before[p as int].value > id.value);
                }
            } else if a == p {
                assert(ids@[b] == before[b - 1]);
                assert(before[p as int].value > id.value);
            } else {
                assert(ids@[a] == before[a - 1] && ids@[b] == before[b - 1]);
            }
        }
        assert forall|x: Uuid| ids@.contains(x) <==> (before.contains(x) || x == id) by {
            if ids@.contains(x) {
                let k = choose|k: int| 0 <= k < ids@.len() && ids@[k] == x;
                if k < p {
                    assert(before[k] == x);
                } else if k > p {
                    assert(before[k - 1] == x);
                }
            }
            if before.contains(x) {
                let k = choose|k: int| 0 <= k < before.len() && before[k] == x;
                if k < p {
                    assert(ids@[k] == x);
                } else {
                    assert(ids@[k + 1] == x);
                }
            }
            if x == id {
                assert(ids@[p as int] == x);
            }
        }
        assert(before == old(ids)@);
        assert(forall|x: Uuid| ids@.contains(x) <==> (old(ids)@.contains(x) || x == id));
    }
}

impl MapProject {
    /// Get a tileset by ID
    pub fn get_tileset(&self, id: Uuid) -> (r: Option<&Tileset>)
        ensures
            match r {
                Some(t) => self.tilesets@.contains_key(id.value) && *t == self.tilesets@[id.value],
                None => !self.tilesets@.contains_key(id.value),
            },
    {
        self.tilesets.get(&id.value)
    }

    /// Get all unique tileset IDs used by tile layers in this level, in
    /// increasing order
    pub fn used_tileset_ids(&self) -> (r: Vec<Uuid>)
        ensures
            strictly_increasing(r@),
            forall|x: Uuid| r@.contains(x) <==> tile_layer_ids(self.level.layers@).contains(x),
    {
        let layers = &self.level.layers;
        let mut ids: Vec<Uuid> = Vec::new();
        let mut i: usize = 0;
        while i < layers.len()
            invariant
                i <= layers@.len(),
                strictly_increasing(ids@),
                forall|x: Uuid|
                    ids@.contains(x) <==> tile_layer_ids(layers@.subrange(0, i as int)).contains(x),
            decreases layers@.len() - i,
        {
            proof {
                let p = layers@.subrange(0, i + 1);
                assert(p.drop_last() =~= layers@.subrange(0, i as int));
                assert(p.last() == layers@[i as int]);
            }
            match &layers[i].data {
                LayerData::Tiles { tileset_id, .. } => {
                    insert_sorted_unique(&mut ids, *tileset_id);
                },
                LayerData::Objects { .. } => {},
            }
            proof {
                let prev = tile_layer_ids(layers@.subrange(0, i as int));
                let next = tile_layer_ids(layers@.subrange(0, i + 1));
                assert forall|x: Uuid| prev.push(x).contains(x) by {
                    assert(prev.push(x)[prev.len() as int] == x);
                }
                assert forall|x: Uuid, y: Uuid| prev.contains(x) implies prev.push(y).contains(x) by {
                    let k = choose|k: int| 0 <= k < prev.len() && prev[k] == x;
                    assert(prev.push(y)[k] == x);
                }
                assert forall|x: Uuid, y: Uuid| prev.push(y).contains(x) && x != y implies prev.contains(x) by {
                    let k = choose|k: int| 0 <= k < prev.len() + 1 && prev.push(y)[k] == x;
                    assert(prev[k] == x);
                }
            }
            i = i + 1;
        }
        assert(layers@.subrange(0, layers@.len() as int) =~= layers@);
        ids
    }

    /// Get all image paths needed to render this level: for each used tileset
    /// (in increasing id order) that the project holds, the paths of its images
    /// with their indices, or its single legacy path at index 0.
    pub fn image_paths(&self) -> (r: Vec<(Uuid, usize, &str)>)
        ensures
            exists|ids: Seq<Uuid>|
                {
                    &&& strictly_increasing(ids)
                    &&& forall|x: Uuid| ids.contains(x) <==> tile_layer_ids(self.level.layers@).contains(x)
                    &&& path_views(r@) == image_paths_for(ids, self.tilesets@)
                },
    {
        let ids = self.used_tileset_ids();
        let mut paths: Vec<(Uuid, usize, &str)> = Vec::new();
        let mut k: usize = 0;
        while k < ids.len()
            invariant
                k <= ids@.len(),
                path_views(paths@) == image_paths_for(ids@.subrange(0, k as int), self.tilesets@),
            decreases ids@.len() - k,
        {
            let id = ids[k];
            let ghost before = path_views(paths@);
            proof {
                let p = ids@.subrange(0, k + 1);
                assert(p.drop_last() =~= ids@.subrange(0, k as int));
                assert(p.last() == id);
            }
            match self.tilesets.get(&id.value) {
                Some(tileset) => {
                    let mut idx: usize = 0;
                    while idx < tileset.images.len()
                        invariant
                            idx <= tileset.images@.len(),
                            tileset.images@.len() > 0 ==> path_views(paths@) == before
                                + tileset_image_paths(id, *tileset).subrange(0, idx as int),
                            tileset.images@.len() == 0 ==> path_views(paths@) == before,
                        decreases tileset.images@.len() - idx,
                    {
                        let entry = (id, idx, tileset.images[idx].path.as_str());
                        proof {
                            lemma_path_views_push(paths@, entry);
                        }
                        paths.push(entry);
                        proof {
                            let full = tileset_image_paths(id, *tileset);
                            assert(full.subrange(0, idx + 1) =~= full.subrange(0, idx as int).push(
                                full[idx as int],
                            ));
                        }
                        idx = idx + 1;
                    }
                    if tileset.images.len() == 0 {
                        match &tileset.path {
                            Some(path) => {
                                let entry = (id, 0usize, path.as_str());
                                proof {
                                    lemma_path_views_push(paths@, entry);
                                }
                                paths.push(entry);
                            },
                            None => {},
                        }
                    }
                    proof {
                        let full = tileset_image_paths(id, *tileset);
                        if tileset.images@.len() > 0 {
                            assert(full.subrange(0, full.len() as int) =~= full);
                        } else {
                            assert(path_views(paths@) =~= before + full);
                        }
                    }
                },
                None => {},
            }
            k = k + 1;
        }
        assert(ids@.subrange(0, ids@.len() as int) =~= ids@);
        paths
    }

    /// Validate that all tileset references in the level are satisfied: the
    /// error names the first tile layer whose tileset is missing.
    pub fn validate(&self) -> (r: Result<(), String>)
        ensures
            match first_missing_tileset(self.level.layers@, self.tilesets@) {
                None => r is Ok,
                Some(i) => r matches Err(msg) && msg@ == missing_tileset_message(
                    i as nat,
                    self.level.layers@[i].data->Tiles_tileset_id,
                ),
            },
    {
        let layers = &self.level.layers;
        let mut i: usize = 0;
        while i < layers.len()
            invariant
                layers@ == self.level.layers@,
                i <= layers@.len(),
                forall|j: int| 0 <= j < i ==> !missing_tileset(layers@[j], self.tilesets@),
            decreases layers@.len() - i,
        {
            match &layers[i].data {
                LayerData::Tiles { tileset_id, .. } => {
                    if !self.tilesets.contains_key(&tileset_id.value) {
                        proof {
                            lemma_first_missing_is(self.level.layers@, self.tilesets@, i as int);
                        }
                        let mut msg = String::from_str("Layer ");
                        push_decimal(&mut msg, i as u64);
                        msg.append(" references missing tileset ");
                        let id_text = tileset_id.to_string();
                        msg.append(id_text.as_str());
                        proof {
                            reveal_strlit("Layer ");
                            reveal_strlit(" references missing tileset ");
                        }
                        assert(msg@ =~= missing_tileset_message(i as nat, *tileset_id));
                        assert(layers@[i as int].data->Tiles_tileset_id == *tileset_id);
                        return Err(msg);
                    }
                },
                LayerData::Objects { .. } => {},
            }
            i = i + 1;
        }
        Ok(())
    }
}

/// Builder for creating a MapProject from separate level and tileset sources
#[derive(Debug)]
pub struct MapProjectBuilder {
    pub level: Option<Level>,
    pub tilesets: Vec<Tileset>,
}

impl MapProjectBuilder {
    pub fn new() -> (r: Self)
        ensures
            r.level is None,
            r.tilesets@.len() == 0,
    {
        MapProjectBuilder { level: None, tilesets: Vec::new() }
    }

    pub fn level(self, level: Level) -> (r: Self)
        ensures
            r.level == Some(level),
            r.tilesets == self.tilesets,
    {
        MapProjectBuilder { level: Some(level), tilesets: self.tilesets }
    }

    pub fn tileset(self, tileset: Tileset) -> (r: Self)
        ensures
            r.level == self.level,
            r.tilesets@ == self.tilesets@.push(tileset),
    {
        let mut tilesets = self.tilesets;
        tilesets.push(tileset);
        MapProjectBuilder { level: self.level, tilesets }
    }

    pub fn tilesets(self, more: Vec<Tileset>) -> (r: Self)
        ensures
            r.level == self.level,
            r.tilesets@ == self.tilesets@ + more@,
    {
        let mut tilesets = self.tilesets;
        let mut more = more;
        tilesets.append(&mut more);
        MapProjectBuilder { level: self.level, tilesets }
    }

    /// Build the project: a level is required.
    pub fn build(self) -> (r: Result<MapProject, &'static str>)
        ensures
            match self.level {
                Some(level) => r matches Ok(p) && p.version == 1 && p.level == level
                    && p.tilesets@ == tileset_map(self.tilesets@) && p.entity_type_configs@.len() == 0,
                None => r matches Err(e) && e@ == "Level is required"@,
            },
    {
        match self.level {
            Some(level) => Ok(MapProject::new(level, self.tilesets)),
            None => Err("Level is required"),
        }
    }
}

impl MapProject {
    /// Get entity type config by type name
    pub fn get_entity_type_config(&self, entity_type: &str) -> (r: Option<&EntityTypeConfig>)
        ensures
            match entry_index(self.entity_type_configs@, entity_type@) {
                Some(i) => r == Some(&self.entity_type_configs@[i].1),
                None => r is None,
            },
    {
        match find_entry(&self.entity_type_configs, entity_type) {
            Some(i) => Some(&self.entity_type_configs[i].1),
            None => None,
        }
    }
}

/// Editor project format, as the editor exports it: tilesets and levels as
/// arrays
#[derive(Debug)]
pub struct EditorProject {
    /// Format version
    pub version: u32,
    pub tilesets: Vec<Tileset>,
    /// Levels (the editor supports several)
    pub levels: Vec<Level>,
    /// Component configuration of entity types, by type name, each name once
    pub entity_type_configs: Vec<(String, EntityTypeConfig)>,
}

/// The position of the first tileset with the given id, if any.
pub open spec fn first_tileset_index(tilesets: Seq<Tileset>, id: Uuid) -> Option<int> {
    if exists|i: int| 0 <= i < tilesets.len() && tilesets[i].id == id {
        Some(
            choose|i: int|
                0 <= i < tilesets.len() && tilesets[i].id == id && forall|j: int|
                    0 <= j < i ==> tilesets[j].id != id,
        )
    } else {
        None
    }
}

/// Whether `copy` maps the same ids as `orig`, each to a copy of its tileset.
pub open spec fn copied_tilesets(orig: Map<u128, Tileset>, copy: Map<u128, Tileset>) -> bool {
    &&& copy.dom() == orig.dom()
    &&& forall|k: u128| #[trigger] orig.contains_key(k) ==> same_tileset(orig[k], copy[k])
}

/// Whether `copy` holds the same named configurations as `orig`, in order.
pub open spec fn copied_configs(
    orig: Seq<(String, EntityTypeConfig)>,
    copy: Seq<(String, EntityTypeConfig)>,
) -> bool {
    &&& copy.len() == orig.len()
    &&& forall|i: int|
        0 <= i < orig.len() ==> #[trigger] copy[i].0@ == orig[i].0@ && same_config(orig[i].1, copy[i].1)
}

impl EditorProject {
    /// Get the first level (most common case)
    pub fn first_level(&self) -> (r: Option<&Level>)
        ensures
            self.levels@.len() == 0 ==> r is None,
            self.levels@.len() > 0 ==> r == Some(&self.levels@[0]),
    {
        if self.levels.len() == 0 {
            None
        } else {
            Some(&self.levels[0])
        }
    }

    /// Get a tileset by ID (the first one holding it)
    pub fn tileset_by_id(&self, id: Uuid) -> (r: Option<&Tileset>)
        ensures
            match first_tileset_index(self.tilesets@, id) {
                Some(i) => r == Some(&self.tilesets@[i]),
                None => r is None,
            },
    {
        let mut i: usize = 0;
        while i < self.tilesets.len()
            invariant
                i <= self.tilesets@.len(),
                forall|j: int| 0 <= j < i ==> self.tilesets@[j].id != id,
            decreases self.tilesets@.len() - i,
        {
            if self.tilesets[i].id == id {
                proof {
                    let s = self.tilesets@;
                    let w = choose|w: int|
                        0 <= w < s.len() && s[w].id == id && forall|j: int| 0 <= j < w ==> s[j].id != id;
                    assert(0 <= w < s.len() && s[w].id == id);
                    if w > i {
                        assert(s[i as int].id == id);
                    }
                }
                return Some(&self.tilesets[i]);
            }
            i = i + 1;
        }
        None
    }

    /// Get entity type config by type name
    pub fn get_entity_type_config(&self, entity_type: &str) -> (r: Option<&EntityTypeConfig>)
        ensures
            match entry_index(self.entity_type_configs@, entity_type@) {
                Some(i) => r == Some(&self.entity_type_configs@[i].1),
                None => r is None,
            },
    {
        match find_entry(&self.entity_type_configs, entity_type) {
            Some(i) => Some(&self.entity_type_configs[i].1),
            None => None,
        }
    }

    /// Convert to a map project of the first level: the tilesets keyed by id
    /// (a later tileset replacing an earlier one with the same id) and the
    /// entity type configurations, all copied; `None` without levels.
    pub fn to_map_project(&self) -> (r: Option<MapProject>)
        ensures
            self.levels@.len() == 0 <==> r is None,
            r matches Some(m) ==> {
                &&& m.version == self.version
                &&& same_level(self.levels@[0], m.level)
                &&& copied_tilesets(tileset_map(self.tilesets@), m.tilesets@)
                &&& copied_configs(self.entity_type_configs@, m.entity_type_configs@)
            },
    {
        if self.levels.len() == 0 {
            return None;
        }
        let level = self.levels[0].duplicate();
        let mut map: HashMap<u128, Tileset> = HashMap::new();
        let mut i: usize = 0;
        while i < self.tilesets.len()
            invariant
                i <= self.tilesets@.len(),
                copied_tilesets(tileset_map(self.tilesets@.take(i as int)), map@),
            decreases self.tilesets@.len() - i,
        {
            let t = self.tilesets[i].duplicate();
            proof {
                assert(self.tilesets@.take(i + 1).drop_last() =~= self.tilesets@.take(i as int));
                assert(self.tilesets@.take(i + 1).last() == self.tilesets@[i as int]);
            }
            map.insert(self.tilesets[i].id.value, t);
            i = i + 1;
            proof {
                let before = tileset_map(self.tilesets@.take(i - 1));
                let after = tileset_map(self.tilesets@.take(i as int));
                assert(after == before.insert(self.tilesets@[i - 1].id.value, self.tilesets@[i - 1]));
                assert(map@.dom() =~= after.dom());
            }
        }
        assert(self.tilesets@.take(i as int) =~= self.tilesets@);
        let mut configs: Vec<(String, EntityTypeConfig)> = Vec::new();
        let mut k: usize = 0;
        while k < self.entity_type_configs.len()
            invariant
                k <= self.entity_type_configs@.len(),
                copied_configs(self.entity_type_configs@.take(k as int), configs@),
            decreases self.entity_type_configs@.len() - k,
        {
            let e = &self.entity_type_configs[k];
            configs.push((e.0.clone(), e.1.duplicate()));
            k = k + 1;
        }
        assert(self.entity_type_configs@.take(k as int) =~= self.entity_type_configs@);
        Some(MapProject { version: self.version, level, tilesets: map, entity_type_configs: configs })
    }
}

} // verus!
