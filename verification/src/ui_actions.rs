//! The editor's responses to tree view and inspector requests: multi-select
//! toggling, deleting and duplicating entities, and adding, deleting,
//! reordering and duplicating layers with the layer selection kept in step.

use vstd::prelude::*;
use crate::ids::Uuid;
use crate::inspector::Selection;
use crate::layer::{Layer, LayerData, empty_cells};
use crate::level::{EntityInstance, Level, copy_ids, first_entity_index, same_layer, swap_adjacent};
use crate::text::{decimal_digits, push_decimal};
use crate::data_store::{DataInstance, instance_position};
use crate::editor_project::{Project, last_index_of, level_keys, tileset_keys};
use crate::project::first_tileset_index;
use crate::tileset::Tileset;
use crate::properties::{default_wf, defaults_wf, get_default_value, starts_as};
use crate::schema::{PropertyDef, Schema, schema_type};
use crate::value::{
    Property, Value, copy_name, find_property, get_property, named_props, set_property, lemma_property_index_found,
    lemma_property_index_same_names, lemma_same_value_wf, property_index, props_wf, push_copy_suffix, same_value,
};

verus! {

/// The first position of `x` in `s`, if it occurs.
pub open spec fn first_pos<T>(s: Seq<T>, x: T) -> Option<int> {
    if exists|i: int| 0 <= i < s.len() && s[i] == x {
        Some(choose|i: int| 0 <= i < s.len() && s[i] == x && forall|j: int| 0 <= j < i ==> s[j] != x)
    } else {
        None
    }
}

/// The first position of `x` in `v`, if it occurs.
fn find_first(v: &Vec<Uuid>, x: Uuid) -> (r: Option<usize>)
    ensures
        match r {
            Some(i) => first_pos(v@, x) == Some(i as int) && i < v@.len() && v@[i as int] == x,
            None => first_pos(v@, x) is None && !v@.contains(x),
        },
{
    let mut i: usize = 0;
    while i < v.len()
        invariant
            i <= v@.len(),
            forall|j: int| 0 <= j < i ==> v@[j] != x,
        decreases v@.len() - i,
    {
        if v[i] == x {
            proof {
                let s = v@;
                assert(s[i as int] == x);
                let w = choose|w: int| 0 <= w < s.len() && s[w] == x && forall|j: int| 0 <= j < w ==> s[j] != x;
                assert(0 <= w < s.len() && s[w] == x);
                if w > i {
                    assert(s[i as int] == x);
                }
            }
            return Some(i);
        }
        i = i + 1;
    }
    None
}

/// A copy of a list of entity references.
fn copy_pairs(v: &Vec<(Uuid, Uuid)>) -> (r: Vec<(Uuid, Uuid)>)
    ensures
        r@ == v@,
{
    let mut out: Vec<(Uuid, Uuid)> = Vec::new();
    let mut i: usize = 0;
    while i < v.len()
        invariant
            i <= v@.len(),
            out@ == v@.take(i as int),
        decreases v@.len() - i,
    {
        out.push(v[i]);
        i = i + 1;
        assert(out@ =~= v@.take(i as int));
    }
    assert(v@.take(i as int) =~= v@);
    out
}

/// The first position of an entity reference in a list, if it occurs.
fn find_pair(v: &Vec<(Uuid, Uuid)>, level_id: Uuid, entity_id: Uuid) -> (r: Option<usize>)
    ensures
        match r {
            Some(i) => first_pos(v@, (level_id, entity_id)) == Some(i as int) && i < v@.len(),
            None => first_pos(v@, (level_id, entity_id)) is None,
        },
{
    let x = (level_id, entity_id);
    let mut i: usize = 0;
    while i < v.len()
        invariant
            x == (level_id, entity_id),
            i <= v@.len(),
            forall|j: int| 0 <= j < i ==> v@[j] != x,
        decreases v@.len() - i,
    {
        let p = v[i];
        let (pl, pe) = p;
        assert(p == (pl, pe));
        if pl.value == level_id.value && pe.value == entity_id.value {
            proof {
                let s = v@;
                assert(s[i as int] == p);
                assert(p == x);
                assert(s[i as int] == x);
                let w = choose|w: int| 0 <= w < s.len() && s[w] == x && forall|j: int| 0 <= j < w ==> s[j] != x;
                assert(0 <= w < s.len() && s[w] == x);
                if w > i {
                    assert(s[i as int] == x);
                }
            }
            return Some(i);
        }
        assert(p != x);
        i = i + 1;
    }
    None
}

/// The selection after Ctrl+clicking a data instance in the tree view: in a
/// multi-selection the instance is taken out (leaving a single selection, or
/// nothing, when one or no instance remains) or added at the end; a selected
/// single instance is deselected, or joined by the clicked one; any other
/// selection gives way to the clicked instance.
pub fn toggle_data_instance_selection(selection: &Selection, inst_id: Uuid) -> (r: Selection)
    ensures
        match *selection {
            Selection::MultipleDataInstances(ids) => match first_pos(ids@, inst_id) {
                Some(i) => {
                    let rest = ids@.remove(i);
                    if rest.len() == 1 {
                        r == Selection::DataInstance(rest[0])
                    } else if rest.len() == 0 {
                        r is Nothing
                    } else {
                        r matches Selection::MultipleDataInstances(v) && v@ == rest
                    }
                },
                None => r matches Selection::MultipleDataInstances(v) && v@ == ids@.push(inst_id),
            },
            Selection::DataInstance(existing) => if existing == inst_id {
                r is Nothing
            } else {
                r matches Selection::MultipleDataInstances(v) && v@ == seq![existing, inst_id]
            },
            _ => r == Selection::DataInstance(inst_id),
        },
{
    match selection {
        Selection::MultipleDataInstances(ids) => {
            let mut ids = copy_ids(ids);
            match find_first(&ids, inst_id) {
                Some(pos) => {
                    ids.remove(pos);
                    if ids.len() == 1 {
                        Selection::DataInstance(ids[0])
                    } else if ids.len() == 0 {
                        Selection::Nothing
                    } else {
                        Selection::MultipleDataInstances(ids)
                    }
                },
                None => {
                    ids.push(inst_id);
                    Selection::MultipleDataInstances(ids)
                },
            }
        },
        Selection::DataInstance(existing) => {
            if *existing == inst_id {
                Selection::Nothing
            } else {
                let mut v: Vec<Uuid> = Vec::new();
                v.push(*existing);
                v.push(inst_id);
                assert(v@ =~= seq![*existing, inst_id]);
                Selection::MultipleDataInstances(v)
            }
        },
        _ => Selection::DataInstance(inst_id),
    }
}

/// The selection after Ctrl+clicking a level entity in the tree view, in the
/// same way as `toggle_data_instance_selection` with (level, entity) pairs.
pub fn toggle_entity_selection(selection: &Selection, level_id: Uuid, entity_id: Uuid) -> (r: Selection)
    ensures
        match *selection {
            Selection::MultipleEntities(items) => match first_pos(items@, (level_id, entity_id)) {
                Some(i) => {
                    let rest = items@.remove(i);
                    if rest.len() == 1 {
                        r == Selection::Entity(rest[0].0, rest[0].1)
                    } else if rest.len() == 0 {
                        r is Nothing
                    } else {
                        r matches Selection::MultipleEntities(v) && v@ == rest
                    }
                },
                None => r matches Selection::MultipleEntities(v) && v@ == items@.push((level_id, entity_id)),
            },
            Selection::Entity(l, e) => if l == level_id && e == entity_id {
                r is Nothing
            } else {
                r matches Selection::MultipleEntities(v) && v@ == seq![(l, e), (level_id, entity_id)]
            },
            _ => r == Selection::Entity(level_id, entity_id),
        },
{
    match selection {
        Selection::MultipleEntities(items) => {
            let mut items = copy_pairs(items);
            match find_pair(&items, level_id, entity_id) {
                Some(pos) => {
                    items.remove(pos);
                    if items.len() == 1 {
                        Selection::Entity(items[0].0, items[0].1)
                    } else if items.len() == 0 {
                        Selection::Nothing
                    } else {
                        Selection::MultipleEntities(items)
                    }
                },
                None => {
                    items.push((level_id, entity_id));
                    Selection::MultipleEntities(items)
                },
            }
        },
        Selection::Entity(l, e) => {
            if *l == level_id && *e == entity_id {
                Selection::Nothing
            } else {
                let mut v: Vec<(Uuid, Uuid)> = Vec::new();
                v.push((*l, *e));
                v.push((level_id, entity_id));
                assert(v@ =~= seq![(*l, *e), (level_id, entity_id)]);
                Selection::MultipleEntities(v)
            }
        },
        _ => Selection::Entity(level_id, entity_id),
    }
}

/// `ids` without the occurrences of `id`, in order.
pub open spec fn without_id(ids: Seq<Uuid>, id: Uuid) -> Seq<Uuid>
    decreases ids.len(),
{
    if ids.len() == 0 {
        Seq::empty()
    } else if ids.last() == id {
        without_id(ids.drop_last(), id)
    } else {
        without_id(ids.drop_last(), id).push(ids.last())
    }
}

/// Whether `after` is layer `before` with entity `id` taken out of it when
/// it is an object layer, and `before` itself otherwise.
pub open spec fn layer_without_entity(before: Layer, after: Layer, id: Uuid) -> bool {
    match before.data {
        LayerData::Objects { entities } => after.name == before.name && after.visible == before.visible
            && (after.data matches LayerData::Objects { entities: e } && e@ == without_id(entities@, id)),
        LayerData::Tiles { .. } => after == before,
    }
}

/// The ids of `v` other than `id`, in order.
fn ids_without(v: &Vec<Uuid>, id: Uuid) -> (r: Vec<Uuid>)
    ensures
        r@ == without_id(v@, id),
{
    let mut out: Vec<Uuid> = Vec::new();
    let mut i: usize = 0;
    while i < v.len()
        invariant
            i <= v@.len(),
            out@ == without_id(v@.take(i as int), id),
        decreases v@.len() - i,
    {
        proof {
            assert(v@.take(i + 1).drop_last() =~= v@.take(i as int));
        }
        if v[i] != id {
            out.push(v[i]);
        }
        i = i + 1;
    }
    assert(v@.take(i as int) =~= v@);
    out
}

/// Delete an entity from a level: the first entity with the id leaves the
/// entity list, and every object layer forgets the id.
pub fn delete_entity_everywhere(level: &mut Level, entity_id: Uuid)
    ensures
        final(level).entities@ == match first_entity_index(old(level).entities@, entity_id) {
            Some(i) => old(level).entities@.remove(i),
            None => old(level).entities@,
        },
        final(level).layers@.len() == old(level).layers@.len(),
        forall|k: int|
            0 <= k < old(level).layers@.len() ==> layer_without_entity(
                #[trigger] old(level).layers@[k],
                final(level).layers@[k],
                entity_id,
            ),
        *final(level) == (Level { entities: final(level).entities, layers: final(level).layers, ..*old(level) }),
{
    level.remove_entity(entity_id);
    let mut old_layers: Vec<Layer> = Vec::new();
    std::mem::swap(&mut level.layers, &mut old_layers);
    let ghost orig = old_layers@;
    let n0 = old_layers.len();
    let mut layers: Vec<Layer> = Vec::new();
    let mut k: usize = 0;
    while old_layers.len() > 0
        invariant
            orig.len() == n0,
            k + old_layers@.len() == orig.len(),
            old_layers@ == orig.subrange(k as int, orig.len() as int),
            layers@.len() == k,
            forall|j: int| 0 <= j < k ==> layer_without_entity(#[trigger] orig[j], layers@[j], entity_id),
        decreases old_layers@.len(),
    {
        let layer = old_layers.remove(0);
        assert(layer == orig[k as int]);
        let Layer { name, visible, data } = layer;
        let data = match data {
            LayerData::Objects { entities } => LayerData::Objects { entities: ids_without(&entities, entity_id) },
            other => other,
        };
        layers.push(Layer { name, visible, data });
        k = k + 1;
        assert(old_layers@ =~= orig.subrange(k as int, orig.len() as int));
    }
    level.layers = layers;
}

/// The first object layer listing entity `id`, if any.
pub open spec fn first_layer_listing(layers: Seq<Layer>, id: Uuid) -> Option<int> {
    if exists|k: int| 0 <= k < layers.len() && lists_entity(layers[k], id) {
        Some(
            choose|k: int|
                0 <= k < layers.len() && lists_entity(layers[k], id) && forall|j: int|
                    0 <= j < k ==> !lists_entity(layers[j], id),
        )
    } else {
        None
    }
}

/// Whether `layer` is an object layer listing entity `id`.
pub open spec fn lists_entity(layer: Layer, id: Uuid) -> bool {
    layer.data matches LayerData::Objects { entities } && entities@.contains(id)
}

/// Whether an entity id is in a list.
fn contains_id(v: &Vec<Uuid>, id: Uuid) -> (r: bool)
    ensures
        r == v@.contains(id),
{
    match find_first(v, id) {
        Some(i) => true,
        None => false,
    }
}

/// The position of the first object layer listing `id`.
fn find_layer_listing(layers: &Vec<Layer>, id: Uuid) -> (r: Option<usize>)
    ensures
        match r {
            Some(k) => first_layer_listing(layers@, id) == Some(k as int) && k < layers@.len()
                && lists_entity(layers@[k as int], id),
            None => first_layer_listing(layers@, id) is None,
        },
{
    let mut k: usize = 0;
    while k < layers.len()
        invariant
            k <= layers@.len(),
            forall|j: int| 0 <= j < k ==> !lists_entity(#[trigger] layers@[j], id),
        decreases layers@.len() - k,
    {
        let hit = match &layers[k].data {
            LayerData::Objects { entities } => contains_id(entities, id),
            LayerData::Tiles { .. } => false,
        };
        if hit {
            proof {
                let s = layers@;
                let w = choose|w: int|
                    0 <= w < s.len() && lists_entity(s[w], id) && forall|j: int| 0 <= j < w ==> !lists_entity(s[j], id);
                assert(0 <= w < s.len() && lists_entity(s[w], id));
                if w > k {
                    assert(lists_entity(s[k as int], id));
                }
            }
            return Some(k);
        }
        k = k + 1;
    }
    None
}

/// Add `new_id` at the end of object layer `k`.
fn add_to_object_layer(layers: &mut Vec<Layer>, k: usize, new_id: Uuid)
    requires
        k < old(layers)@.len(),
        old(layers)@[k as int].data is Objects,
    ensures
        final(layers)@.len() == old(layers)@.len(),
        forall|j: int| 0 <= j < old(layers)@.len() && j != k ==> #[trigger] final(layers)@[j] == old(layers)@[j],
        final(layers)@[k as int].name == old(layers)@[k as int].name,
        final(layers)@[k as int].visible == old(layers)@[k as int].visible,
        final(layers)@[k as int].data matches LayerData::Objects { entities: e },
        old(layers)@[k as int].data matches LayerData::Objects { entities: o },
        final(layers)@[k as int].data->Objects_entities@ == old(layers)@[k as int].data->Objects_entities@.push(new_id),
{
    let layer = layers.remove(k);
    let Layer { name, visible, data } = layer;
    let data = match data {
        LayerData::Objects { entities } => {
            let mut entities = entities;
            entities.push(new_id);
            LayerData::Objects { entities }
        },
        other => other,
    };
    layers.insert(k, Layer { name, visible, data });
    assert forall|j: int| 0 <= j < old(layers)@.len() && j != k implies #[trigger] layers@[j] == old(layers)@[j] by {
        if j < k {
            assert(layers@[j] == old(layers)@[j]);
        } else {
            assert(layers@[j] == old(layers)@[j]);
        }
    }
}

/// Duplicate an entity of a level: a copy of the first entity with the id
/// (type, position and properties), under a fresh id, joins the end of the
/// entity list and of the first object layer listing the original. Returns
/// the copy's id, or `None` (the level unchanged) when no entity has the id.
/// The copy stands where the original stands: shifting it, which is
/// floating-point arithmetic on the position, is left to the caller.
pub fn duplicate_entity(level: &mut Level, entity_id: Uuid) -> (r: Option<Uuid>)
    ensures
        r is Some <==> first_entity_index(old(level).entities@, entity_id) is Some,
        r is None ==> *final(level) == *old(level),
        r matches Some(new_id) ==> {
            let i = first_entity_index(old(level).entities@, entity_id)->0;
            &&& crate::ids::is_random_v4(new_id.value)
            &&& final(level).entities@.len() == old(level).entities@.len() + 1
            &&& final(level).entities@.drop_last() == old(level).entities@
            &&& final(level).entities@.last().id == new_id
            &&& crate::level::same_entity_data(old(level).entities@[i], final(level).entities@.last())
            &&& final(level).layers@.len() == old(level).layers@.len()
            &&& match first_layer_listing(old(level).layers@, entity_id) {
                Some(k) => {
                    &&& forall|j: int| 0 <= j < old(level).layers@.len() && j != k ==> #[trigger] final(level).layers@[j]
                        == old(level).layers@[j]
                    &&& final(level).layers@[k].name == old(level).layers@[k].name
                    &&& final(level).layers@[k].visible == old(level).layers@[k].visible
                    &&& final(level).layers@[k].data matches LayerData::Objects { entities: e }
                    &&& old(level).layers@[k].data matches LayerData::Objects { entities: o }
                    &&& e@ == o@.push(new_id)
                },
                None => final(level).layers@ == old(level).layers@,
            }
            &&& *final(level) == (Level { entities: final(level).entities, layers: final(level).layers, ..*old(level) })
        },
{
    let pos = match level.find_entity(entity_id) {
        Some(p) => p,
        None => {
            return None;
        },
    };
    let new_id = Uuid::new_v4();
    let copy = level.entities[pos].copy_with_id(new_id);
    level.entities.push(copy);
    match find_layer_listing(&level.layers, entity_id) {
        Some(k) => add_to_object_layer(&mut level.layers, k, new_id),
        None => {},
    }
    assert(level.entities@.drop_last() =~= old(level).entities@);
    Some(new_id)
}

/// The layer selection after deleting layer `index`: a selection past the
/// new end moves to the last layer (or to none when no layer is left).
pub open spec fn selection_after_delete(selected: Option<usize>, new_len: nat) -> Option<usize> {
    match selected {
        Some(s) => if s >= new_len {
            if new_len == 0 { None } else { Some((new_len - 1) as usize) }
        } else {
            selected
        },
        None => None,
    }
}

/// Delete layer `index` of a level when it exists, and return the layer
/// selection adjusted to the remaining layers; otherwise nothing changes.
pub fn delete_layer(level: &mut Level, index: usize, selected: Option<usize>) -> (r: Option<usize>)
    ensures
        index < old(level).layers@.len() ==> final(level).layers@ == old(level).layers@.remove(index as int)
            && r == selection_after_delete(selected, (old(level).layers@.len() - 1) as nat),
        index >= old(level).layers@.len() ==> final(level).layers@ == old(level).layers@ && r == selected,
        *final(level) == (Level { layers: final(level).layers, ..*old(level) }),
{
    if index < level.layers.len() {
        level.layers.remove(index);
        let n = level.layers.len();
        match selected {
            Some(s) => if s >= n {
                if n == 0 { None } else { Some(n - 1) }
            } else {
                selected
            },
            None => None,
        }
    } else {
        selected
    }
}

/// Move layer `index` up (toward index 0) when it can move, and return the
/// layer selection following the two layers that swapped places.
pub fn move_layer_up_selecting(level: &mut Level, index: usize, selected: Option<usize>) -> (r: Option<usize>)
    ensures
        (0 < index < old(level).layers@.len()) ==> final(level).layers@ == swap_adjacent(
            old(level).layers@,
            index - 1,
        ) && r == if selected == Some(index) {
            Some((index - 1) as usize)
        } else if selected == Some((index - 1) as usize) {
            Some(index)
        } else {
            selected
        },
        !(0 < index < old(level).layers@.len()) ==> final(level).layers@ == old(level).layers@ && r
            == selected,
        *final(level) == (Level { layers: final(level).layers, ..*old(level) }),
{
    if level.move_layer_up(index) {
        if selected == Some(index) {
            Some(index - 1)
        } else if selected == Some(index - 1) {
            Some(index)
        } else {
            selected
        }
    } else {
        selected
    }
}

/// Move layer `index` down (toward the end) when it can move, and return the
/// layer selection following the two layers that swapped places.
pub fn move_layer_down_selecting(level: &mut Level, index: usize, selected: Option<usize>) -> (r: Option<usize>)
    ensures
        index + 1 < old(level).layers@.len() ==> final(level).layers@ == swap_adjacent(
            old(level).layers@,
            index as int,
        ) && r == if selected == Some(index) {
            Some((index + 1) as usize)
        } else if selected == Some((index + 1) as usize) {
            Some(index)
        } else {
            selected
        },
        !(index + 1 < old(level).layers@.len()) ==> final(level).layers@ == old(level).layers@ && r
            == selected,
        *final(level) == (Level { layers: final(level).layers, ..*old(level) }),
{
    let n = level.layers.len();
    if level.move_layer_down(index) {
        assert(index + 1 < n);
        if selected == Some(index) {
            Some(index + 1)
        } else if selected == Some(index + 1) {
            Some(index)
        } else {
            selected
        }
    } else {
        selected
    }
}

/// Duplicate layer `index` of a level: a copy named "<name> (Copy)" is
/// inserted right after it and becomes the selected layer; `None` (nothing
/// changed) when the layer does not exist.
pub fn duplicate_layer(level: &mut Level, index: usize) -> (r: Option<usize>)
    ensures
        index < old(level).layers@.len() <==> r is Some,
        r is None ==> *final(level) == *old(level),
        r matches Some(n) ==> {
            let orig = old(level).layers@[index as int];
            &&& n == index + 1
            &&& final(level).layers@.len() == old(level).layers@.len() + 1
            &&& final(level).layers@.remove(n as int) == old(level).layers@
            &&& final(level).layers@[n as int].name@ == copy_name(orig.name@)
            &&& final(level).layers@[n as int].visible == orig.visible
            &&& same_layer(
                orig,
                Layer { name: orig.name, ..final(level).layers@[n as int] },
            )
            &&& *final(level) == (Level { layers: final(level).layers, ..*old(level) })
        },
{
    if index >= level.layers.len() {
        return None;
    }
    let mut copy = level.layers[index].duplicate();
    push_copy_suffix(&mut copy.name);
    level.layers.insert(index + 1, copy);
    assert(level.layers@.remove(index + 1) =~= old(level).layers@);
    Some(index + 1)
}

/// "<prefix> <n>" with `n` in decimal.
fn numbered_name(prefix: &str, n: usize) -> (r: String)
    ensures
        r@ == prefix@ + " "@ + decimal_digits(n as nat),
{
    let mut r = prefix.to_string();
    r.append(" ");
    push_decimal(&mut r, n as u64);
    proof {
        reveal_strlit(" ");
    }
    r
}

/// Add a tile layer named "Tile Layer <n>" (n the new layer count) using the
/// project's first tileset, and return its index for selection; without a
/// tileset nothing changes and the error message is returned.
pub fn add_tile_layer(level: &mut Level, first_tileset: Option<Uuid>) -> (r: Result<usize, String>)
    requires
        old(level).width * old(level).height <= u32::MAX,
        old(level).layers@.len() < usize::MAX,
    ensures
        first_tileset is None ==> *final(level) == *old(level) && (r matches Err(m) && m@
            == "Cannot create tile layer: No tilesets available. Create a tileset first."@),
        first_tileset matches Some(t) ==> {
            &&& r == Ok::<usize, String>(old(level).layers@.len() as usize)
            &&& final(level).layers@.len() == old(level).layers@.len() + 1
            &&& final(level).layers@.drop_last() == old(level).layers@
            &&& final(level).layers@.last().name@ == "Tile Layer "@ + decimal_digits(
                (old(level).layers@.len() + 1) as nat,
            )
            &&& final(level).layers@.last().visible
            &&& final(level).layers@.last().data matches LayerData::Tiles { tileset_id, tiles, occupied_cells }
            &&& tileset_id == t
            &&& tiles@ == empty_cells((old(level).width * old(level).height) as nat)
            &&& occupied_cells@.is_empty()
            &&& *final(level) == (Level { layers: final(level).layers, ..*old(level) })
        },
{
    match first_tileset {
        None => {
            proof {
                reveal_strlit("Cannot create tile layer: No tilesets available. Create a tileset first.");
            }
            Err(String::from_str("Cannot create tile layer: No tilesets available. Create a tileset first."))
        },
        Some(t) => {
            proof {
                reveal_strlit("Tile Layer");
                reveal_strlit(" ");
                reveal_strlit("Tile Layer ");
            }
            let name = numbered_name("Tile Layer", level.layers.len() + 1);
            assert(name@ =~= "Tile Layer "@ + decimal_digits((old(level).layers@.len() + 1) as nat));
            let layer = Layer::new_tile_layer(name, t, level.width, level.height);
            level.layers.push(layer);
            assert(level.layers@.drop_last() =~= old(level).layers@);
            Ok(level.layers.len() - 1)
        },
    }
}

/// Add an empty object layer named "Object Layer <n>" (n the new layer count)
/// and return its index for selection.
pub fn add_object_layer(level: &mut Level) -> (r: usize)
    requires
        old(level).layers@.len() < usize::MAX,
    ensures
        r == old(level).layers@.len(),
        final(level).layers@.len() == old(level).layers@.len() + 1,
        final(level).layers@.drop_last() == old(level).layers@,
        final(level).layers@.last().name@ == "Object Layer "@ + decimal_digits(
            (old(level).layers@.len() + 1) as nat,
        ),
        final(level).layers@.last().visible,
        final(level).layers@.last().data matches LayerData::Objects { entities } && entities@.len() == 0,
        *final(level) == (Level { layers: final(level).layers, ..*old(level) }),
{
    proof {
        reveal_strlit("Object Layer");
        reveal_strlit(" ");
        reveal_strlit("Object Layer ");
    }
    let name = numbered_name("Object Layer", level.layers.len() + 1);
    assert(name@ =~= "Object Layer "@ + decimal_digits((old(level).layers@.len() + 1) as nat));
    level.layers.push(Layer::new_object_layer(name));
    assert(level.layers@.drop_last() =~= old(level).layers@);
    level.layers.len() - 1
}

/// Whether `v` is the value a new property of definition `def` starts with:
/// a copy of its declared default, or the empty value of its type.
pub open spec fn default_value_of(def: PropertyDef, v: Value) -> bool {
    match def.default {
        Some(d) => same_value(v, d),
        None => starts_as(def.prop_type, v),
    }
}

/// The last of the first `n` definitions with the given name, if any.
pub open spec fn last_def(defs: Seq<PropertyDef>, n: int, name: Seq<char>) -> Option<int>
    decreases n,
{
    if n <= 0 {
        None
    } else if defs[n - 1].name@ == name {
        Some(n - 1)
    } else {
        last_def(defs, n - 1, name)
    }
}

/// Whether `props` holds one property per name among the first `n`
/// definitions, each with the starting value of the last definition of that
/// name.
pub open spec fn defaults_for(defs: Seq<PropertyDef>, n: int, props: Seq<Property>) -> bool {
    &&& forall|a: int, b: int| 0 <= a < props.len() && 0 <= b < props.len() && a != b ==> #[trigger] props[a].name@
        != #[trigger] props[b].name@
    &&& forall|a: int|
        0 <= a < props.len() ==> (last_def(defs, n, #[trigger] props[a].name@) matches Some(j) && 0 <= j < n
            && default_value_of(defs[j], props[a].value))
    &&& forall|j: int| 0 <= j < n ==> property_index(props, #[trigger] defs[j].name@) is Some
}

proof fn lemma_last_def_other(defs: Seq<PropertyDef>, n: int, name: Seq<char>)
    requires
        0 <= n < defs.len(),
        defs[n].name@ != name,
    ensures
        last_def(defs, n + 1, name) == last_def(defs, n, name),
{
}

proof fn lemma_last_def_bounds(defs: Seq<PropertyDef>, n: int, name: Seq<char>)
    ensures
        last_def(defs, n, name) matches Some(j) ==> 0 <= j < n,
    decreases n,
{
    if n > 0 {
        lemma_last_def_bounds(defs, n - 1, name);
    }
}

proof fn lemma_index_push(props: Seq<Property>, p: Property, name: Seq<char>)
    requires
        property_index(props, name) is Some,
    ensures
        property_index(props.push(p), name) == property_index(props, name),
{
    assert(props.push(p).drop_last() =~= props);
}

/// A new instance of a data type with one property per property definition
/// of the type, each starting with its default value (see `defaults_for`);
/// `None` when the schema has no such type.
pub fn new_data_instance(schema: &Schema, data_type: &str) -> (r: Option<DataInstance>)
    ensures
        r is Some <==> schema_type(*schema, data_type@) is Some,
        r matches Some(inst) ==> {
            let td = schema_type(*schema, data_type@)->0;
            &&& inst.data_type@ == data_type@
            &&& crate::ids::is_random_v4(inst.id.value)
            &&& defaults_for(td.properties@, td.properties@.len() as int, inst.properties@)
            &&& defaults_wf(td.properties@) ==> props_wf(inst.properties@)
        },
{
    let td = match schema.get_type(data_type) {
        Some(t) => t,
        None => {
            return None;
        },
    };
    let mut inst = DataInstance::new(data_type.to_string());
    let ghost defs = td.properties@;
    let mut i: usize = 0;
    while i < td.properties.len()
        invariant
            defs == td.properties@,
            i <= defs.len(),
            inst.data_type@ == data_type@,
            crate::ids::is_random_v4(inst.id.value),
            defaults_for(defs, i as int, inst.properties@),
            defaults_wf(defs) ==> props_wf(inst.properties@),
        decreases defs.len() - i,
    {
        let def = &td.properties[i];
        let v = get_default_value(def);
        assert(defaults_wf(defs) ==> default_wf(defs[i as int]));
        let ghost before = inst.properties@;
        let name = def.name.clone();
        let res = set_property(&mut inst.properties, name, v);
        proof {
            let after = inst.properties@;
            let nm = defs[i as int].name@;
            lemma_property_index_found(before, nm);
            match res {
                Some(a) => {
                    assert forall|x: int| 0 <= x < before.len() implies #[trigger] after[x].name@ == before[x].name@ by {
                        if x != a {
                            assert(after[x] == before[x]);
                        }
                    }
                    assert forall|b: int| 0 <= b < after.len() implies (last_def(defs, i + 1, #[trigger] after[b].name@) matches Some(j) && 0 <= j < i + 1
                        && default_value_of(defs[j], after[b].value)) by {
                        if b == a {
                        } else {
                            assert(after[b] == before[b]);
                            assert(before[b].name@ != before[a as int].name@);
                            lemma_last_def_other(defs, i as int, before[b].name@);
                        }
                    }
                    assert forall|j: int| 0 <= j < i + 1 implies property_index(after, #[trigger] defs[j].name@) is Some by {
                        lemma_property_index_same_names(after, before, defs[j].name@);
                    }
                },
                None => {
                    assert forall|b: int| 0 <= b < after.len() implies (last_def(defs, i + 1, #[trigger] after[b].name@) matches Some(j) && 0 <= j < i + 1
                        && default_value_of(defs[j], after[b].value)) by {
                        if b < before.len() {
                            assert(after[b] == before[b]);
                            assert(before[b].name@ != nm);
                            lemma_last_def_other(defs, i as int, before[b].name@);
                        }
                    }
                    assert forall|x: int, y: int| 0 <= x < after.len() && 0 <= y < after.len() && x != y implies #[trigger] after[x].name@
                        != #[trigger] after[y].name@ by {
                        if x < before.len() && y < before.len() {
                            assert(after[x] == before[x] && after[y] == before[y]);
                        } else if x < before.len() {
                            assert(after[x] == before[x]);
                        } else {
                            assert(after[y] == before[y]);
                        }
                    }
                    assert(after =~= before.push(after.last()));
                    assert forall|j: int| 0 <= j < i + 1 implies property_index(after, #[trigger] defs[j].name@) is Some by {
                        if j < i {
                            lemma_index_push(before, after.last(), defs[j].name@);
                        } else {
                            assert(after.drop_last() =~= before);
                        }
                    }
                },
            }
        }
        i = i + 1;
    }
    Some(inst)
}

/// The last of the first `n` definitions with the given name that declares a
/// default, if any.
pub open spec fn last_default(defs: Seq<PropertyDef>, n: int, name: Seq<char>) -> Option<int>
    decreases n,
{
    if n <= 0 {
        None
    } else if defs[n - 1].name@ == name && defs[n - 1].default is Some {
        Some(n - 1)
    } else {
        last_default(defs, n - 1, name)
    }
}

/// Whether `props` holds one property per name among the first `n`
/// definitions that declare a default, each holding a copy of the default of
/// the last such definition of that name.
pub open spec fn declared_defaults(defs: Seq<PropertyDef>, n: int, props: Seq<Property>) -> bool {
    &&& forall|a: int, b: int| 0 <= a < props.len() && 0 <= b < props.len() && a != b ==> #[trigger] props[a].name@
        != #[trigger] props[b].name@
    &&& forall|a: int|
        0 <= a < props.len() ==> (last_default(defs, n, #[trigger] props[a].name@) matches Some(j) && 0 <= j < n
            && same_value(props[a].value, defs[j].default->0))
    &&& forall|j: int| 0 <= j < n && defs[j].default is Some ==> property_index(props, #[trigger] defs[j].name@) is Some
}

/// The properties a new entity of a type starts with: one per property
/// definition of the type that declares a default (see `declared_defaults`);
/// none when the schema has no such type.
pub open spec fn entity_starting_properties(schema: Schema, entity_type: Seq<char>, props: Seq<Property>) -> bool {
    match schema_type(schema, entity_type) {
        Some(td) => declared_defaults(td.properties@, td.properties@.len() as int, props),
        None => props.len() == 0,
    }
}

/// A new entity of the given type at the given position, with a fresh id
/// and the declared defaults of its type's properties.
pub fn new_entity(schema: &Schema, entity_type: String, position: [u32; 2]) -> (r: EntityInstance)
    ensures
        crate::ids::is_random_v4(r.id.value),
        r.entity_type@ == entity_type@,
        r.position == position,
        entity_starting_properties(*schema, entity_type@, r.properties@),
        (schema_type(*schema, entity_type@) matches Some(td) ==> defaults_wf(td.properties@)) ==> props_wf(
            r.properties@,
        ),
{
    let found = schema.get_type(entity_type.as_str());
    let ghost kind = entity_type@;
    let mut entity = EntityInstance::new(entity_type, position);
    let td = match found {
        Some(t) => t,
        None => {
            return entity;
        },
    };
    let ghost defs = td.properties@;
    let mut i: usize = 0;
    while i < td.properties.len()
        invariant
            defs == td.properties@,
            i <= defs.len(),
            crate::ids::is_random_v4(entity.id.value),
            entity.position == position,
            entity.entity_type@ == kind,
            declared_defaults(defs, i as int, entity.properties@),
            defaults_wf(defs) ==> props_wf(entity.properties@),
        decreases defs.len() - i,
    {
        let def = &td.properties[i];
        assert(defaults_wf(defs) ==> default_wf(defs[i as int]));
        match &def.default {
            None => {
                proof {
                    let props = entity.properties@;
                    assert forall|a: int| 0 <= a < props.len() implies last_default(defs, i + 1, #[trigger] props[a].name@)
                        == last_default(defs, i as int, props[a].name@) by {}
                }
            },
            Some(d) => {
                let v = d.duplicate();
                proof {
                    lemma_same_value_wf(v, *d);
                }
                let ghost before = entity.properties@;
                let name = def.name.clone();
                let res = set_property(&mut entity.properties, name, v);
                proof {
                    let after = entity.properties@;
                    let nm = defs[i as int].name@;
                    lemma_property_index_found(before, nm);
                    match res {
                        Some(a) => {
                            assert forall|x: int| 0 <= x < before.len() implies #[trigger] after[x].name@ == before[x].name@ by {
                                if x != a {
                                    assert(after[x] == before[x]);
                                }
                            }
                            assert forall|b: int| 0 <= b < after.len() implies (last_default(defs, i + 1, #[trigger] after[b].name@) matches Some(j)
                                && 0 <= j < i + 1 && same_value(after[b].value, defs[j].default->0)) by {
                                if b != a {
                                    assert(after[b] == before[b]);
                                    assert(before[b].name@ != before[a as int].name@);
                                }
                            }
                            assert forall|j: int| 0 <= j < i + 1 && defs[j].default is Some implies property_index(after, #[trigger] defs[j].name@) is Some by {
                                lemma_property_index_same_names(after, before, defs[j].name@);
                            }
                        },
                        None => {
                            assert forall|b: int| 0 <= b < after.len() implies (last_default(defs, i + 1, #[trigger] after[b].name@) matches Some(j)
                                && 0 <= j < i + 1 && same_value(after[b].value, defs[j].default->0)) by {
                                if b < before.len() {
                                    assert(after[b] == before[b]);
                                    assert(before[b].name@ != nm);
                                }
                            }
                            assert forall|x: int, y: int| 0 <= x < after.len() && 0 <= y < after.len() && x != y implies #[trigger] after[x].name@
                                != #[trigger] after[y].name@ by {
                                if x < before.len() && y < before.len() {
                                    assert(after[x] == before[x] && after[y] == before[y]);
                                } else if x < before.len() {
                                    assert(after[x] == before[x]);
                                } else {
                                    assert(after[y] == before[y]);
                                }
                            }
                            assert(after =~= before.push(after.last()));
                            assert forall|j: int| 0 <= j < i + 1 && defs[j].default is Some implies property_index(after, #[trigger] defs[j].name@) is Some by {
                                if j < i {
                                    lemma_index_push(before, after.last(), defs[j].name@);
                                } else {
                                    assert(after.drop_last() =~= before);
                                }
                            }
                        },
                    }
                }
            },
        }
        i = i + 1;
    }
    entity
}

/// An item being renamed in the tree view
#[derive(Debug, Clone, PartialEq, Eq)]
pub enum RenamingItem {
    DataInstance(Uuid),
    /// An entity: level id and entity id
    Entity(Uuid, Uuid),
    Level(Uuid),
    /// A layer: level id and layer index
    Layer(Uuid, usize),
    Tileset(Uuid),
    SpriteSheet(Uuid),
    Dialogue(String),
}

/// The position of the first tileset with the given id, if any.
fn find_tileset(tilesets: &Vec<Tileset>, id: Uuid) -> (r: Option<usize>)
    ensures
        match r {
            Some(k) => first_tileset_index(tilesets@, id) == Some(k as int) && k < tilesets@.len(),
            None => first_tileset_index(tilesets@, id) is None,
        },
{
    let mut k: usize = 0;
    while k < tilesets.len()
        invariant
            k <= tilesets@.len(),
            forall|j: int| 0 <= j < k ==> tilesets@[j].id != id,
        decreases tilesets@.len() - k,
    {
        if tilesets[k].id == id {
            proof {
                let s = tilesets@;
                let w = choose|w: int| 0 <= w < s.len() && s[w].id == id && forall|j: int| 0 <= j < w ==> s[j].id != id;
                assert(0 <= w < s.len() && s[w].id == id);
                if w > k {
                    assert(s[k as int].id == id);
                }
            }
            return Some(k);
        }
        k = k + 1;
    }
    None
}

/// The text a data instance shows as its name: its "name" property when that
/// is a string, otherwise empty.
pub open spec fn instance_name(props: Seq<Property>) -> Seq<char> {
    match property_index(props, "name"@) {
        Some(i) => match props[i].value {
            Value::String(s) => s@,
            _ => Seq::empty(),
        },
        None => Seq::empty(),
    }
}

/// The text a rename of `item` starts from, if the item exists: a data
/// instance's or an entity's name property (empty when it holds no text), a
/// level's, a layer's or a tileset's name (the first tileset with the id).
/// Sprite sheets and dialogues are not renamed here.
pub open spec fn rename_start(project: Project, item: RenamingItem) -> Option<Seq<char>> {
    match item {
        RenamingItem::DataInstance(id) => match instance_position(project.data.instances@, id) {
            Some((g, k)) => Some(instance_name(project.data.instances@[g].1@[k].properties@)),
            None => None,
        },
        RenamingItem::Entity(lid, eid) => match last_index_of(level_keys(project.levels@), lid.value) {
            Some(i) => match first_entity_index(project.levels@[i].entities@, eid) {
                Some(e) => Some(instance_name(project.levels@[i].entities@[e].properties@)),
                None => None,
            },
            None => None,
        },
        RenamingItem::Level(id) => match last_index_of(level_keys(project.levels@), id.value) {
            Some(i) => Some(project.levels@[i].name@),
            None => None,
        },
        RenamingItem::Layer(id, idx) => match last_index_of(level_keys(project.levels@), id.value) {
            Some(i) => if idx < project.levels@[i].layers@.len() {
                Some(project.levels@[i].layers@[idx as int].name@)
            } else {
                None
            },
            None => None,
        },
        RenamingItem::Tileset(id) => match first_tileset_index(project.tilesets@, id) {
            Some(k) => Some(project.tilesets@[k].name@),
            None => None,
        },
        _ => None,
    }
}

/// Start renaming an item: the text the rename buffer starts with, or `None`
/// when the item does not exist (see `rename_start`).
pub fn begin_rename(project: &Project, item: &RenamingItem) -> (r: Option<String>)
    requires
        project.wf(),
    ensures
        match rename_start(*project, *item) {
            Some(t) => r matches Some(s) && s@ == t,
            None => r is None,
        },
{
    proof {
        reveal_strlit("name");
    }
    match item {
        RenamingItem::DataInstance(id) => match project.get_data_instance(*id) {
            Some(inst) => {
                let name = match get_property(&inst.properties, "name") {
                    Some(Value::String(s)) => s.clone(),
                    _ => String::new(),
                };
                Some(name)
            },
            None => None,
        },
        RenamingItem::Level(id) => match project.get_level(*id) {
            Some(level) => Some(level.name.clone()),
            None => None,
        },
        RenamingItem::Layer(id, idx) => match project.get_level(*id) {
            Some(level) => if *idx < level.layers.len() {
                Some(level.layers[*idx].name.clone())
            } else {
                None
            },
            None => None,
        },
        RenamingItem::Tileset(id) => match find_tileset(&project.tilesets, *id) {
            Some(k) => Some(project.tilesets[k].name.clone()),
            None => None,
        },
        RenamingItem::Entity(lid, eid) => match project.get_level(*lid) {
            Some(level) => match level.get_entity(*eid) {
                Some(entity) => {
                    let name = match get_property(&entity.properties, "name") {
                        Some(Value::String(s)) => s.clone(),
                        _ => String::new(),
                    };
                    Some(name)
                },
                None => None,
            },
            None => None,
        },
        _ => None,
    }
}

/// Commit a rename of a data instance: its "name" property becomes the new
/// name (marking the project dirty); nothing changes when no instance has the id.
pub fn rename_data_instance(project: &mut Project, id: Uuid, new_name: String)
    requires
        old(project).wf(),
    ensures
        final(project).wf(),
        match instance_position(old(project).data.instances@, id) {
            Some((g, k)) => {
                let before = old(project).data.instances@[g].1@[k];
                let after = final(project).data.instances@[g].1@[k];
                &&& final(project).data.instances@.len() == old(project).data.instances@.len()
                &&& forall|h: int| 0 <= h < old(project).data.instances@.len() && h != g ==> #[trigger] final(project).data.instances@[h]
                    == old(project).data.instances@[h]
                &&& final(project).data.instances@[g].0 == old(project).data.instances@[g].0
                &&& final(project).data.instances@[g].1@.len() == old(project).data.instances@[g].1@.len()
                &&& forall|m: int| 0 <= m < old(project).data.instances@[g].1@.len() && m != k ==> #[trigger] final(project).data.instances@[g].1@[m]
                    == old(project).data.instances@[g].1@[m]
                &&& after.id == before.id
                &&& after.data_type == before.data_type
                &&& named_props(before.properties@, after.properties@, new_name@)
            },
            None => final(project).data.instances@ == old(project).data.instances@,
        },
        *final(project) == (Project {
            data: final(project).data,
            dirty: old(project).dirty || instance_position(old(project).data.instances@, id) is Some,
            ..*old(project)
        }),
{
    if project.data.rename_instance(id, new_name) {
        project.dirty = true;
    }
}

/// Commit a rename of a level (the last level with the id), marking the
/// project dirty; a missing level leaves the levels as they were.
pub fn rename_level(project: &mut Project, id: Uuid, new_name: String)
    requires
        old(project).wf(),
    ensures
        final(project).wf(),
        *final(project) == (Project { levels: final(project).levels, dirty: true, ..*old(project) }),
        match last_index_of(level_keys(old(project).levels@), id.value) {
            Some(i) => final(project).levels@ == old(project).levels@.update(
                i,
                Level { name: final(project).levels@[i].name, ..old(project).levels@[i] },
            ) && final(project).levels@[i].name@ == new_name@,
            None => final(project).levels@ == old(project).levels@,
        },
{
    match project.level_position(id) {
        Some(i) => {
            let mut level = project.levels.remove(i);
            level.name = new_name;
            assert(level == (Level { name: level.name, ..old(project).levels@[i as int] }));
            project.levels.insert(i, level);
            assert(project.levels@ =~= old(project).levels@.update(i as int, level));
            assert(level_keys(project.levels@) =~= level_keys(old(project).levels@));
        },
        None => {},
    }
    project.dirty = true;
}

/// Commit a rename of an entity of a level (the last level with the id, the
/// first entity with the id): its "name" property becomes the new name. The
/// project is marked dirty; a missing level or entity changes no level.
pub fn rename_entity(project: &mut Project, level_id: Uuid, entity_id: Uuid, new_name: String)
    requires
        old(project).wf(),
    ensures
        final(project).wf(),
        *final(project) == (Project { levels: final(project).levels, dirty: true, ..*old(project) }),
        final(project).levels@.len() == old(project).levels@.len(),
        match last_index_of(level_keys(old(project).levels@), level_id.value) {
            Some(i) => {
                let l0 = old(project).levels@[i];
                let l1 = final(project).levels@[i];
                &&& forall|j: int| 0 <= j < old(project).levels@.len() && j != i ==> #[trigger] final(project).levels@[j]
                    == old(project).levels@[j]
                &&& l1 == (Level { entities: l1.entities, ..l0 })
                &&& match first_entity_index(l0.entities@, entity_id) {
                    Some(e) => {
                        &&& l1.entities@.len() == l0.entities@.len()
                        &&& forall|j: int| 0 <= j < l0.entities@.len() && j != e ==> #[trigger] l1.entities@[j] == l0.entities@[j]
                        &&& l1.entities@[e].id == l0.entities@[e].id
                        &&& l1.entities@[e].entity_type == l0.entities@[e].entity_type
                        &&& l1.entities@[e].position == l0.entities@[e].position
                        &&& named_props(l0.entities@[e].properties@, l1.entities@[e].properties@, new_name@)
                    },
                    None => l1.entities@ == l0.entities@,
                }
            },
            None => final(project).levels@ == old(project).levels@,
        },
{
    match project.level_position(level_id) {
        Some(i) => {
            let mut level = project.levels.remove(i);
            level.rename_entity(entity_id, new_name);
            project.levels.insert(i, level);
            assert(project.levels@ =~= old(project).levels@.update(i as int, level));
            assert(level_keys(project.levels@) =~= level_keys(old(project).levels@));
        },
        None => {},
    }
    project.dirty = true;
}

/// Commit a rename of layer `idx` of a level (the last level with the id),
/// marking the project dirty; a missing level or layer changes no level.
pub fn rename_layer(project: &mut Project, id: Uuid, idx: usize, new_name: String)
    requires
        old(project).wf(),
    ensures
        final(project).wf(),
        *final(project) == (Project { levels: final(project).levels, dirty: true, ..*old(project) }),
        match last_index_of(level_keys(old(project).levels@), id.value) {
            Some(i) => if idx < old(project).levels@[i].layers@.len() {
                let l0 = old(project).levels@[i];
                let l1 = final(project).levels@[i];
                &&& final(project).levels@ == old(project).levels@.update(i, l1)
                &&& l1 == (Level { layers: l1.layers, ..l0 })
                &&& l1.layers@ == l0.layers@.update(idx as int, Layer { name: l1.layers@[idx as int].name, ..l0.layers@[idx as int] })
                &&& l1.layers@[idx as int].name@ == new_name@
            } else {
                final(project).levels@ == old(project).levels@
            },
            None => final(project).levels@ == old(project).levels@,
        },
{
    match project.level_position(id) {
        Some(i) => {
            if idx < project.levels[i].layers.len() {
                let mut level = project.levels.remove(i);
                let ghost before = level.layers@;
                let ghost l0 = level;
                let mut layer = level.layers.remove(idx);
                layer.name = new_name;
                assert(layer == (Layer { name: layer.name, ..before[idx as int] }));
                level.layers.insert(idx, layer);
                assert(level.layers@ =~= before.update(idx as int, layer));
                assert(level == (Level { layers: level.layers, ..l0 }));
                project.levels.insert(i, level);
                assert(project.levels@ =~= old(project).levels@.update(i as int, level));
                assert(level_keys(project.levels@) =~= level_keys(old(project).levels@));
            }
        },
        None => {},
    }
    project.dirty = true;
}

/// Commit a rename of a tileset (the first tileset with the id); nothing
/// changes when no tileset has the id.
pub fn rename_tileset(project: &mut Project, id: Uuid, new_name: String)
    requires
        old(project).wf(),
    ensures
        final(project).wf(),
        *final(project) == (Project { tilesets: final(project).tilesets, ..*old(project) }),
        match first_tileset_index(old(project).tilesets@, id) {
            Some(k) => final(project).tilesets@ == old(project).tilesets@.update(
                k,
                Tileset { name: final(project).tilesets@[k].name, ..old(project).tilesets@[k] },
            ) && final(project).tilesets@[k].name@ == new_name@,
            None => final(project).tilesets@ == old(project).tilesets@,
        },
{
    match find_tileset(&project.tilesets, id) {
        Some(k) => {
            let mut t = project.tilesets.remove(k);
            t.name = new_name;
            project.tilesets.insert(k, t);
            assert(project.tilesets@ =~= old(project).tilesets@.update(k as int, t));
            assert(tileset_keys(project.tilesets@) =~= tileset_keys(old(project).tilesets@));
        },
        None => {},
    }
}

} // verus!

verus! {

/// The level selection after deleting level `deleted`: a deleted selected
/// level gives way to the first remaining level (or to none).
pub open spec fn level_selection_after_delete(selected: Option<Uuid>, deleted: Uuid, levels: Seq<Level>) -> Option<Uuid> {
    if selected == Some(deleted) {
        if levels.len() > 0 { Some(levels[0].id) } else { None }
    } else {
        selected
    }
}

/// Delete a level from the world view (the last level with the id) and
/// return the level selection: when the deleted level was selected, the
/// first remaining level is selected instead.
pub fn delete_level_reselecting(project: &mut Project, level_id: Uuid, selected_level: Option<Uuid>) -> (r: Option<Uuid>)
    requires
        old(project).wf(),
    ensures
        final(project).wf(),
        *final(project) == (Project {
            levels: final(project).levels,
            level_index: final(project).level_index,
            dirty: final(project).dirty,
            ..*old(project)
        }),
        match last_index_of(level_keys(old(project).levels@), level_id.value) {
            Some(i) => final(project).levels@ == old(project).levels@.remove(i) && final(project).dirty,
            None => final(project).levels@ == old(project).levels@ && final(project).dirty == old(project).dirty,
        },
        r == level_selection_after_delete(selected_level, level_id, final(project).levels@),
{
    project.remove_level(level_id);
    if selected_level == Some(level_id) {
        if project.levels.len() > 0 {
            Some(project.levels[0].id)
        } else {
            None
        }
    } else {
        selected_level
    }
}

/// Duplicate a level from the world view: the copy (see
/// `Project::duplicate_level`) is placed 64 pixels right of and below the
/// original. Returns the copy's id, or `None` (nothing changed) when no level
/// has the id.
pub fn duplicate_level_shifted(project: &mut Project, level_id: Uuid) -> (r: Option<Uuid>)
    requires
        old(project).wf(),
        last_index_of(level_keys(old(project).levels@), level_id.value) matches Some(i) ==> old(project).levels@[i].world_x
            <= i32::MAX - 64 && old(project).levels@[i].world_y <= i32::MAX - 64,
    ensures
        final(project).wf(),
        r is Some <==> last_index_of(level_keys(old(project).levels@), level_id.value) is Some,
        r is None ==> final(project).levels == old(project).levels && final(project).dirty == old(project).dirty,
        final(project).tilesets == old(project).tilesets,
        r matches Some(new_id) ==> {
            let i = last_index_of(level_keys(old(project).levels@), level_id.value)->0;
            let orig = old(project).levels@[i];
            let copy = final(project).levels@.last();
            &&& final(project).dirty
            &&& final(project).levels@.len() == old(project).levels@.len() + 1
            &&& final(project).levels@.drop_last() == old(project).levels@
            &&& copy.id == new_id
            &&& crate::ids::is_random_v4(new_id.value)
            &&& copy.world_x == orig.world_x + 64
            &&& copy.world_y == orig.world_y + 64
            &&& crate::level::is_level_copy(
                Level { world_x: orig.world_x, world_y: orig.world_y, ..copy },
                orig,
                crate::value::copy_name(orig.name@),
            )
        },
{
    let new_id = match project.duplicate_level(level_id) {
        Some(id) => id,
        None => {
            return None;
        },
    };
    let ghost mid = project.levels@;
    match project.levels.pop() {
        Some(mut level) => {
            let ghost before = level;
            level.world_x = level.world_x + 64;
            level.world_y = level.world_y + 64;
            assert(Level { world_x: before.world_x, world_y: before.world_y, ..level } == before);
            project.levels.push(level);
            proof {
                assert(project.levels@ =~= mid.update(mid.len() - 1, level));
                assert(level_keys(project.levels@) =~= level_keys(mid));
            }
        },
        None => {},
    }
    Some(new_id)
}

/// The tilesets other than those with the given id, in order.
pub open spec fn tilesets_without(tilesets: Seq<Tileset>, id: Uuid) -> Seq<Tileset>
    decreases tilesets.len(),
{
    if tilesets.len() == 0 {
        tilesets
    } else {
        let rest = tilesets_without(tilesets.drop_last(), id);
        if tilesets.last().id == id {
            rest
        } else {
            rest.push(tilesets.last())
        }
    }
}

/// Delete every tileset with the given id; the lookup indices are rebuilt.
/// Returns the inspector selection and the selected tileset, each cleared
/// when it was the deleted tileset.
pub fn delete_tileset(
    project: &mut Project,
    tileset_id: Uuid,
    selection: Selection,
    selected_tileset: Option<Uuid>,
) -> (r: (Selection, Option<Uuid>))
    requires
        old(project).wf(),
    ensures
        final(project).wf(),
        *final(project) == (Project {
            tilesets: final(project).tilesets,
            tileset_index: final(project).tileset_index,
            level_index: final(project).level_index,
            ..*old(project)
        }),
        final(project).tilesets@ == tilesets_without(old(project).tilesets@, tileset_id),
        r.0 == if selection == Selection::Tileset(tileset_id) { Selection::Nothing } else { selection },
        r.1 == if selected_tileset == Some(tileset_id) { None } else { selected_tileset },
{
    let mut all: Vec<Tileset> = Vec::new();
    core::mem::swap(&mut all, &mut project.tilesets);
    let ghost src = all@;
    let n = all.len();
    let mut i: usize = 0;
    while all.len() > 0
        invariant
            n == src.len(),
            i <= n,
            all@ == src.subrange(i as int, n as int),
            project.tilesets@ == tilesets_without(src.take(i as int), tileset_id),
            *project == (Project { tilesets: project.tilesets, ..*old(project) }),
        decreases all@.len(),
    {
        let t = all.remove(0);
        proof {
            assert(t == src[i as int]);
            assert(src.take(i + 1).drop_last() =~= src.take(i as int));
        }
        if t.id != tileset_id {
            project.tilesets.push(t);
        }
        i = i + 1;
        assert(all@ =~= src.subrange(i as int, n as int));
    }
    assert(src.take(i as int) =~= src);
    project.rebuild_indices();
    let clears = match &selection {
        Selection::Tileset(t) => *t == tileset_id,
        _ => false,
    };
    let sel = if clears {
        Selection::Nothing
    } else {
        selection
    };
    let chosen = if selected_tileset == Some(tileset_id) {
        None
    } else {
        selected_tileset
    };
    (sel, chosen)
}

} // verus!

verus! {

/// Renaming and reading back: once a rename has set the "name" property of
/// a property list, the text a new rename starts from is the new name.
pub proof fn law_renamed_name_read_back(before: Seq<Property>, after: Seq<Property>, name: Seq<char>)
    requires
        named_props(before, after, name),
    ensures
        instance_name(after) == name,
{
    match property_index(before, "name"@) {
        Some(a) => {
            lemma_property_index_found(before, "name"@);
            assert forall|i: int| 0 <= i < after.len() implies #[trigger] after[i].name@ == before[i].name@ by {
                if i != a {
                    assert(after[i] == before[i]);
                }
            }
            lemma_property_index_same_names(after, before, "name"@);
        },
        None => {
            assert(after.drop_last() == before);
        },
    }
}

} // verus!
