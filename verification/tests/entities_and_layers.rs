use bevy_map::asset_browser::{AssetBrowserState, FileEntry};
use bevy_map::data_store::DataInstance;
use bevy_map::editor_project::Project;
use bevy_map::ids::Uuid;
use bevy_map::layer::{Layer, LayerData};
use bevy_map::level::{EntityInstance, Level};
use bevy_map::paint::{paint_tile, PaintStrokeTracker};
use bevy_map::schema::{PropType, PropertyDef, Schema, TypeDef};
use bevy_map::tileset::Tileset;
use bevy_map::tools::{get_layer_tileset_id, place_new_entity};
use bevy_map::inspector::Selection;
use bevy_map::ui_actions::{
    begin_rename, delete_level_reselecting, delete_tileset, duplicate_entity, duplicate_level_shifted,
    new_entity, rename_entity, RenamingItem,
};
use bevy_map::value::{Property, Value};

fn id(n: u128) -> Uuid {
    Uuid::from_u128(n)
}

fn def(name: &str, t: PropType, default: Option<Value>) -> PropertyDef {
    PropertyDef {
        name: name.to_string(),
        prop_type: t,
        required: false,
        default,
        min: None,
        max: None,
        show_if: None,
        enum_type: None,
        ref_type: None,
        item_type: None,
        embedded_type: None,
    }
}

fn npc_schema() -> Schema {
    let mut schema = Schema::default();
    let mut td = TypeDef::default();
    td.properties.push(def("hp", PropType::Int, Some(Value::Int(10))));
    td.properties.push(def("name", PropType::String, None));
    td.properties.push(def("hp", PropType::Int, Some(Value::Int(25))));
    td.properties.push(def("speed", PropType::Float, Some(Value::Float(2.5f64.to_bits()))));
    schema.data_types.push(("Npc".to_string(), td));
    schema
}

fn text_of(props: &[Property], name: &str) -> Option<String> {
    props.iter().find(|p| p.name == name).and_then(|p| match &p.value {
        Value::String(s) => Some(s.clone()),
        _ => None,
    })
}

fn names_are_unique(props: &[Property]) -> bool {
    props.iter().enumerate().all(|(i, p)| props.iter().skip(i + 1).all(|q| q.name != p.name))
}

fn tile_level(width: u32, height: u32, tileset: Uuid) -> Level {
    let mut level = Level::new("Test".to_string(), width, height);
    level.add_layer(Layer::new_tile_layer("Ground".to_string(), tileset, width, height));
    level
}

fn cells(level: &Level) -> Vec<Option<u32>> {
    match &level.layers[0].data {
        LayerData::Tiles { tiles, .. } => tiles.clone(),
        LayerData::Objects { .. } => panic!("expected a tile layer"),
    }
}

fn project_tileset(n: u128) -> Tileset {
    let mut t = Tileset::new("Tiles".to_string(), "tiles.png".to_string(), 16, 4, 4);
    t.id = id(n);
    t
}

#[test]
fn new_entity_takes_declared_defaults() {
    let schema = npc_schema();
    let pos = [32.0f32.to_bits(), 48.0f32.to_bits()];
    let e = new_entity(&schema, "Npc".to_string(), pos);
    assert_eq!(e.entity_type, "Npc");
    assert_eq!(e.position, pos);
    assert_eq!(e.properties.len(), 2);
    assert_eq!(e.properties[0].name, "hp");
    assert!(matches!(e.properties[0].value, Value::Int(25)));
    assert_eq!(e.properties[1].name, "speed");
    assert!(matches!(e.properties[1].value, Value::Float(b) if b == 2.5f64.to_bits()));
    assert!(names_are_unique(&e.properties));
    let unknown = new_entity(&schema, "Ghost".to_string(), pos);
    assert!(unknown.properties.is_empty());
}

#[test]
fn placing_an_entity_needs_an_object_layer() {
    let mut project = Project::new(npc_schema());
    let mut level = Level::new("L".to_string(), 4, 4);
    level.add_layer(Layer::new_tile_layer("T".to_string(), id(1), 4, 4));
    level.add_layer(Layer::new_object_layer("O".to_string()));
    let lid = level.id;
    project.add_level(level);
    project.dirty = false;
    let pos = [8.0f32.to_bits(), 8.0f32.to_bits()];
    assert_eq!(place_new_entity(&mut project, lid, 0, "Npc".to_string(), pos), None);
    assert_eq!(place_new_entity(&mut project, lid, 9, "Npc".to_string(), pos), None);
    assert_eq!(place_new_entity(&mut project, id(99), 1, "Npc".to_string(), pos), None);
    assert!(!project.dirty);
    let new_id = place_new_entity(&mut project, lid, 1, "Npc".to_string(), pos).expect("an object layer");
    assert!(project.dirty);
    let level = project.get_level(lid).unwrap();
    assert_eq!(level.entities.len(), 1);
    assert_eq!(level.entities[0].id, new_id);
    assert_eq!(level.entities[0].position, pos);
    assert_eq!(level.entities[0].properties.len(), 2);
    match &level.layers[1].data {
        LayerData::Objects { entities } => assert_eq!(entities, &vec![new_id]),
        LayerData::Tiles { .. } => panic!("expected an object layer"),
    }
}

#[test]
fn duplicated_entity_copies_its_properties() {
    let mut level = Level::new("L".to_string(), 4, 4);
    let mut e = EntityInstance::new("Npc".to_string(), [16.0f32.to_bits(), 24.0f32.to_bits()]);
    e.properties.push(Property { name: "name".to_string(), value: Value::String("Bob".to_string()) });
    e.properties.push(Property { name: "hp".to_string(), value: Value::Int(7) });
    let eid = e.id;
    level.add_entity(e);
    let copy_id = duplicate_entity(&mut level, eid).expect("the entity exists");
    assert_ne!(copy_id, eid);
    let copy = &level.entities[1];
    assert_eq!(copy.id, copy_id);
    assert_eq!(copy.position, [16.0f32.to_bits(), 24.0f32.to_bits()]);
    assert_eq!(text_of(&copy.properties, "name"), Some("Bob".to_string()));
    assert!(matches!(copy.properties[1].value, Value::Int(7)));
}

#[test]
fn renaming_an_entity() {
    let mut project = Project::new(Schema::default());
    let mut level = Level::new("L".to_string(), 2, 2);
    let mut named = EntityInstance::new("Npc".to_string(), [0, 0]);
    named.properties.push(Property { name: "name".to_string(), value: Value::String("Guard".to_string()) });
    let unnamed = EntityInstance::new("Door".to_string(), [0, 0]);
    let (nid, uid) = (named.id, unnamed.id);
    level.add_entity(named);
    level.add_entity(unnamed);
    let lid = level.id;
    project.add_level(level);

    assert_eq!(begin_rename(&project, &RenamingItem::Entity(lid, nid)), Some("Guard".to_string()));
    assert_eq!(begin_rename(&project, &RenamingItem::Entity(lid, uid)), Some(String::new()));
    assert_eq!(begin_rename(&project, &RenamingItem::Entity(lid, id(5))), None);
    assert_eq!(begin_rename(&project, &RenamingItem::Entity(id(6), nid)), None);

    project.dirty = false;
    rename_entity(&mut project, lid, nid, "Captain".to_string());
    rename_entity(&mut project, lid, uid, "Gate".to_string());
    rename_entity(&mut project, lid, uid, "Big Gate".to_string());
    assert!(project.dirty);
    assert_eq!(begin_rename(&project, &RenamingItem::Entity(lid, nid)), Some("Captain".to_string()));
    assert_eq!(begin_rename(&project, &RenamingItem::Entity(lid, uid)), Some("Big Gate".to_string()));
    let level = project.get_level(lid).unwrap();
    assert_eq!(level.entities[0].properties.len(), 1);
    assert_eq!(level.entities[1].properties.len(), 1);
    assert!(names_are_unique(&level.entities[1].properties));
}

#[test]
fn data_instance_names_stay_unique() {
    let mut project = Project::new(Schema::default());
    let inst = DataInstance::new("Item".to_string());
    let iid = inst.id;
    project.add_data_instance(inst);
    bevy_map::ui_actions::rename_data_instance(&mut project, iid, "Sword".to_string());
    bevy_map::ui_actions::rename_data_instance(&mut project, iid, "Axe".to_string());
    let copy = project.duplicate_data_instance(iid).unwrap();
    let orig = project.get_data_instance(iid).unwrap();
    assert_eq!(orig.properties.len(), 1);
    assert_eq!(text_of(&orig.properties, "name"), Some("Axe".to_string()));
    let dup = project.get_data_instance(copy).unwrap();
    assert!(names_are_unique(&dup.properties));
    assert_eq!(text_of(&dup.properties, "name"), Some("Axe (Copy)".to_string()));
}

#[test]
fn refused_multi_cell_paint_still_takes_the_selected_tileset() {
    let a = id(10);
    let b = id(11);
    let tilesets = vec![project_tileset(10), project_tileset(11)];
    let mut level = tile_level(3, 3, a);
    let mut stroke = PaintStrokeTracker::new();
    let mut last = None;
    let r = paint_tile(&mut level, id(1), 0, 2, 2, 4, false, false, b, &tilesets, (2, 2), &mut stroke, &mut last);
    assert_eq!(r, None);
    assert_eq!(get_layer_tileset_id(&level.layers[0]), Some(b));
    assert!(!stroke.active);
    assert_eq!(last, None);
}

#[test]
fn refused_multi_cell_paint_still_clears_orphaned_tiles() {
    let gone = id(12);
    let b = id(11);
    let tilesets = vec![project_tileset(11)];
    let mut level = tile_level(3, 3, gone);
    level.set_tile(0, 0, 0, Some(1));
    let mut stroke = PaintStrokeTracker::new();
    let mut last = None;
    let r = paint_tile(&mut level, id(1), 0, 2, 2, 4, false, false, b, &tilesets, (2, 2), &mut stroke, &mut last);
    assert_eq!(r, None);
    assert_eq!(cells(&level), vec![None; 9]);
    assert_eq!(get_layer_tileset_id(&level.layers[0]), Some(b));
    // A layer holding tiles of another tileset of the project is left alone.
    let mut level = tile_level(3, 3, a_tileset());
    level.set_tile(0, 0, 0, Some(1));
    let both = vec![project_tileset(10), project_tileset(11)];
    let r = paint_tile(&mut level, id(1), 0, 2, 2, 4, false, false, b, &both, (2, 2), &mut stroke, &mut last);
    assert_eq!(r, None);
    assert_eq!(cells(&level)[0], Some(1));
    assert_eq!(get_layer_tileset_id(&level.layers[0]), Some(a_tileset()));
}

fn a_tileset() -> Uuid {
    id(10)
}

#[test]
fn file_entries_carry_lowercase_forms() {
    let f = FileEntry::new("/a/Hero.PNG".to_string(), "Hero.PNG".to_string(), false, Some("PNG".to_string()), 5);
    assert_eq!(f.name_lower, "hero.png");
    assert_eq!(f.extension, Some("png".to_string()));
    assert_eq!(f.size, 5);
    let d = FileEntry::new("/a/Maps.D".to_string(), "Maps.D".to_string(), true, Some("D".to_string()), 0);
    assert_eq!(d.name_lower, "maps.d");
    assert_eq!(d.extension, None);
}

#[test]
fn filtering_with_a_given_search_text() {
    let mut state = AssetBrowserState::new("/a".to_string());
    state.filter.show_images = true;
    let entries = vec![
        FileEntry::new("/a/b.png".to_string(), "b.png".to_string(), false, Some("png".to_string()), 1),
        FileEntry::new("/a/Hero.png".to_string(), "Hero.png".to_string(), false, Some("png".to_string()), 1),
        FileEntry::new("/a/sub".to_string(), "sub".to_string(), true, None, 0),
    ];
    let shown = state.filter_and_sort_with_search(entries, "hero");
    let names: Vec<String> = shown.iter().map(|e| e.name.clone()).collect();
    assert_eq!(names, vec!["sub".to_string(), "Hero.png".to_string()]);
    state.filter.search_text = "HERO".to_string();
    let entries = vec![
        FileEntry::new("/a/b.png".to_string(), "b.png".to_string(), false, Some("png".to_string()), 1),
        FileEntry::new("/a/Hero.png".to_string(), "Hero.png".to_string(), false, Some("png".to_string()), 1),
    ];
    assert_eq!(state.filter_and_sort(entries).len(), 1);
}

#[test]
fn deleting_the_selected_level_selects_the_first() {
    let mut project = Project::new(Schema::default());
    let a = Level::new("A".to_string(), 1, 1);
    let b = Level::new("B".to_string(), 1, 1);
    let (aid, bid) = (a.id, b.id);
    project.add_level(a);
    project.add_level(b);
    assert_eq!(delete_level_reselecting(&mut project, bid, Some(aid)), Some(aid));
    assert_eq!(project.levels.len(), 1);
    let c = Level::new("C".to_string(), 1, 1);
    let cid = c.id;
    project.add_level(c);
    assert_eq!(delete_level_reselecting(&mut project, aid, Some(aid)), Some(cid));
    assert_eq!(delete_level_reselecting(&mut project, cid, Some(cid)), None);
    assert!(project.levels.is_empty());
    assert_eq!(delete_level_reselecting(&mut project, cid, None), None);
}

#[test]
fn duplicated_level_is_shifted() {
    let mut project = Project::new(Schema::default());
    let mut a = Level::new("A".to_string(), 3, 2);
    a.world_x = 100;
    a.world_y = -20;
    let aid = a.id;
    project.add_level(a);
    let new_id = duplicate_level_shifted(&mut project, aid).expect("the level exists");
    let copy = project.get_level(new_id).unwrap();
    assert_eq!(copy.name, "A (Copy)");
    assert_eq!((copy.world_x, copy.world_y), (164, 44));
    assert_eq!((copy.width, copy.height), (3, 2));
    let orig = project.get_level(aid).unwrap();
    assert_eq!((orig.world_x, orig.world_y), (100, -20));
    assert_eq!(duplicate_level_shifted(&mut project, id(3)), None);
}

#[test]
fn deleting_a_tileset_clears_its_selection() {
    let mut project = Project::new(Schema::default());
    project.add_tileset(project_tileset(10));
    project.add_tileset(project_tileset(11));
    project.add_tileset(project_tileset(10));
    let (sel, chosen) = delete_tileset(&mut project, id(10), Selection::Tileset(id(10)), Some(id(10)));
    assert_eq!(sel, Selection::Nothing);
    assert_eq!(chosen, None);
    assert_eq!(project.tilesets.len(), 1);
    assert_eq!(project.tilesets[0].id, id(11));
    assert!(project.get_tileset(id(10)).is_none());
    assert!(project.get_tileset(id(11)).is_some());
    let (sel, chosen) = delete_tileset(&mut project, id(12), Selection::Tileset(id(11)), Some(id(11)));
    assert_eq!(sel, Selection::Tileset(id(11)));
    assert_eq!(chosen, Some(id(11)));
    assert_eq!(project.tilesets.len(), 1);
}

#[test]
fn duplicated_level_copies_entity_properties() {
    let mut project = Project::new(Schema::default());
    let mut level = Level::new("A".to_string(), 2, 2);
    let mut e = EntityInstance::new("Npc".to_string(), [4.0f32.to_bits(), 12.0f32.to_bits()]);
    e.properties.push(Property { name: "name".to_string(), value: Value::String("Ann".to_string()) });
    let eid = e.id;
    level.add_entity(e);
    let same = level.duplicate();
    assert_eq!(same.entities[0].id, eid);
    assert_eq!(text_of(&same.entities[0].properties, "name"), Some("Ann".to_string()));
    let lid = level.id;
    project.add_level(level);
    let new_id = project.duplicate_level(lid).unwrap();
    let copy = project.get_level(new_id).unwrap();
    assert_ne!(copy.entities[0].id, eid);
    assert_eq!(copy.entities[0].position, [4.0f32.to_bits(), 12.0f32.to_bits()]);
    assert_eq!(text_of(&copy.entities[0].properties, "name"), Some("Ann".to_string()));
}
