use bevy_map::asset_paths::normalize_asset_path;
use bevy_map::data_store::{DataInstance, DataStore};
use bevy_map::editor_project::Project;
use bevy_map::entity_config::{ColliderConfig, EntityTypeConfig, InputConfig, InputProfile};
use bevy_map::errors::{PreferencesError, ProjectError};
use bevy_map::ids::Uuid;
use bevy_map::layer::Layer;
use bevy_map::level::{EntityInstance, Level};
use bevy_map::properties::{get_default_value, should_show_property};
use bevy_map::schema::{PropType, PropertyDef, Schema, TypeDef};
use bevy_map::value::{copy_renamed, find_property, get_property, Property, Value};
use bevy_map::world::default_level_color;

fn prop_def(name: &str, prop_type: PropType) -> PropertyDef {
    PropertyDef {
        name: name.to_string(),
        prop_type,
        required: false,
        default: None,
        min: None,
        max: None,
        show_if: None,
        enum_type: None,
        ref_type: None,
        item_type: None,
        embedded_type: None,
    }
}

fn prop(name: &str, value: Value) -> Property {
    Property { name: name.to_string(), value }
}

fn type_def(placeable: bool) -> TypeDef {
    let mut t = TypeDef::default();
    t.placeable = placeable;
    t
}

#[test]
fn test_collider_config() {
    let box_collider = ColliderConfig::new_box(16.0f32.to_bits(), 32.0f32.to_bits());
    assert_eq!(box_collider.display_name(), "Box");

    let capsule = ColliderConfig::new_capsule(14.0f32.to_bits(), 24.0f32.to_bits());
    assert_eq!(capsule.display_name(), "Capsule");

    let circle = ColliderConfig::new_circle(8.0f32.to_bits());
    assert_eq!(circle.display_name(), "Circle");
}

#[test]
fn collider_shapes_keep_their_sizes() {
    match ColliderConfig::new_box(16.0f32.to_bits(), 32.0f32.to_bits()) {
        ColliderConfig::Box { width, height } => {
            assert_eq!(f32::from_bits(width), 16.0);
            assert_eq!(f32::from_bits(height), 32.0);
        }
        _ => panic!("not a box"),
    }
    match ColliderConfig::new_circle(8.0f32.to_bits()) {
        ColliderConfig::Circle { radius } => assert_eq!(f32::from_bits(radius), 8.0),
        _ => panic!("not a circle"),
    }
    assert_eq!(ColliderConfig::new_box(1, 1).variant_name(), "box");
    assert_eq!(InputProfile::TopDown.variant_name(), "topdown");
}

#[test]
fn input_presets_and_empty_entity_config() {
    let p = InputConfig::platformer();
    assert!(p.profile == InputProfile::Platformer);
    let t = InputConfig::top_down();
    assert!(t.profile == InputProfile::TopDown);
    let n = InputConfig::none();
    assert!(n.profile == InputProfile::NoInput);
    let config = EntityTypeConfig::new();
    assert!(!config.has_any());
    let mut with_input = EntityTypeConfig::new();
    with_input.input = Some(InputConfig::platformer());
    assert!(with_input.has_any());
}

#[test]
fn test_normalize_asset_path() {
    assert_eq!(normalize_asset_path("C:/project/assets/sprites/player.png"), "sprites/player.png");
    assert_eq!(normalize_asset_path("assets/sprites/player.png"), "sprites/player.png");
    assert_eq!(normalize_asset_path("sprites/player.png"), "sprites/player.png");
}

#[test]
fn normalize_asset_path_handles_backslashes_and_case() {
    assert_eq!(normalize_asset_path("C:\\game\\Assets\\maps\\a.png"), "maps/a.png");
    assert_eq!(normalize_asset_path("ASSETS/x.png"), "x.png");
    assert_eq!(normalize_asset_path(""), "");
}

#[test]
fn default_values_per_property_type() {
    assert!(matches!(get_default_value(&prop_def("a", PropType::String)), Value::String(s) if s.is_empty()));
    assert!(matches!(get_default_value(&prop_def("a", PropType::Multiline)), Value::String(s) if s.is_empty()));
    assert!(matches!(get_default_value(&prop_def("a", PropType::Int)), Value::Int(0)));
    assert!(matches!(get_default_value(&prop_def("a", PropType::Float)), Value::Float(0)));
    assert!(matches!(get_default_value(&prop_def("a", PropType::Bool)), Value::Bool(false)));
    assert!(matches!(get_default_value(&prop_def("a", PropType::Enum)), Value::String(s) if s.is_empty()));
    assert!(matches!(get_default_value(&prop_def("a", PropType::Ref)), Value::Null));
    assert!(matches!(get_default_value(&prop_def("a", PropType::Array)), Value::Array(v) if v.is_empty()));
    assert!(matches!(get_default_value(&prop_def("a", PropType::Color)), Value::String(s) if s == "#808080"));
    assert!(matches!(get_default_value(&prop_def("a", PropType::Sprite)), Value::Null));
    assert!(matches!(get_default_value(&prop_def("a", PropType::Dialogue)), Value::Null));
    assert!(matches!(get_default_value(&prop_def("a", PropType::Embedded)), Value::Null));
    match get_default_value(&prop_def("a", PropType::Point)) {
        Value::Object(names, values) => {
            assert_eq!(names, vec!["x".to_string(), "y".to_string()]);
            assert!(matches!(values[0], Value::Float(b) if f64::from_bits(b) == 0.0));
            assert!(matches!(values[1], Value::Float(b) if f64::from_bits(b) == 0.0));
        }
        _ => panic!("a point starts as an object"),
    }
}

#[test]
fn declared_default_is_copied() {
    let mut def = prop_def("speed", PropType::Int);
    def.default = Some(Value::Int(7));
    assert!(matches!(get_default_value(&def), Value::Int(7)));
    let mut def = prop_def("tags", PropType::Array);
    def.default = Some(Value::Array(vec![Value::String("a".to_string()), Value::Bool(true)]));
    match get_default_value(&def) {
        Value::Array(items) => {
            assert_eq!(items.len(), 2);
            assert!(matches!(&items[0], Value::String(s) if s == "a"));
            assert!(matches!(items[1], Value::Bool(true)));
        }
        _ => panic!("the declared default is an array"),
    }
}

#[test]
fn show_if_conditions() {
    let props = vec![
        prop("kind", Value::String("door".to_string())),
        prop("locked", Value::Bool(true)),
        prop("level", Value::Int(-3)),
        prop("ratio", Value::Float(1.5f64.to_bits())),
    ];
    let mut def = prop_def("key", PropType::String);
    assert!(should_show_property(&def, &props));
    def.show_if = Some("kind=door".to_string());
    assert!(should_show_property(&def, &props));
    def.show_if = Some(" kind = door ".to_string());
    assert!(should_show_property(&def, &props));
    def.show_if = Some("kind=window".to_string());
    assert!(!should_show_property(&def, &props));
    def.show_if = Some("locked=true".to_string());
    assert!(should_show_property(&def, &props));
    def.show_if = Some("locked=false".to_string());
    assert!(!should_show_property(&def, &props));
    def.show_if = Some("level=-3".to_string());
    assert!(should_show_property(&def, &props));
    def.show_if = Some("ratio=1.5".to_string());
    assert!(!should_show_property(&def, &props));
    def.show_if = Some("missing=1".to_string());
    assert!(!should_show_property(&def, &props));
    def.show_if = Some("no condition here".to_string());
    assert!(should_show_property(&def, &props));
}

#[test]
fn property_lookup_and_copy_naming() {
    let props = vec![
        prop("name", Value::String("Chest".to_string())),
        prop("gold", Value::Int(10)),
        prop("gold", Value::Int(20)),
    ];
    assert_eq!(find_property(&props, "gold"), Some(1));
    assert_eq!(find_property(&props, "silver"), None);
    assert!(matches!(get_property(&props, "gold"), Some(Value::Int(10))));
    let copy = copy_renamed(&props);
    assert_eq!(copy.len(), 3);
    assert!(matches!(&copy[0].value, Value::String(s) if s == "Chest (Copy)"));
    assert!(matches!(copy[2].value, Value::Int(20)));
    let unnamed = vec![prop("name", Value::Int(3))];
    let copy = copy_renamed(&unnamed);
    assert!(matches!(copy[0].value, Value::Int(3)));
}

#[test]
fn value_accessors() {
    let v = Value::String("hi".to_string());
    assert_eq!(v.as_string(), Some("hi"));
    assert_eq!(v.as_bool(), None);
    assert!(!v.is_null());
    assert!(Value::Null.is_null());
    assert_eq!(Value::Bool(true).as_bool(), Some(true));
    let arr = Value::Array(vec![Value::Int(1)]);
    assert_eq!(arr.as_array().map(|a| a.len()), Some(1));
    let obj = Value::Object(vec!["x".to_string()], vec![Value::Int(2)]);
    assert!(obj.as_object().is_some());
    assert!(arr.as_object().is_none());
    let dup = obj.duplicate();
    match dup {
        Value::Object(names, values) => {
            assert_eq!(names, vec!["x".to_string()]);
            assert!(matches!(values[0], Value::Int(2)));
        }
        _ => panic!("a copy keeps the variant"),
    }
}

#[test]
fn schema_lookups_and_sorted_names() {
    let mut schema = Schema::default();
    schema.data_types.push(("Npc".to_string(), type_def(true)));
    schema.data_types.push(("Item".to_string(), type_def(false)));
    schema.data_types.push(("Door".to_string(), type_def(true)));
    schema.embedded_types.push(("Stats".to_string(), type_def(false)));
    schema.enums.push(("Color".to_string(), vec!["Red".to_string(), "Blue".to_string()]));
    assert!(schema.get_type("Npc").is_some());
    assert!(schema.get_type("Stats").is_some());
    assert!(schema.get_type("Nothing").is_none());
    assert_eq!(schema.get_enum("Color").map(|v| v.len()), Some(2));
    assert!(schema.get_enum("Shape").is_none());
    assert_eq!(schema.data_type_names(), vec!["Door", "Item", "Npc"]);
    assert_eq!(schema.all_type_names(), vec!["Door", "Item", "Npc"]);
    assert_eq!(schema.placeable_type_names(), vec!["Door", "Npc"]);
}

#[test]
fn prop_type_names() {
    assert_eq!(PropType::Int.display_name(), "Integer");
    assert_eq!(PropType::Sprite.display_name(), "Sprite (Deprecated)");
    assert!(PropType::Sprite.is_deprecated());
    assert!(!PropType::Int.is_deprecated());
    assert!(!PropType::all_active().contains(&PropType::Sprite));
}

#[test]
fn data_store_groups_by_type() {
    let mut store = DataStore::default();
    let a = DataInstance::new("Item".to_string());
    let a_id = a.id;
    let b = DataInstance::new("Npc".to_string());
    let c = DataInstance::new("Item".to_string());
    let c_id = c.id;
    store.add(a);
    store.add(b);
    store.add(c);
    assert_eq!(store.get_by_type("Item").len(), 2);
    assert_eq!(store.get_by_type("Npc").len(), 1);
    assert_eq!(store.get_by_type("Quest").len(), 0);
    assert_eq!(store.all_instances().len(), 3);
    assert_eq!(store.get(c_id).map(|i| i.data_type.clone()), Some("Item".to_string()));
    let removed = store.remove(a_id).expect("the instance is stored");
    assert_eq!(removed.id, a_id);
    assert!(store.get(a_id).is_none());
    assert_eq!(store.get_by_type("Item").len(), 1);
    assert!(store.remove(a_id).is_none());
}

#[test]
fn project_duplicates_data_and_levels() {
    let mut project = Project::new(Schema::default());
    let mut inst = DataInstance::new("Item".to_string());
    inst.properties.push(prop("name", Value::String("Sword".to_string())));
    let id = inst.id;
    project.add_data_instance(inst);
    let copy_id = project.duplicate_data_instance(id).expect("the instance exists");
    assert_ne!(copy_id, id);
    let copy = project.get_data_instance(copy_id).expect("the copy is stored");
    assert!(matches!(&copy.properties[0].value, Value::String(s) if s == "Sword (Copy)"));
    assert!(project.duplicate_data_instance(Uuid::from_u128(5)).is_none());

    let mut level = Level::new("Cave".to_string(), 4, 3);
    level.add_layer(Layer::new_tile_layer("Ground".to_string(), Uuid::from_u128(9), 4, 3));
    level.set_tile(0, 1, 1, Some(3));
    level.add_entity(EntityInstance::new("Npc".to_string(), [0, 0]));
    let level_id = level.id;
    project.add_level(level);
    let new_id = project.duplicate_level(level_id).expect("the level exists");
    let dup = project.get_level(new_id).expect("the copy is stored");
    assert_eq!(dup.name, "Cave (Copy)");
    assert_eq!(dup.get_tile(0, 1, 1), Some(3));
    assert_eq!(dup.entities.len(), 1);
    assert_eq!(project.count_entities_of_type("Npc"), 2);
    assert_eq!(project.count_entities_of_type("Door"), 0);
    assert!(project.duplicate_level(Uuid::from_u128(1)).is_none());
}

#[test]
fn project_levels_added_found_and_removed() {
    let mut project = Project::new(Schema::default());
    let level = Level::new("One".to_string(), 2, 2);
    let id = level.id;
    project.add_level(level);
    assert!(project.is_dirty());
    assert_eq!(project.get_level(id).map(|l| l.name.clone()), Some("One".to_string()));
    let removed = project.remove_level(id).expect("the level was added");
    assert_eq!(removed.id, id);
    assert!(project.get_level(id).is_none());
    assert_eq!(project.levels.len(), 0);
}

#[test]
fn error_messages() {
    assert_eq!(ProjectError::IoError("disk".to_string()).message(), "IO error: disk");
    assert_eq!(ProjectError::ParseError("bad".to_string()).message(), "Parse error: bad");
    assert_eq!(ProjectError::SerializeError("x".to_string()).message(), "Serialize error: x");
    assert_eq!(ProjectError::NoPath.message(), "No file path set");
    assert_eq!(PreferencesError::IoError("d".to_string()).message(), "IO error: d");
    assert_eq!(PreferencesError::ParseError("p".to_string()).message(), "Parse error: p");
    assert_eq!(PreferencesError::SerializeError("s".to_string()).message(), "Serialize error: s");
    assert_eq!(PreferencesError::NoConfigDir.message(), "Could not determine config directory");
}

#[test]
fn level_colors_cycle_through_the_palette() {
    let first = default_level_color(0);
    let mut n = 1;
    while default_level_color(n) != first {
        n += 1;
        assert!(n < 100);
    }
    assert_eq!(default_level_color(n + 3), default_level_color(3));
}

#[test]
fn uuid_text_form() {
    let id = Uuid::from_u128(0x0123_4567_89ab_cdef_0123_4567_89ab_cdef);
    assert_eq!(id.to_string(), "01234567-89ab-cdef-0123-456789abcdef");
    assert_eq!(id.to_string(), uuid::Uuid::from_u128(id.as_u128()).to_string());
    assert_eq!(Uuid::nil().to_string(), "00000000-0000-0000-0000-000000000000");
    let a = Uuid::new_v4();
    let b = Uuid::new_v4();
    assert_ne!(a, b);
    assert_eq!(uuid::Uuid::from_u128(a.as_u128()).get_version_num(), 4);
}
