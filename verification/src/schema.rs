//! Schema type definitions: project settings and property types.

use vstd::prelude::*;
use crate::text::{sort_strs, sorted_texts, str_equal, str_views};
use crate::value::Value;

verus! {

/// Project-level configuration from schema
#[derive(Debug, Clone)]
pub struct ProjectConfig {
    pub name: String,
    pub tile_size: u32,
    pub default_layer_types: Vec<String>,
}

impl Default for ProjectConfig {
    fn default() -> (r: Self)
        ensures
            r.name@ == Seq::<char>::empty(),
            r.tile_size == 0,
            r.default_layer_types@.len() == 0,
    {
        ProjectConfig { name: String::new(), tile_size: 0, default_layer_types: Vec::new() }
    }
}

/// The schema loaded from schema.json - defines all types and enums
#[derive(Debug)]
pub struct Schema {
    pub version: u32,
    pub project: ProjectConfig,
    /// Enum types by name, each name once
    pub enums: Vec<(String, Vec<String>)>,
    /// Data types by name, each name once
    pub data_types: Vec<(String, TypeDef)>,
    /// Embedded types by name, each name once
    pub embedded_types: Vec<(String, TypeDef)>,
}

impl Default for Schema {
    fn default() -> (r: Self)
        ensures
            r.version == 0,
            r.project.name@.len() == 0,
            r.project.tile_size == 0,
            r.project.default_layer_types@.len() == 0,
            r.enums@.len() == 0,
            r.data_types@.len() == 0,
            r.embedded_types@.len() == 0,
    {
        Schema {
            version: 0,
            project: ProjectConfig::default(),
            enums: Vec::new(),
            data_types: Vec::new(),
            embedded_types: Vec::new(),
        }
    }
}

/// Definition of a type (from schema)
#[derive(Debug)]
pub struct TypeDef {
    pub color: String,
    pub icon: Option<String>,
    pub placeable: bool,
    /// Marker size in pixels for rendering on canvas (default: 16)
    pub marker_size: Option<u32>,
    pub properties: Vec<PropertyDef>,
}

impl Default for TypeDef {
    fn default() -> (r: Self)
        ensures
            r.color@ == "#808080"@,
            r.icon is None,
            !r.placeable,
            r.marker_size is None,
            r.properties@.len() == 0,
    {
        TypeDef {
            color: default_color(),
            icon: None,
            placeable: false,
            marker_size: None,
            properties: Vec::new(),
        }
    }
}

/// Definition of a property (from schema)
#[derive(Debug)]
pub struct PropertyDef {
    pub name: String,
    pub prop_type: PropType,
    pub required: bool,
    pub default: Option<Value>,
    /// Lower bound, as the IEEE 754 bit pattern of the `f64`
    pub min: Option<u64>,
    /// Upper bound, as the IEEE 754 bit pattern of the `f64`
    pub max: Option<u64>,
    /// Condition "name=value" under which the property is shown
    pub show_if: Option<String>,
    pub enum_type: Option<String>,
    pub ref_type: Option<String>,
    pub item_type: Option<String>,
    pub embedded_type: Option<String>,
}

/// The position of the first entry named `name` in a name-keyed list.
pub open spec fn entry_index<T>(entries: Seq<(String, T)>, name: Seq<char>) -> Option<int> {
    if exists|i: int| 0 <= i < entries.len() && entries[i].0@ == name {
        Some(
            choose|i: int|
                0 <= i < entries.len() && entries[i].0@ == name && forall|j: int|
                    0 <= j < i ==> entries[j].0@ != name,
        )
    } else {
        None
    }
}

/// The first entry named `name` in a name-keyed list.
pub(crate) fn find_entry<T>(entries: &Vec<(String, T)>, name: &str) -> (r: Option<usize>)
    ensures
        match r {
            Some(i) => entry_index(entries@, name@) == Some(i as int) && i < entries@.len(),
            None => entry_index(entries@, name@) is None,
        },
{
    let mut i: usize = 0;
    while i < entries.len()
        invariant
            i <= entries@.len(),
            forall|j: int| 0 <= j < i ==> entries@[j].0@ != name@,
        decreases entries@.len() - i,
    {
        if str_equal(entries[i].0.as_str(), name) {
            proof {
                let w = choose|w: int|
                    0 <= w < entries@.len() && entries@[w].0@ == name@ && forall|j: int|
                        0 <= j < w ==> entries@[j].0@ != name@;
                assert(0 <= w < entries@.len() && entries@[w].0@ == name@);
                if w < i {
                } else if w > i {
                    assert(entries@[i as int].0@ == name@);
                }
            }
            return Some(i);
        }
        i = i + 1;
    }
    None
}

/// The names of a name-keyed list, in order.
pub open spec fn entry_names<T>(entries: Seq<(String, T)>) -> Seq<Seq<char>> {
    entries.map_values(|e: (String, T)| e.0@)
}

/// The names of the entries of a name-keyed list that satisfy `keep`, in order.
pub open spec fn placeable_names(entries: Seq<(String, TypeDef)>) -> Seq<Seq<char>>
    decreases entries.len(),
{
    if entries.len() == 0 {
        Seq::empty()
    } else {
        let rest = placeable_names(entries.drop_last());
        if entries.last().1.placeable {
            rest.push(entries.last().0@)
        } else {
            rest
        }
    }
}

impl Schema {
    /// Whether each enum, data type and embedded type name occurs once.
    pub open spec fn wf(&self) -> bool {
        &&& entry_names(self.enums@).no_duplicates()
        &&& entry_names(self.data_types@).no_duplicates()
        &&& entry_names(self.embedded_types@).no_duplicates()
    }

    /// Get a type definition by name (checks data_types and embedded_types)
    pub fn get_type(&self, name: &str) -> (r: Option<&TypeDef>)
        ensures
            match entry_index(self.data_types@, name@) {
                Some(i) => r == Some(&self.data_types@[i].1),
                None => match entry_index(self.embedded_types@, name@) {
                    Some(i) => r == Some(&self.embedded_types@[i].1),
                    None => r is None,
                },
            },
    {
        match find_entry(&self.data_types, name) {
            Some(i) => Some(&self.data_types[i].1),
            None => match find_entry(&self.embedded_types, name) {
                Some(i) => Some(&self.embedded_types[i].1),
                None => None,
            },
        }
    }

    /// Get enum values by name
    pub fn get_enum(&self, name: &str) -> (r: Option<&Vec<String>>)
        ensures
            match entry_index(self.enums@, name@) {
                Some(i) => r == Some(&self.enums@[i].1),
                None => r is None,
            },
    {
        match find_entry(&self.enums, name) {
            Some(i) => Some(&self.enums[i].1),
            None => None,
        }
    }

    /// Get all type names sorted alphabetically
    pub fn all_type_names(&self) -> (r: Vec<&str>)
        ensures
            str_views(r@) == sorted_texts(entry_names(self.data_types@)),
    {
        self.data_type_names()
    }

    /// Get all data type names sorted alphabetically
    pub fn data_type_names(&self) -> (r: Vec<&str>)
        ensures
            str_views(r@) == sorted_texts(entry_names(self.data_types@)),
    {
        let mut names: Vec<&str> = Vec::new();
        let mut i: usize = 0;
        while i < self.data_types.len()
            invariant
                i <= self.data_types@.len(),
                str_views(names@) == entry_names(self.data_types@.take(i as int)),
            decreases self.data_types@.len() - i,
        {
            let ghost before = names@;
            names.push(self.data_types[i].0.as_str());
            proof {
                assert(self.data_types@.take(i + 1) =~= self.data_types@.take(i as int).push(self.data_types@[i as int]));
                assert(str_views(names@) =~= str_views(before).push(self.data_types@[i as int].0@));
            }
            i = i + 1;
            assert(str_views(names@) =~= entry_names(self.data_types@.take(i as int)));
        }
        assert(self.data_types@.take(i as int) =~= self.data_types@);
        sort_strs(names)
    }

    /// Get all placeable type names (types that can be placed in levels), sorted
    pub fn placeable_type_names(&self) -> (r: Vec<&str>)
        ensures
            str_views(r@) == sorted_texts(placeable_names(self.data_types@)),
    {
        let mut names: Vec<&str> = Vec::new();
        let mut i: usize = 0;
        while i < self.data_types.len()
            invariant
                i <= self.data_types@.len(),
                str_views(names@) == placeable_names(self.data_types@.take(i as int)),
            decreases self.data_types@.len() - i,
        {
            proof {
                assert(self.data_types@.take(i + 1).drop_last() =~= self.data_types@.take(i as int));
            }
            let ghost before = names@;
            if self.data_types[i].1.placeable {
                names.push(self.data_types[i].0.as_str());
                assert(str_views(names@) =~= str_views(before).push(self.data_types@[i as int].0@));
            }
            i = i + 1;
            assert(str_views(names@) =~= placeable_names(self.data_types@.take(i as int)));
        }
        assert(self.data_types@.take(i as int) =~= self.data_types@);
        sort_strs(names)
    }
}

/// The tile size a schema file gets when it names none.
pub fn default_tile_size() -> (r: u32)
    ensures
        r == 32,
{
    32
}

/// The marker color a type definition gets when it names none.
pub fn default_color() -> (r: String)
    ensures
        r@ == "#808080"@,
{
    String::from_str("#808080")
}

/// Property types supported by the schema
#[derive(Debug, Clone, Copy, PartialEq, Eq, Structural)]
pub enum PropType {
    String,
    Multiline,
    Int,
    Float,
    Bool,
    Enum,
    Ref,
    Array,
    Embedded,
    Point,
    Color,
    /// Deprecated: sprite configuration belongs to the entity type's sprite
    /// settings, not to per-instance properties. Kept so that existing
    /// projects still load.
    Sprite,
    Dialogue,
}

impl PropType {
    /// Display name for UI
    pub fn display_name(&self) -> (r: &'static str)
        ensures
            r@ == match self {
                PropType::String => "String"@,
                PropType::Multiline => "Multiline"@,
                PropType::Int => "Integer"@,
                PropType::Float => "Float"@,
                PropType::Bool => "Boolean"@,
                PropType::Enum => "Enum"@,
                PropType::Ref => "Reference"@,
                PropType::Array => "Array"@,
                PropType::Embedded => "Embedded"@,
                PropType::Point => "Point"@,
                PropType::Color => "Color"@,
                PropType::Sprite => "Sprite (Deprecated)"@,
                PropType::Dialogue => "Dialogue Tree"@,
            },
    {
        match self {
            PropType::String => "String",
            PropType::Multiline => "Multiline",
            PropType::Int => "Integer",
            PropType::Float => "Float",
            PropType::Bool => "Boolean",
            PropType::Enum => "Enum",
            PropType::Ref => "Reference",
            PropType::Array => "Array",
            PropType::Embedded => "Embedded",
            PropType::Point => "Point",
            PropType::Color => "Color",
            PropType::Sprite => "Sprite (Deprecated)",
            PropType::Dialogue => "Dialogue Tree",
        }
    }

    /// Check if this property type is deprecated
    pub fn is_deprecated(&self) -> (r: bool)
        ensures
            r == (*self == PropType::Sprite),
    {
        match self {
            PropType::Sprite => true,
            _ => false,
        }
    }

    /// Get all non-deprecated property types for UI display
    pub fn all_active() -> (r: &'static [PropType])
        ensures
            r@ == all_active_types(),
            forall|p: PropType| r@.contains(p) <==> p != PropType::Sprite,
            r@.no_duplicates(),
    {
        let r: &'static [PropType] = &[
            PropType::String,
            PropType::Multiline,
            PropType::Int,
            PropType::Float,
            PropType::Bool,
            PropType::Enum,
            PropType::Ref,
            PropType::Array,
            PropType::Embedded,
            PropType::Point,
            PropType::Color,
            PropType::Dialogue,
        ];
        proof {
            lemma_all_active_types();
        }
        assert(r@ =~= all_active_types());
        r
    }
}

/// Every property type but the deprecated one, in declaration order.
pub open spec fn all_active_types() -> Seq<PropType> {
    seq![
        PropType::String,
        PropType::Multiline,
        PropType::Int,
        PropType::Float,
        PropType::Bool,
        PropType::Enum,
        PropType::Ref,
        PropType::Array,
        PropType::Embedded,
        PropType::Point,
        PropType::Color,
        PropType::Dialogue,
    ]
}

/// The active types are exactly the non-deprecated ones, each once.
proof fn lemma_all_active_types()
    ensures
        forall|p: PropType| all_active_types().contains(p) <==> p != PropType::Sprite,
        all_active_types().no_duplicates(),
{
    let s = all_active_types();
    assert forall|p: PropType| s.contains(p) <==> p != PropType::Sprite by {
        match p {
            PropType::String => assert(s[0] == p),
            PropType::Multiline => assert(s[1] == p),
            PropType::Int => assert(s[2] == p),
            PropType::Float => assert(s[3] == p),
            PropType::Bool => assert(s[4] == p),
            PropType::Enum => assert(s[5] == p),
            PropType::Ref => assert(s[6] == p),
            PropType::Array => assert(s[7] == p),
            PropType::Embedded => assert(s[8] == p),
            PropType::Point => assert(s[9] == p),
            PropType::Color => assert(s[10] == p),
            PropType::Dialogue => assert(s[11] == p),
            PropType::Sprite => {
                if s.contains(p) {
                    let i = choose|i: int| 0 <= i < s.len() && s[i] == p;
                    assert(s[i] == p);
                }
            },
        }
    }
}

/// The type definition a schema holds under `name`: among the data types,
/// then among the embedded types.
pub open spec fn schema_type(schema: Schema, name: Seq<char>) -> Option<TypeDef> {
    match entry_index(schema.data_types@, name) {
        Some(i) => Some(schema.data_types@[i].1),
        None => match entry_index(schema.embedded_types@, name) {
            Some(i) => Some(schema.embedded_types@[i].1),
            None => None,
        },
    }
}

} // verus!
