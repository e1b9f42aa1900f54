//! Property values: a JSON-like value with typed accessors, and property
//! lists from names to values.

use vstd::prelude::*;
use crate::text::str_equal;

verus! {

/// Generic property value (JSON-like but typed)
#[derive(Debug)]
pub enum Value {
    Null,
    Bool(bool),
    Int(i64),
    /// A floating-point value, held as the IEEE 754 bit pattern of the `f64`
    Float(u64),
    String(String),
    Array(Vec<Value>),
    /// Named fields: the names, each once, and the values in the same order
    /// (see `value_wf`)
    Object(Vec<String>, Vec<Value>),
}

/// Whether two values hold the same data: same variant, same scalars and
/// texts, and element by element the same nested values.
pub open spec fn same_value(a: Value, b: Value) -> bool
    decreases a,
{
    match (a, b) {
        (Value::Null, Value::Null) => true,
        (Value::Bool(x), Value::Bool(y)) => x == y,
        (Value::Int(x), Value::Int(y)) => x == y,
        (Value::Float(x), Value::Float(y)) => x == y,
        (Value::String(x), Value::String(y)) => x@ == y@,
        (Value::Array(xs), Value::Array(ys)) => xs@.len() == ys@.len() && forall|i: int|
            0 <= i < xs@.len() ==> same_value(#[trigger] xs@[i], ys@[i]),
        (Value::Object(kx, xs), Value::Object(ky, ys)) => kx@.len() == ky@.len() && (forall|i: int|
            0 <= i < kx@.len() ==> #[trigger] kx@[i]@ == ky@[i]@) && xs@.len() == ys@.len() && forall|i: int|
            0 <= i < xs@.len() ==> same_value(#[trigger] xs@[i], ys@[i]),
        _ => false,
    }
}

/// Whether each field name occurs once in `names`.
pub open spec fn fields_unique(names: Seq<String>) -> bool {
    forall|a: int, b: int| 0 <= a < names.len() && 0 <= b < names.len() && a != b ==> #[trigger] names[a]@
        != #[trigger] names[b]@
}

/// Whether a value is well formed: at every depth, an object holds one value
/// per field name and each field name once.
pub open spec fn value_wf(v: Value) -> bool
    decreases v,
{
    match v {
        Value::Array(items) => forall|i: int| 0 <= i < items@.len() ==> value_wf(#[trigger] items@[i]),
        Value::Object(names, items) => {
            &&& names@.len() == items@.len()
            &&& fields_unique(names@)
            &&& forall|i: int| 0 <= i < items@.len() ==> value_wf(#[trigger] items@[i])
        },
        _ => true,
    }
}

/// Two values that hold the same data are well formed alike.
pub proof fn lemma_same_value_wf(a: Value, b: Value)
    requires
        same_value(a, b),
    ensures
        value_wf(a) == value_wf(b),
    decreases a,
{
    match (a, b) {
        (Value::Array(xs), Value::Array(ys)) => {
            assert forall|i: int| 0 <= i < xs@.len() implies value_wf(#[trigger] xs@[i]) == value_wf(ys@[i]) by {
                assert(decreases_to!(a => xs@[i]));
                lemma_same_value_wf(xs@[i], ys@[i]);
            }
            if value_wf(a) {
                assert forall|i: int| 0 <= i < ys@.len() implies value_wf(#[trigger] ys@[i]) by {
                    assert(value_wf(xs@[i]) == value_wf(ys@[i]));
                }
            }
            if value_wf(b) {
                assert forall|i: int| 0 <= i < xs@.len() implies value_wf(#[trigger] xs@[i]) by {
                    assert(value_wf(xs@[i]) == value_wf(ys@[i]));
                }
            }
        },
        (Value::Object(kx, xs), Value::Object(ky, ys)) => {
            assert forall|i: int| 0 <= i < xs@.len() implies value_wf(#[trigger] xs@[i]) == value_wf(ys@[i]) by {
                assert(decreases_to!(a => xs@[i]));
                lemma_same_value_wf(xs@[i], ys@[i]);
            }
            if value_wf(a) {
                assert forall|i: int| 0 <= i < ys@.len() implies value_wf(#[trigger] ys@[i]) by {
                    assert(value_wf(xs@[i]) == value_wf(ys@[i]));
                }
                assert forall|i: int, j: int| 0 <= i < ky@.len() && 0 <= j < ky@.len() && i != j implies #[trigger] ky@[i]@
                    != #[trigger] ky@[j]@ by {
                    assert(kx@[i]@ == ky@[i]@ && kx@[j]@ == ky@[j]@);
                }
            }
            if value_wf(b) {
                assert forall|i: int| 0 <= i < xs@.len() implies value_wf(#[trigger] xs@[i]) by {
                    assert(value_wf(xs@[i]) == value_wf(ys@[i]));
                }
                assert forall|i: int, j: int| 0 <= i < kx@.len() && 0 <= j < kx@.len() && i != j implies #[trigger] kx@[i]@
                    != #[trigger] kx@[j]@ by {
                    assert(kx@[i]@ == ky@[i]@ && kx@[j]@ == ky@[j]@);
                }
            }
        },
        _ => {},
    }
}

/// A copy of a list of texts.
fn copy_strings(v: &Vec<String>) -> (r: Vec<String>)
    ensures
        r@.len() == v@.len(),
        forall|i: int| 0 <= i < v@.len() ==> #[trigger] r@[i]@ == v@[i]@,
{
    let mut out: Vec<String> = Vec::new();
    let mut i: usize = 0;
    while i < v.len()
        invariant
            i <= v@.len(),
            out@.len() == i,
            forall|j: int| 0 <= j < i ==> #[trigger] out@[j]@ == v@[j]@,
        decreases v@.len() - i,
    {
        out.push(v[i].clone());
        i = i + 1;
    }
    out
}

impl Value {
    /// A copy of the value holding the same data.
    pub fn duplicate(&self) -> (r: Value)
        ensures
            same_value(r, *self),
        decreases self,
    {
        match self {
            Value::Null => Value::Null,
            Value::Bool(b) => Value::Bool(*b),
            Value::Int(i) => Value::Int(*i),
            Value::Float(f) => Value::Float(*f),
            Value::String(s) => Value::String(s.clone()),
            Value::Array(items) => {
                let copied = Value::duplicate_all(items);
                Value::Array(copied)
            },
            Value::Object(names, items) => {
                let n = copy_strings(names);
                let copied = Value::duplicate_all(items);
                Value::Object(n, copied)
            },
        }
    }

    /// Copies of each value of a list.
    fn duplicate_all(items: &Vec<Value>) -> (r: Vec<Value>)
        ensures
            r@.len() == items@.len(),
            forall|i: int| 0 <= i < items@.len() ==> same_value(#[trigger] r@[i], items@[i]),
        decreases items,
    {
        let mut out: Vec<Value> = Vec::new();
        let mut i: usize = 0;
        while i < items.len()
            invariant
                i <= items@.len(),
                out@.len() == i,
                forall|j: int| 0 <= j < i ==> same_value(#[trigger] out@[j], items@[j]),
            decreases items@.len() - i,
        {
            proof {
                assert(decreases_to!(items => items@[i as int]));
            }
            out.push(items[i].duplicate());
            i = i + 1;
        }
        out
    }
}

impl Default for Value {
    fn default() -> (r: Self)
        ensures
            r is Null,
    {
        Value::Null
    }
}

impl Value {
    pub fn as_string(&self) -> (r: Option<&str>)
        ensures
            match self {
                Value::String(s) => r matches Some(t) && t@ == s@,
                _ => r is None,
            },
    {
        match self {
            Value::String(s) => Some(s.as_str()),
            _ => None,
        }
    }

    pub fn as_bool(&self) -> (r: Option<bool>)
        ensures
            match self {
                Value::Bool(b) => r == Some(*b),
                _ => r is None,
            },
    {
        match self {
            Value::Bool(b) => Some(*b),
            _ => None,
        }
    }

    pub fn as_array(&self) -> (r: Option<&Vec<Value>>)
        ensures
            match self {
                Value::Array(a) => r == Some(a),
                _ => r is None,
            },
    {
        match self {
            Value::Array(a) => Some(a),
            _ => None,
        }
    }

    /// The field names and values of an object value.
    pub fn as_object(&self) -> (r: Option<(&Vec<String>, &Vec<Value>)>)
        ensures
            match self {
                Value::Object(names, values) => r == Some((names, values)),
                _ => r is None,
            },
    {
        match self {
            Value::Object(names, values) => Some((names, values)),
            _ => None,
        }
    }

    pub fn is_null(&self) -> (r: bool)
        ensures
            r == (*self is Null),
    {
        match self {
            Value::Null => true,
            _ => false,
        }
    }
}

/// A named value: a property of an entity or data instance
#[derive(Debug)]
pub struct Property {
    pub name: String,
    pub value: Value,
}

/// Whether each property name occurs once in `props`.
pub open spec fn names_unique(props: Seq<Property>) -> bool {
    forall|a: int, b: int| 0 <= a < props.len() && 0 <= b < props.len() && a != b ==> #[trigger] props[a].name@
        != #[trigger] props[b].name@
}

/// Whether a property list is well formed: each name once, each value well formed.
pub open spec fn props_wf(props: Seq<Property>) -> bool {
    &&& names_unique(props)
    &&& forall|i: int| 0 <= i < props.len() ==> value_wf(#[trigger] props[i].value)
}

/// The position of the first property with the given name, if any.
pub open spec fn property_index(props: Seq<Property>, name: Seq<char>) -> Option<int>
    decreases props.len(),
{
    if props.len() == 0 {
        None
    } else {
        match property_index(props.drop_last(), name) {
            Some(k) => Some(k),
            None => if props.last().name@ == name {
                Some(props.len() - 1)
            } else {
                None
            },
        }
    }
}

/// A property found in a prefix is the one found in the whole list.
proof fn lemma_property_index_prefix(props: Seq<Property>, name: Seq<char>, n: int)
    requires
        0 <= n <= props.len(),
        property_index(props.take(n), name) is Some,
    ensures
        property_index(props, name) == property_index(props.take(n), name),
    decreases props.len(),
{
    if n == props.len() {
        assert(props.take(n) =~= props);
    } else {
        assert(props.drop_last().take(n) =~= props.take(n));
        lemma_property_index_prefix(props.drop_last(), name, n);
    }
}

/// What the first-property search finds is a property with that name.
pub proof fn lemma_property_index_found(props: Seq<Property>, name: Seq<char>)
    ensures
        property_index(props, name) matches Some(k) ==> 0 <= k < props.len() && props[k].name@ == name,
        property_index(props, name) is None ==> forall|j: int| 0 <= j < props.len() ==> #[trigger] props[j].name@ != name,
    decreases props.len(),
{
    if props.len() > 0 {
        lemma_property_index_found(props.drop_last(), name);
        assert forall|j: int| 0 <= j < props.len() - 1 implies #[trigger] props[j].name@ == props.drop_last()[j].name@ by {}
    }
}

/// The position of the first property with the given name.
pub fn find_property(props: &Vec<Property>, name: &str) -> (r: Option<usize>)
    ensures
        match r {
            Some(i) => property_index(props@, name@) == Some(i as int) && i < props@.len(),
            None => property_index(props@, name@) is None,
        },
{
    let mut i: usize = 0;
    while i < props.len()
        invariant
            i <= props@.len(),
            property_index(props@.take(i as int), name@) is None,
        decreases props@.len() - i,
    {
        proof {
            assert(props@.take(i + 1).drop_last() =~= props@.take(i as int));
        }
        if str_equal(props[i].name.as_str(), name) {
            proof {
                lemma_property_index_prefix(props@, name@, i + 1);
            }
            return Some(i);
        }
        i = i + 1;
    }
    assert(props@.take(i as int) =~= props@);
    None
}

/// The value of the property with the given name (the first one), if any.
pub fn get_property<'a>(props: &'a Vec<Property>, name: &str) -> (r: Option<&'a Value>)
    ensures
        match property_index(props@, name@) {
            Some(i) => r == Some(&props@[i].value),
            None => r is None,
        },
{
    match find_property(props, name) {
        Some(i) => Some(&props[i].value),
        None => None,
    }
}

/// A copy of a property list holding the same names and values.
pub fn duplicate_properties(props: &Vec<Property>) -> (r: Vec<Property>)
    ensures
        r@.len() == props@.len(),
        forall|i: int|
            0 <= i < props@.len() ==> #[trigger] r@[i].name@ == props@[i].name@ && same_value(
                r@[i].value,
                props@[i].value,
            ),
{
    let mut out: Vec<Property> = Vec::new();
    let mut i: usize = 0;
    while i < props.len()
        invariant
            i <= props@.len(),
            out@.len() == i,
            forall|j: int|
                0 <= j < i ==> #[trigger] out@[j].name@ == props@[j].name@ && same_value(
                    out@[j].value,
                    props@[j].value,
                ),
        decreases props@.len() - i,
    {
        out.push(Property { name: props[i].name.clone(), value: props[i].value.duplicate() });
        i = i + 1;
    }
    out
}

/// Two property lists with the same names, position by position, find a
/// name at the same position.
pub proof fn lemma_property_index_same_names(a: Seq<Property>, b: Seq<Property>, name: Seq<char>)
    requires
        a.len() == b.len(),
        forall|i: int| 0 <= i < a.len() ==> #[trigger] a[i].name@ == b[i].name@,
    ensures
        property_index(a, name) == property_index(b, name),
    decreases a.len(),
{
    if a.len() > 0 {
        assert forall|i: int| 0 <= i < a.len() - 1 implies #[trigger] a.drop_last()[i].name@ == b.drop_last()[i].name@ by {
            assert(a[i].name@ == b[i].name@);
        }
        lemma_property_index_same_names(a.drop_last(), b.drop_last(), name);
        assert(a.last().name@ == b.last().name@);
    }
}

/// The text of `s` followed by " (Copy)".
pub open spec fn copy_name(s: Seq<char>) -> Seq<char> {
    s + " (Copy)"@
}

/// Appends " (Copy)" to a string.
pub(crate) fn push_copy_suffix(s: &mut String)
    ensures
        final(s)@ == copy_name(old(s)@),
{
    let suffix = " (Copy)";
    proof {
        reveal_strlit(" (Copy)");
    }
    let chars = crate::text::to_chars(suffix);
    let ghost start = s@;
    let mut i: usize = 0;
    while i < chars.len()
        invariant
            i <= chars@.len(),
            chars@ == " (Copy)"@,
            s@ == start + chars@.take(i as int),
        decreases chars@.len() - i,
    {
        crate::text::push_char(s, chars[i]);
        i = i + 1;
        assert(s@ =~= start + chars@.take(i as int));
    }
    assert(chars@.take(i as int) =~= chars@);
}

/// Whether property list `copy` copies `orig`: the same names, the same
/// values, except that a "name" property holding a string gets " (Copy)"
/// appended.
pub open spec fn renamed_properties(orig: Seq<Property>, copy: Seq<Property>) -> bool {
    &&& copy.len() == orig.len()
    &&& forall|i: int| 0 <= i < orig.len() ==> #[trigger] copy[i].name@ == orig[i].name@
    &&& forall|i: int|
        0 <= i < orig.len() ==> if Some(i) == property_index(orig, "name"@) && orig[i].value is String {
            copy[i].value matches Value::String(t) && t@ == copy_name(orig[i].value->String_0@)
        } else {
            same_value(#[trigger] copy[i].value, orig[i].value)
        }
}

/// A copy of a property list whose "name" property, when it is a string,
/// gets " (Copy)" appended.
pub fn copy_renamed(props: &Vec<Property>) -> (r: Vec<Property>)
    ensures
        renamed_properties(props@, r@),
{
    let mut properties = duplicate_properties(props);
    let ghost copied = properties@;
    proof {
        reveal_strlit("name");
        lemma_property_index_same_names(copied, props@, "name"@);
        assert forall|j: int| 0 <= j < props@.len() implies #[trigger] same_value(copied[j].value, props@[j].value)
            && copied[j].name@ == props@[j].name@ by {
            assert(copied[j].name@ == props@[j].name@);
        }
    }
    match find_property(&properties, "name") {
        Some(i) => {
            let is_string = match &properties[i].value {
                Value::String(_) => true,
                _ => false,
            };
            if is_string {
                let mut prop = properties.remove(i);
                match &mut prop.value {
                    Value::String(text) => push_copy_suffix(text),
                    _ => {},
                }
                let ghost new_prop = prop;
                properties.insert(i, prop);
                proof {
                    assert(properties@ =~= copied.update(i as int, new_prop));
                    assert(new_prop.name@ == copied[i as int].name@);
                    assert(new_prop.value matches Value::String(t) && t@ == copy_name(
                        copied[i as int].value->String_0@,
                    ));
                    assert(props@[i as int].value is String);
                    assert(copied[i as int].value->String_0@ == props@[i as int].value->String_0@);
                    assert forall|j: int| 0 <= j < props@.len() implies #[trigger] properties@[j].name@
                        == props@[j].name@ by {}
                    assert forall|j: int| 0 <= j < props@.len() implies if Some(j) == property_index(props@, "name"@)
                        && props@[j].value is String {
                        properties@[j].value matches Value::String(t) && t@ == copy_name(props@[j].value->String_0@)
                    } else {
                        same_value(#[trigger] properties@[j].value, props@[j].value)
                    } by {
                        if j != i {
                            assert(properties@[j] == copied[j]);
                            assert(same_value(copied[j].value, props@[j].value));
                        }
                    }
                }
            } else {
                proof {
                    assert(same_value(copied[i as int].value, props@[i as int].value));
                    assert(!(copied[i as int].value is String));
                    assert(!(props@[i as int].value is String));
                }
            }
        },
        None => {},
    }
    properties
}

/// Whether `after` is `before` with its "name" property set to the text
/// `name` (the first such property replaced, or one added at the end).
pub open spec fn named_props(before: Seq<Property>, after: Seq<Property>, name: Seq<char>) -> bool {
    match property_index(before, "name"@) {
        Some(a) => after.len() == before.len() && (forall|b: int|
            0 <= b < before.len() && b != a ==> #[trigger] after[b] == before[b]) && after[a].name@ == "name"@
            && (after[a].value matches Value::String(t) && t@ == name),
        None => after.drop_last() == before && after.len() == before.len() + 1 && after.last().name@
            == "name"@ && (after.last().value matches Value::String(t) && t@ == name),
    }
}

/// Set a property: the first property with the name takes the value, or a
/// new property is added at the end.
pub(crate) fn set_property(props: &mut Vec<Property>, name: String, value: Value) -> (r: Option<usize>)
    ensures
        match r {
            Some(a) => property_index(old(props)@, name@) == Some(a as int) && a < old(props)@.len(),
            None => property_index(old(props)@, name@) is None,
        },
        match r {
            Some(a) => final(props)@.len() == old(props)@.len() && (forall|b: int|
                0 <= b < old(props)@.len() && b != a ==> #[trigger] final(props)@[b] == old(props)@[b])
                && final(props)@[a as int].name@ == name@ && final(props)@[a as int].value == value,
            None => final(props)@.len() == old(props)@.len() + 1 && final(props)@.drop_last() == old(props)@
                && final(props)@.last().name@ == name@ && final(props)@.last().value == value,
        },
        props_wf(old(props)@) && value_wf(value) ==> props_wf(final(props)@),
{
    proof {
        lemma_property_index_found(props@, name@);
    }
    match find_property(props, name.as_str()) {
        Some(a) => {
            props.set(a, Property { name, value });
            proof {
                let (b, f) = (old(props)@, props@);
                if props_wf(b) && value_wf(value) {
                    assert forall|x: int, y: int| 0 <= x < f.len() && 0 <= y < f.len() && x != y implies #[trigger] f[x].name@
                        != #[trigger] f[y].name@ by {
                        assert(f[x].name@ == b[x].name@ && f[y].name@ == b[y].name@);
                    }
                    assert forall|i: int| 0 <= i < f.len() implies value_wf(#[trigger] f[i].value) by {
                        if i != a {
                            assert(f[i] == b[i]);
                        }
                    }
                }
            }
            Some(a)
        },
        None => {
            props.push(Property { name, value });
            assert(props@.drop_last() =~= old(props)@);
            proof {
                let (b, f) = (old(props)@, props@);
                if props_wf(b) && value_wf(value) {
                    assert forall|x: int, y: int| 0 <= x < f.len() && 0 <= y < f.len() && x != y implies #[trigger] f[x].name@
                        != #[trigger] f[y].name@ by {
                        if x < b.len() && y < b.len() {
                            assert(f[x] == b[x] && f[y] == b[y]);
                        } else if x < b.len() {
                            assert(f[x] == b[x]);
                        } else {
                            assert(f[y] == b[y]);
                        }
                    }
                    assert forall|i: int| 0 <= i < f.len() implies value_wf(#[trigger] f[i].value) by {
                        if i < b.len() {
                            assert(f[i] == b[i]);
                        }
                    }
                }
            }
            None
        },
    }
}

/// A renamed copy of a well-formed property list is well formed.
pub proof fn lemma_renamed_props_wf(orig: Seq<Property>, copy: Seq<Property>)
    requires
        renamed_properties(orig, copy),
        props_wf(orig),
    ensures
        props_wf(copy),
{
    assert forall|x: int, y: int| 0 <= x < copy.len() && 0 <= y < copy.len() && x != y implies #[trigger] copy[x].name@
        != #[trigger] copy[y].name@ by {
        assert(copy[x].name@ == orig[x].name@ && copy[y].name@ == orig[y].name@);
    }
    assert forall|i: int| 0 <= i < copy.len() implies value_wf(#[trigger] copy[i].value) by {
        assert(value_wf(orig[i].value));
        if Some(i) == property_index(orig, "name"@) && orig[i].value is String {
        } else {
            lemma_same_value_wf(copy[i].value, orig[i].value);
        }
    }
}

} // verus!
