//! Property editing helpers: the value a new property starts with, and
//! whether a property is shown given the values of the others.

use vstd::prelude::*;
use crate::schema::{PropType, PropertyDef};
use crate::text::{
    decimal_digits,
    decimal_string,
    find,
    push_char,
    spec_find,
    str_equal,
    string_from_range,
    to_chars,
    trim,
    trim_bounds,
};
use crate::value::{Property, Value, get_property, lemma_same_value_wf, property_index, same_value, value_wf};

verus! {

/// The value a property of the given type starts with when its definition
/// gives no default.
pub open spec fn starts_as(t: PropType, v: Value) -> bool {
    match t {
        PropType::String | PropType::Multiline | PropType::Enum => v matches Value::String(s)
            && s@.len() == 0,
        PropType::Int => v matches Value::Int(n) && n == 0,
        PropType::Float => v matches Value::Float(bits) && bits == 0,
        PropType::Bool => v matches Value::Bool(b) && !b,
        PropType::Array => v matches Value::Array(items) && items@.len() == 0,
        PropType::Point => v matches Value::Object(names, values) && names@.len() == 2
            && names@[0]@ == "x"@ && names@[1]@ == "y"@ && values@.len() == 2 && (values@[0] matches Value::Float(
            bx,
        ) && bx == 0) && (values@[1] matches Value::Float(by) && by == 0),
        PropType::Color => v matches Value::String(s) && s@ == "#808080"@,
        PropType::Ref | PropType::Sprite | PropType::Dialogue | PropType::Embedded => v is Null,
    }
}

/// Whether a property definition's declared default, if any, is a well-formed value.
pub open spec fn default_wf(def: PropertyDef) -> bool {
    def.default matches Some(d) ==> value_wf(d)
}

/// Whether every declared default among `defs` is a well-formed value.
pub open spec fn defaults_wf(defs: Seq<PropertyDef>) -> bool {
    forall|j: int| 0 <= j < defs.len() ==> default_wf(#[trigger] defs[j])
}

/// Get a default value for a property based on its definition: its declared
/// default when it has one, otherwise the empty value of its type (zero,
/// false, empty text or list, the origin point, mid grey, or null).
pub fn get_default_value(prop_def: &PropertyDef) -> (r: Value)
    ensures
        match prop_def.default {
            Some(d) => same_value(r, d),
            None => starts_as(prop_def.prop_type, r),
        },
        default_wf(*prop_def) ==> value_wf(r),
{
    if let Some(default) = &prop_def.default {
        let r = default.duplicate();
        proof {
            lemma_same_value_wf(r, *default);
        }
        return r;
    }
    match prop_def.prop_type {
        PropType::String | PropType::Multiline => Value::String(String::new()),
        PropType::Int => Value::Int(0),
        PropType::Float => Value::Float(0),
        PropType::Bool => Value::Bool(false),
        PropType::Enum => Value::String(String::new()),
        PropType::Ref => Value::Null,
        PropType::Array => {
            let r = Value::Array(Vec::new());
            assert(value_wf(r));
            r
        },
        PropType::Point => {
            let mut names: Vec<String> = Vec::new();
            names.push(String::from_str("x"));
            names.push(String::from_str("y"));
            let mut values: Vec<Value> = Vec::new();
            values.push(Value::Float(0));
            values.push(Value::Float(0));
            proof {
                reveal_strlit("x");
                reveal_strlit("y");
                assert(names@[0]@[0] == 'x' && names@[1]@[0] == 'y');
                assert(names@[0]@ != names@[1]@);
                assert(crate::value::fields_unique(names@));
                assert(value_wf(values@[0]) && value_wf(values@[1]));
            }
            let r = Value::Object(names, values);
            assert(value_wf(r));
            r
        },
        PropType::Color => {
            proof {
                reveal_strlit("#808080");
            }
            Value::String(String::from_str("#808080"))
        },
        PropType::Sprite => Value::Null,
        PropType::Dialogue => Value::Null,
        PropType::Embedded => Value::Null,
    }
}

/// The text `to_string` gives for a `bool`.
pub open spec fn bool_text(b: bool) -> Seq<char> {
    if b {
        "true"@
    } else {
        "false"@
    }
}

/// The text `to_string` gives for an `i64`: its decimal digits, with a minus
/// sign when negative.
pub open spec fn int_text(n: i64) -> Seq<char> {
    if n < 0 {
        seq!['-'] + decimal_digits((-n) as nat)
    } else {
        decimal_digits(n as nat)
    }
}

/// The text of a property value compared against a show condition: a
/// string's text, a bool's or an integer's `to_string`; other kinds have none.
pub open spec fn condition_text(v: Value) -> Option<Seq<char>> {
    match v {
        Value::String(s) => Some(s@),
        Value::Bool(b) => Some(bool_text(b)),
        Value::Int(n) => Some(int_text(n)),
        _ => None,
    }
}

/// Whether a show condition "name=value" holds for the given properties: the
/// named property (name trimmed) exists and its text equals the trimmed
/// expected text. A condition without '=' always holds.
pub open spec fn condition_holds(cond: Seq<char>, props: Seq<Property>) -> bool {
    match spec_find(cond, seq!['=']) {
        None => true,
        Some(k) => match property_index(props, trim(cond.take(k))) {
            Some(i) => condition_text(props[i].value) == Some(trim(cond.skip(k + 1))),
            None => false,
        },
    }
}

/// The text of an `i64` as `to_string` writes it.
pub(crate) fn int_to_text(n: i64) -> (r: String)
    ensures
        r@ == int_text(n),
{
    if n < 0 {
        let magnitude: u64 = (-(n + 1)) as u64 + 1;
        let mut r = String::new();
        push_char(&mut r, '-');
        let digits = decimal_string(magnitude);
        let mut out = r;
        let dc = to_chars(digits.as_str());
        let mut i: usize = 0;
        while i < dc.len()
            invariant
                i <= dc@.len(),
                dc@ == decimal_digits(magnitude as nat),
                out@ == seq!['-'] + dc@.take(i as int),
            decreases dc@.len() - i,
        {
            push_char(&mut out, dc[i]);
            i = i + 1;
            assert(out@ =~= seq!['-'] + dc@.take(i as int));
        }
        assert(dc@.take(i as int) =~= dc@);
        out
    } else {
        decimal_string(n as u64)
    }
}

/// Check if a property should be shown based on its show_if condition.
pub fn should_show_property(prop_def: &PropertyDef, properties: &Vec<Property>) -> (r: bool)
    ensures
        r == match prop_def.show_if {
            None => true,
            Some(cond) => condition_holds(cond@, properties@),
        },
{
    let show_if = match &prop_def.show_if {
        None => {
            return true;
        },
        Some(s) => s,
    };
    let cond = to_chars(show_if.as_str());
    let eq = ['='];
    proof {
        assert(eq@ =~= seq!['=']);
    }
    match find(&cond, &eq) {
        None => true,
        Some(k) => {
            proof {
                assert(crate::text::occurs_at(cond@, eq@, k as int));
                assert(k + 1 <= cond@.len());
                assert(cond@.subrange(0, k as int) =~= cond@.take(k as int));
                assert(cond@.subrange(k + 1, cond@.len() as int) =~= cond@.skip(k + 1));
            }
            let len = cond.len();
            assert(k + 1 <= len);
            let (a, b) = trim_bounds(&cond, 0, k);
            let (c, d) = trim_bounds(&cond, k + 1, len);
            let name = string_from_range(&cond, a, b);
            let expected = string_from_range(&cond, c, d);
            match get_property(properties, name.as_str()) {
                None => false,
                Some(actual) => match actual {
                    Value::String(s) => str_equal(s.as_str(), expected.as_str()),
                    Value::Bool(v) => {
                        let text = if *v {
                            String::from_str("true")
                        } else {
                            String::from_str("false")
                        };
                        proof {
                            reveal_strlit("true");
                            reveal_strlit("false");
                        }
                        str_equal(text.as_str(), expected.as_str())
                    },
                    Value::Int(n) => {
                        let text = int_to_text(*n);
                        str_equal(text.as_str(), expected.as_str())
                    },
                    _ => false,
                },
            }
        },
    }
}

} // verus!
