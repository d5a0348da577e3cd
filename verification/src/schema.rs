//! The JSON Schema subset that structured output is checked against:
//! `type`, `required`, `properties` and `items`.
use vstd::prelude::*;
use crate::json::{Json, JsonValue, NumberValue, field_index, fields_model};
use crate::text::str_eq;

verus! {

/// Whether `value` has the JSON type named `name`; an unknown name matches
/// nothing.
pub open spec fn type_matches(value: JsonValue, name: Seq<char>) -> bool {
    if name == "object"@ {
        value is Object
    } else if name == "array"@ {
        value is Array
    } else if name == "string"@ {
        value is String
    } else if name == "number"@ {
        value is Number
    } else if name == "integer"@ {
        value.is_integer()
    } else if name == "boolean"@ {
        value is Bool
    } else if name == "null"@ {
        value is Null
    } else {
        false
    }
}

/// A member of an object is smaller than the object.
pub proof fn lemma_member_smaller(j: JsonValue, key: Seq<char>)
    ensures
        j.get(key) matches Some(v) ==> decreases_to!(j => v),
{
    if let JsonValue::Object(fields) = j {
        if let Some(i) = field_index(fields, key) {
            assert(decreases_to!(j => j->Object_0));
            assert(decreases_to!(fields => fields[i]));
            assert(decreases_to!(fields[i] => fields[i].1));
        }
    }
}

/// Whether `value` satisfies `schema`:
/// - a string `type` names the JSON type the value must have;
/// - an array `required` lists the members (those given as strings) that the
///   value, which must then be an object, must have;
/// - when the value is an object and `properties` is an object, each member
///   of the value named there satisfies the schema given for it;
/// - when the value is an array and `items` is present, every element
///   satisfies `items`.
pub open spec fn schema_matches(value: JsonValue, schema: JsonValue) -> bool
    decreases schema,
{
    proof {
        lemma_member_smaller(schema, "properties"@);
        lemma_member_smaller(schema, "items"@);
    }
    &&& match schema.get("type"@) {
        Some(JsonValue::String(name)) => type_matches(value, name),
        _ => true,
    }
    &&& match schema.get("required"@) {
        Some(JsonValue::Array(required)) => {
            &&& value is Object
            &&& forall|i: int|
                0 <= i < required.len() ==> match #[trigger] required[i] {
                    JsonValue::String(field) => value.get(field) is Some,
                    _ => true,
                }
        },
        _ => true,
    }
    &&& match (value, schema.get("properties"@)) {
        (JsonValue::Object(_), Some(JsonValue::Object(props))) => forall|i: int|
            0 <= i < props.len() ==> match value.get(#[trigger] props[i].0) {
                Some(member) => schema_matches(member, props[i].1),
                None => true,
            },
        _ => true,
    }
    &&& match (value, schema.get("items"@)) {
        (JsonValue::Array(items), Some(item_schema)) => forall|i: int|
            0 <= i < items.len() ==> schema_matches(#[trigger] items[i], item_schema),
        _ => true,
    }
}

/// A schema without constraints (`{}`) accepts every value.
pub proof fn law_empty_schema_accepts_everything(value: JsonValue)
    ensures
        schema_matches(value, JsonValue::Object(Seq::empty())),
{
    let s = JsonValue::Object(Seq::empty());
    assert(!exists|i: int| crate::json::is_first_field(Seq::empty(), "type"@, i));
    assert(!exists|i: int| crate::json::is_first_field(Seq::empty(), "required"@, i));
    assert(!exists|i: int| crate::json::is_first_field(Seq::empty(), "properties"@, i));
    assert(!exists|i: int| crate::json::is_first_field(Seq::empty(), "items"@, i));
}

/// The schema type `number` accepts exactly the JSON numbers, integers
/// and fractions alike, so every value of type `integer` is also of type
/// `number`; and the schema `{"type": "number"}` accepts every number.
pub proof fn law_number_type_accepts_every_number(value: JsonValue)
    ensures
        type_matches(value, "number"@) <==> value is Number,
        type_matches(value, "integer"@) ==> type_matches(value, "number"@),
        value is Number ==> schema_matches(
            value,
            JsonValue::Object(seq![("type"@, JsonValue::String("number"@))]),
        ),
{
    reveal_strlit("number");
    reveal_strlit("object");
    reveal_strlit("array");
    reveal_strlit("string");
    reveal_strlit("integer");
    reveal_strlit("type");
    reveal_strlit("required");
    reveal_strlit("properties");
    reveal_strlit("items");
    assert("number"@[0] != "object"@[0]);
    assert("number"@ != "object"@);
    assert("number"@ != "array"@);
    assert("number"@[0] != "string"@[0]);
    assert("number"@ != "string"@);
    assert("integer"@ != "object"@);
    assert("integer"@[0] != "array"@[0]);
    assert("integer"@ != "array"@);
    assert("integer"@ != "string"@);
    assert("integer"@ != "number"@);
    let fields = seq![("type"@, JsonValue::String("number"@))];
    let schema = JsonValue::Object(fields);
    assert(crate::json::is_first_field(fields, "type"@, 0));
    let c = choose|i: int| crate::json::is_first_field(fields, "type"@, i);
    assert(c == 0);
    assert(schema.get("type"@) == Some(JsonValue::String("number"@)));
    assert("type"@[0] != "required"@[0]);
    assert("type"@ != "required"@);
    assert("type"@ != "properties"@);
    assert("type"@ != "items"@);
    assert(!exists|i: int| crate::json::is_first_field(fields, "required"@, i));
    assert(!exists|i: int| crate::json::is_first_field(fields, "properties"@, i));
    assert(!exists|i: int| crate::json::is_first_field(fields, "items"@, i));
}

/// Whether `value` has the JSON type named `name`.
pub fn has_type(value: &Json, name: &str) -> (r: bool)
    ensures
        r == type_matches(value@, name@),
{
    if str_eq(name, "object") {
        matches!(value, Json::Object(_))
    } else if str_eq(name, "array") {
        matches!(value, Json::Array(_))
    } else if str_eq(name, "string") {
        matches!(value, Json::String(_))
    } else if str_eq(name, "number") {
        matches!(value, Json::Number(_))
    } else if str_eq(name, "integer") {
        match value {
            Json::Number(crate::json::JsonNumber::PosInt(_)) => true,
            Json::Number(crate::json::JsonNumber::NegInt(_)) => true,
            _ => false,
        }
    } else if str_eq(name, "boolean") {
        matches!(value, Json::Bool(_))
    } else if str_eq(name, "null") {
        matches!(value, Json::Null)
    } else {
        false
    }
}

/// Whether `value` satisfies `schema` (see `schema_matches`).
#[verifier::loop_isolation(false)]
pub fn matches_schema(value: &Json, schema: &Json) -> (r: bool)
    ensures
        r == schema_matches(value@, schema@),
    decreases schema@,
{
    proof {
        lemma_member_smaller(schema@, "properties"@);
        lemma_member_smaller(schema@, "items"@);
        if value is Object {
            crate::json::lemma_object_model(*value);
        }
    }
    match schema.get("type") {
        Some(t) => match t.as_str() {
            Some(name) => {
                if !has_type(value, name) {
                    return false;
                }
            },
            None => {},
        },
        None => {},
    }
    match schema.get("required") {
        Some(req_json) => match req_json.as_array() {
            Some(req) => {
                if !matches!(value, Json::Object(_)) {
                    return false;
                }
                let ghost required = req@.map_values(|x: Json| x@);
                let mut i: usize = 0;
                while i < req.len()
                    invariant
                        i <= req@.len(),
                        required == req@.map_values(|x: Json| x@),
                        forall|j: int|
                            0 <= j < i ==> match #[trigger] required[j] {
                                JsonValue::String(field) => value@.get(field) is Some,
                                _ => true,
                            },
                    decreases req.len() - i,
                {
                    assert(required[i as int] == req@[i as int]@);
                    match req[i].as_str() {
                        Some(field) => {
                            if value.get(field).is_none() {
                                return false;
                            }
                        },
                        None => {},
                    }
                    i = i + 1;
                }
            },
            None => {},
        },
        None => {},
    }
    match value {
        Json::Object(_) => match schema.get("properties") {
            Some(p) => match p {
                Json::Object(props) => {
                    proof {
                        crate::json::lemma_object_model(*p);
                    }
                    let ghost pm = fields_model(props@);
                    let mut i: usize = 0;
                    while i < props.len()
                        invariant
                            i <= props@.len(),
                            pm == fields_model(props@),
                            p@ == JsonValue::Object(pm),
                            forall|j: int|
                                0 <= j < i ==> match value@.get(#[trigger] pm[j].0) {
                                    Some(member) => schema_matches(member, pm[j].1),
                                    None => true,
                                },
                        decreases props.len() - i,
                    {
                        let field = &props[i].0;
                        let field_schema = &props[i].1;
                        assert(pm[i as int] == (field@, field_schema@));
                        match value.get(field.as_str()) {
                            Some(member) => {
                                proof {
                                    assert(decreases_to!(p@ => p@->Object_0));
                                    assert(decreases_to!(pm => pm[i as int]));
                                    assert(decreases_to!(pm[i as int] => pm[i as int].1));
                                }
                                if !matches_schema(member, field_schema) {
                                    assert(value@.get(pm[i as int].0) == Some(member@));
                                    assert(schema@.get("properties"@) == Some(p@));
                                    return false;
                                }
                            },
                            None => {},
                        }
                        i = i + 1;
                    }
                },
                _ => {},
            },
            None => {},
        },
        _ => {},
    }
    match value {
        Json::Array(items) => match schema.get("items") {
            Some(item_schema) => {
                let mut i: usize = 0;
                while i < items.len()
                    invariant
                        i <= items@.len(),
                        forall|j: int|
                            0 <= j < i ==> schema_matches(
                                #[trigger] value@->Array_0[j],
                                item_schema@,
                            ),
                    decreases items.len() - i,
                {
                    assert(value@->Array_0[i as int] == items@[i as int]@);
                    if !matches_schema(&items[i], item_schema) {
                        return false;
                    }
                    i = i + 1;
                }
            },
            None => {},
        },
        _ => {},
    }
    true
}

} // verus!
