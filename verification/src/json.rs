//! JSON documents as the gateway reads and writes them, with a mathematical
//! model (`JsonValue`) that the contracts speak of.
//!
//! Objects keep their members as a sequence; a lookup finds the first member
//! with the key, as a map with unique keys would.
use vstd::prelude::*;
use crate::text::{owned, str_eq};
use serde_json::Value;

verus! {

/// A JSON number: a non-negative integer, a negative integer, or any other
/// number, held by its decimal text.
#[derive(Debug)]
pub enum JsonNumber {
    PosInt(u64),
    NegInt(i64),
    Float(String),
}

/// A JSON document.
#[derive(Debug)]
pub enum Json {
    Null,
    Bool(bool),
    Number(JsonNumber),
    String(String),
    Array(Vec<Json>),
    Object(Vec<(String, Json)>),
}

/// The model of a JSON number.
pub enum NumberValue {
    PosInt(u64),
    NegInt(i64),
    Float(Seq<char>),
}

/// The model of a JSON document.
pub enum JsonValue {
    Null,
    Bool(bool),
    Number(NumberValue),
    String(Seq<char>),
    Array(Seq<JsonValue>),
    Object(Seq<(Seq<char>, JsonValue)>),
}

impl View for JsonNumber {
    type V = NumberValue;

    open spec fn view(&self) -> NumberValue {
        match self {
            JsonNumber::PosInt(n) => NumberValue::PosInt(*n),
            JsonNumber::NegInt(n) => NumberValue::NegInt(*n),
            JsonNumber::Float(t) => NumberValue::Float(t@),
        }
    }
}

/// The model of `j`.
pub open spec fn json_model(j: Json) -> JsonValue
    decreases j,
{
    match j {
        Json::Null => JsonValue::Null,
        Json::Bool(b) => JsonValue::Bool(b),
        Json::Number(n) => JsonValue::Number(n@),
        Json::String(s) => JsonValue::String(s@),
        Json::Array(v) => JsonValue::Array(
            Seq::new(
                v@.len(),
                |i: int|
                    if 0 <= i < v@.len() {
                        json_model(v@[i])
                    } else {
                        JsonValue::Null
                    },
            ),
        ),
        Json::Object(v) => JsonValue::Object(
            Seq::new(
                v@.len(),
                |i: int|
                    if 0 <= i < v@.len() {
                        (v@[i].0@, json_model(v@[i].1))
                    } else {
                        (Seq::empty(), JsonValue::Null)
                    },
            ),
        ),
    }
}

impl View for Json {
    type V = JsonValue;

    open spec fn view(&self) -> JsonValue {
        json_model(*self)
    }
}

/// The model of an optional borrowed document.
pub open spec fn opt_view(r: Option<&Json>) -> Option<JsonValue> {
    match r {
        Some(j) => Some(j@),
        None => None,
    }
}

/// `i` is the position of the first member of `fields` whose key is `key`.
pub open spec fn is_first_field(fields: Seq<(Seq<char>, JsonValue)>, key: Seq<char>, i: int) -> bool {
    &&& 0 <= i < fields.len()
    &&& fields[i].0 == key
    &&& forall|j: int| 0 <= j < i ==> fields[j].0 != key
}

/// The position of the first member of `fields` whose key is `key`.
pub open spec fn field_index(fields: Seq<(Seq<char>, JsonValue)>, key: Seq<char>) -> Option<int> {
    if exists|i: int| is_first_field(fields, key, i) {
        Some(choose|i: int| is_first_field(fields, key, i))
    } else {
        None
    }
}

/// `fields` with the member `key` set to `value`: the first member with that
/// key is replaced, or the member is appended.
pub open spec fn fields_insert(
    fields: Seq<(Seq<char>, JsonValue)>,
    key: Seq<char>,
    value: JsonValue,
) -> Seq<(Seq<char>, JsonValue)> {
    match field_index(fields, key) {
        Some(i) => fields.update(i, (key, value)),
        None => fields.push((key, value)),
    }
}

/// `fields` without the first member whose key is `key`.
pub open spec fn fields_remove(fields: Seq<(Seq<char>, JsonValue)>, key: Seq<char>) -> Seq<
    (Seq<char>, JsonValue),
> {
    match field_index(fields, key) {
        Some(i) => fields.remove(i),
        None => fields,
    }
}

/// Whether `tok` is an array index token of a JSON pointer, and which:
/// decimal digits, without a leading zero unless it is `0`, that fit `usize`.
pub open spec fn index_token(tok: Seq<char>) -> Option<nat> {
    if tok.len() > 0 && tok[0] == '+' || (tok.len() > 1 && tok[0] == '0') {
        None
    } else {
        crate::text::parse_unsigned(tok, usize::MAX as nat)
    }
}

impl JsonValue {
    /// `Value::get` with a string key: the member of an object.
    pub open spec fn get(self, key: Seq<char>) -> Option<JsonValue> {
        match self {
            JsonValue::Object(fields) => match field_index(fields, key) {
                Some(i) => Some(fields[i].1),
                None => None,
            },
            _ => None,
        }
    }

    /// `Value::get` with an integer index: the element of an array.
    pub open spec fn at(self, i: int) -> Option<JsonValue> {
        match self {
            JsonValue::Array(items) => if 0 <= i < items.len() {
                Some(items[i])
            } else {
                None
            },
            _ => None,
        }
    }

    /// One step of a JSON pointer.
    pub open spec fn step(self, tok: Seq<char>) -> Option<JsonValue> {
        match self {
            JsonValue::Object(_) => self.get(tok),
            JsonValue::Array(_) => match index_token(tok) {
                Some(n) => self.at(n as int),
                None => None,
            },
            _ => None,
        }
    }

    /// `Value::pointer` for the pointer whose reference tokens are `path`.
    pub open spec fn pointer(self, path: Seq<Seq<char>>) -> Option<JsonValue>
        decreases path.len(),
    {
        if path.len() == 0 {
            Some(self)
        } else {
            match self.step(path[0]) {
                Some(next) => next.pointer(path.drop_first()),
                None => None,
            }
        }
    }

    /// `Value::as_str`.
    pub open spec fn as_str(self) -> Option<Seq<char>> {
        match self {
            JsonValue::String(s) => Some(s),
            _ => None,
        }
    }

    /// `Value::as_bool`.
    pub open spec fn as_bool(self) -> Option<bool> {
        match self {
            JsonValue::Bool(b) => Some(b),
            _ => None,
        }
    }

    /// `Value::as_u64`.
    pub open spec fn as_u64(self) -> Option<u64> {
        match self {
            JsonValue::Number(NumberValue::PosInt(n)) => Some(n),
            _ => None,
        }
    }

    /// `Value::as_array`, as the sequence of elements.
    pub open spec fn as_array(self) -> Option<Seq<JsonValue>> {
        match self {
            JsonValue::Array(items) => Some(items),
            _ => None,
        }
    }

    /// `Value::as_i64().is_some() || Value::as_u64().is_some()`.
    pub open spec fn is_integer(self) -> bool {
        self matches JsonValue::Number(NumberValue::PosInt(_))
            || self matches JsonValue::Number(NumberValue::NegInt(_))
    }

    /// The document with the member `key` of an object set to `value`;
    /// any other document is unchanged.
    pub open spec fn with_field(self, key: Seq<char>, value: JsonValue) -> JsonValue {
        match self {
            JsonValue::Object(fields) => JsonValue::Object(fields_insert(fields, key, value)),
            _ => self,
        }
    }

    /// The document without the member `key` of an object.
    pub open spec fn without_field(self, key: Seq<char>) -> JsonValue {
        match self {
            JsonValue::Object(fields) => JsonValue::Object(fields_remove(fields, key)),
            _ => self,
        }
    }
}

/// No two members of `fields` have the same key, as in any object read
/// from JSON text.
pub open spec fn distinct_keys(fields: Seq<(Seq<char>, JsonValue)>) -> bool {
    forall|i: int, j: int| 0 <= i < j < fields.len() ==> fields[i].0 != fields[j].0
}

/// After setting a member, reading it gives what was set.
pub proof fn law_set_member_is_read_back(fields: Seq<(Seq<char>, JsonValue)>, key: Seq<char>, value: JsonValue)
    ensures
        JsonValue::Object(fields).with_field(key, value).get(key) == Some(value),
{
    let updated = fields_insert(fields, key, value);
    match field_index(fields, key) {
        Some(i) => {
            assert(is_first_field(updated, key, i));
            let c = choose|k: int| is_first_field(updated, key, k);
            if c < i {
                assert(updated[c] == fields[c]);
            } else if i < c {
                assert(updated[i] == (key, value));
            }
        },
        None => {
            let n = fields.len() as int;
            assert forall|j: int| 0 <= j < n implies fields[j].0 != key by {
                if fields[j].0 == key {
                    lemma_first_match_exists(fields, key, j);
                }
            }
            assert(is_first_field(updated, key, n));
            let c = choose|k: int| is_first_field(updated, key, k);
            if c < n {
                assert(updated[c] == fields[c]);
            }
        },
    }
}

proof fn lemma_first_match_exists(fields: Seq<(Seq<char>, JsonValue)>, key: Seq<char>, j: int)
    requires
        0 <= j < fields.len(),
        fields[j].0 == key,
    ensures
        exists|i: int| is_first_field(fields, key, i),
    decreases j,
{
    if exists|m: int| 0 <= m < j && fields[m].0 == key {
        let m = choose|m: int| 0 <= m < j && fields[m].0 == key;
        lemma_first_match_exists(fields, key, m);
    } else {
        assert(is_first_field(fields, key, j));
    }
}

/// Setting one member leaves every other member as it was.
pub proof fn law_set_member_keeps_others(
    fields: Seq<(Seq<char>, JsonValue)>,
    key: Seq<char>,
    value: JsonValue,
    other: Seq<char>,
)
    requires
        other != key,
    ensures
        JsonValue::Object(fields).with_field(key, value).get(other) == JsonValue::Object(fields).get(
            other,
        ),
{
    let updated = fields_insert(fields, key, value);
    assert forall|i: int| is_first_field(updated, other, i) <==> is_first_field(fields, other, i) by {
        if 0 <= i < updated.len() && i < fields.len() {
            assert forall|m: int| 0 <= m < i implies (updated[m].0 != other <==> fields[m].0 != other) by {
                if field_index(fields, key) is Some && m == field_index(fields, key)->0 {
                } else {
                    assert(updated[m] == fields[m]);
                }
            }
            if field_index(fields, key) is Some && i == field_index(fields, key)->0 {
                assert(fields[i].0 == key);
            } else {
                assert(updated[i] == fields[i]);
            }
        }
        if i == fields.len() && field_index(fields, key) is None {
            assert(updated[i].0 == key);
        }
    }
    if exists|i: int| is_first_field(updated, other, i) {
        let i = choose|i: int| is_first_field(updated, other, i);
        assert(is_first_field(fields, other, i));
        if field_index(fields, key) is Some && i == field_index(fields, key)->0 {
        } else if i < fields.len() {
            assert(updated[i] == fields[i]);
        }
    }
}

/// Removing a member of an object whose keys are distinct leaves no member
/// with that key.
pub proof fn law_removed_member_is_gone(fields: Seq<(Seq<char>, JsonValue)>, key: Seq<char>)
    requires
        distinct_keys(fields),
    ensures
        JsonValue::Object(fields).without_field(key).get(key) is None,
{
    let rest = fields_remove(fields, key);
    if exists|i: int| is_first_field(rest, key, i) {
        let i = choose|i: int| is_first_field(rest, key, i);
        match field_index(fields, key) {
            Some(k) => {
                if i < k {
                    assert(rest[i] == fields[i]);
                } else {
                    assert(rest[i] == fields[i + 1]);
                    assert(fields[k].0 == key);
                }
            },
            None => {
                lemma_first_match_exists(fields, key, i);
            },
        }
    }
}

/// The members of `fields` as modelled.
pub open spec fn fields_model(fields: Seq<(String, Json)>) -> Seq<(Seq<char>, JsonValue)> {
    Seq::new(fields.len(), |i: int| (fields[i].0@, fields[i].1@))
}

pub proof fn lemma_object_model(j: Json)
    requires
        j is Object,
    ensures
        j@ == JsonValue::Object(fields_model(j->Object_0@)),
{
    assert(j@->Object_0 =~= fields_model(j->Object_0@));
}

/// The position of the first member of `fields` with key `key`.
fn find_field(fields: &Vec<(String, Json)>, key: &str) -> (r: Option<usize>)
    ensures
        match r {
            Some(i) => field_index(fields_model(fields@), key@) == Some(i as int),
            None => field_index(fields_model(fields@), key@) is None,
        },
{
    let ghost m = fields_model(fields@);
    let mut i: usize = 0;
    while i < fields.len()
        invariant
            i <= fields@.len(),
            m == fields_model(fields@),
            forall|j: int| 0 <= j < i ==> m[j].0 != key@,
        decreases fields.len() - i,
    {
        if str_eq(fields[i].0.as_str(), key) {
            assert(is_first_field(m, key@, i as int));
            let ghost c = choose|k: int| is_first_field(m, key@, k);
            assert(c == i) by {
                if c < i {
                    assert(m[c].0 != key@);
                } else if c > i {
                    assert(m[i as int].0 != key@);
                }
            }
            return Some(i);
        }
        i = i + 1;
    }
    assert(!exists|k: int| is_first_field(m, key@, k));
    None
}

impl Json {
    /// The object with members `fields`.
    pub fn object(fields: Vec<(String, Json)>) -> (j: Json)
        ensures
            j@ == JsonValue::Object(fields_model(fields@)),
    {
        let j = Json::Object(fields);
        proof {
            lemma_object_model(j);
        }
        j
    }

    /// A JSON string holding `s`.
    pub fn string(s: &str) -> (j: Json)
        ensures
            j@ == JsonValue::String(s@),
    {
        Json::String(owned(s))
    }

    /// `Value::get` with a string key.
    pub fn get(&self, key: &str) -> (r: Option<&Json>)
        ensures
            opt_view(r) == self@.get(key@),
    {
        match self {
            Json::Object(fields) => {
                proof {
                    lemma_object_model(*self);
                }
                match find_field(fields, key) {
                    Some(i) => Some(&fields[i].1),
                    None => None,
                }
            },
            _ => None,
        }
    }

    /// `Value::get` with an integer index.
    pub fn at(&self, i: usize) -> (r: Option<&Json>)
        ensures
            opt_view(r) == self@.at(i as int),
    {
        match self {
            Json::Array(items) => {
                if i < items.len() {
                    Some(&items[i])
                } else {
                    None
                }
            },
            _ => None,
        }
    }

    /// One step of a JSON pointer.
    pub fn step(&self, tok: &str) -> (r: Option<&Json>)
        ensures
            opt_view(r) == self@.step(tok@),
    {
        match self {
            Json::Object(_) => self.get(tok),
            Json::Array(items) => {
                let cs = crate::text::chars_of(tok);
                if (cs.len() > 0 && cs[0] == '+') || (cs.len() > 1 && cs[0] == '0') {
                    return None;
                }
                match crate::text::parse_u64(tok) {
                    Some(n) => {
                        if n <= usize::MAX as u64 {
                            self.at(n as usize)
                        } else {
                            None
                        }
                    },
                    None => None,
                }
            },
            _ => None,
        }
    }

    /// `Value::pointer` for the pointer whose reference tokens are `path`.
    pub fn pointer(&self, path: &[&str]) -> (r: Option<&Json>)
        ensures
            opt_view(r) == self@.pointer(path@.map_values(|t: &str| t@)),
    {
        let ghost full = path@.map_values(|t: &str| t@);
        let mut cur = self;
        let mut i: usize = 0;
        assert(full.subrange(0, full.len() as int) =~= full);
        while i < path.len()
            invariant
                i <= path@.len(),
                full == path@.map_values(|t: &str| t@),
                self@.pointer(full) == cur@.pointer(full.subrange(i as int, full.len() as int)),
            decreases path.len() - i,
        {
            let ghost rest = full.subrange(i as int, full.len() as int);
            assert(rest[0] == path@[i as int]@);
            assert(rest.drop_first() =~= full.subrange(i + 1, full.len() as int));
            match cur.step(path[i]) {
                Some(next) => {
                    cur = next;
                },
                None => {
                    return None;
                },
            }
            i = i + 1;
        }
        assert(full.subrange(i as int, full.len() as int).len() == 0);
        Some(cur)
    }

    /// `Value::as_str`.
    pub fn as_str(&self) -> (r: Option<&str>)
        ensures
            match r {
                Some(s) => self@.as_str() == Some(s@),
                None => self@.as_str() is None,
            },
    {
        match self {
            Json::String(s) => Some(s.as_str()),
            _ => None,
        }
    }

    /// `Value::as_bool`.
    pub fn as_bool(&self) -> (r: Option<bool>)
        ensures
            r == self@.as_bool(),
    {
        match self {
            Json::Bool(b) => Some(*b),
            _ => None,
        }
    }

    /// `Value::as_u64`.
    pub fn as_u64(&self) -> (r: Option<u64>)
        ensures
            r == self@.as_u64(),
    {
        match self {
            Json::Number(JsonNumber::PosInt(n)) => Some(*n),
            _ => None,
        }
    }

    /// `Value::as_array`.
    pub fn as_array(&self) -> (r: Option<&Vec<Json>>)
        ensures
            match r {
                Some(v) => self@.as_array() == Some(v@.map_values(|x: Json| x@)),
                None => self@.as_array() is None,
            },
    {
        match self {
            Json::Array(items) => {
                assert(self@->Array_0 =~= items@.map_values(|x: Json| x@));
                Some(items)
            },
            _ => None,
        }
    }

    /// A copy of the document.
    #[verifier::loop_isolation(false)]
    pub fn copy(&self) -> (r: Json)
        ensures
            r@ == self@,
        decreases self,
    {
        match self {
            Json::Null => Json::Null,
            Json::Bool(b) => Json::Bool(*b),
            Json::Number(JsonNumber::PosInt(n)) => Json::Number(JsonNumber::PosInt(*n)),
            Json::Number(JsonNumber::NegInt(n)) => Json::Number(JsonNumber::NegInt(*n)),
            Json::Number(JsonNumber::Float(t)) => Json::Number(JsonNumber::Float(t.clone())),
            Json::String(s) => Json::String(s.clone()),
            Json::Array(items) => {
                let mut out: Vec<Json> = Vec::new();
                let mut i: usize = 0;
                while i < items.len()
                    invariant
                        i <= items@.len(),
                        out@.len() == i,
                        forall|k: int| 0 <= k < i ==> (#[trigger] out@[k])@ == items@[k]@,
                    decreases items.len() - i,
                {
                    assert(decreases_to!(*self => (*self)->Array_0));
                    assert(decreases_to!(*items => items@));
                    assert(decreases_to!(items@ => items@[i as int]));
                    out.push(items[i].copy());
                    i = i + 1;
                }
                let r = Json::Array(out);
                assert(r@->Array_0 =~= self@->Array_0);
                r
            },
            Json::Object(fields) => {
                let mut out: Vec<(String, Json)> = Vec::new();
                let mut i: usize = 0;
                while i < fields.len()
                    invariant
                        i <= fields@.len(),
                        out@.len() == i,
                        forall|k: int|
                            0 <= k < i ==> (#[trigger] out@[k]).0@ == fields@[k].0@ && out@[k].1@
                                == fields@[k].1@,
                    decreases fields.len() - i,
                {
                    assert(decreases_to!(*self => (*self)->Object_0));
                    assert(decreases_to!(*fields => fields@));
                    assert(decreases_to!(fields@ => fields@[i as int]));
                    assert(decreases_to!(fields@[i as int] => fields@[i as int].1));
                    let v = fields[i].1.copy();
                    out.push((fields[i].0.clone(), v));
                    i = i + 1;
                }
                let r = Json::Object(out);
                assert(r@->Object_0 =~= self@->Object_0);
                r
            },
        }
    }

    /// `Map::insert` on an object: sets the member `key` to `value`; any
    /// other document is left as it is.
    pub fn insert(&mut self, key: String, value: Json)
        ensures
            final(self)@ == old(self)@.with_field(key@, value@),
    {
        match self {
            Json::Object(fields) => {
                proof {
                    lemma_object_model(*old(self));
                }
                let ghost old_fields = fields@;
                match find_field(fields, key.as_str()) {
                    Some(i) => {
                        fields.set(i, (key, value));
                    },
                    None => {
                        fields.push((key, value));
                    },
                }
                proof {
                    lemma_object_model(*self);
                    assert(fields_model(fields@) =~= fields_insert(
                        fields_model(old_fields),
                        key@,
                        value@,
                    ));
                }
            },
            _ => {},
        }
    }

    /// `Map::remove` on an object: drops the member `key`; any other
    /// document is left as it is.
    pub fn remove(&mut self, key: &str)
        ensures
            final(self)@ == old(self)@.without_field(key@),
    {
        match self {
            Json::Object(fields) => {
                proof {
                    lemma_object_model(*old(self));
                }
                let ghost old_fields = fields@;
                match find_field(fields, key) {
                    Some(i) => {
                        fields.remove(i);
                    },
                    None => {},
                }
                proof {
                    lemma_object_model(*self);
                    assert(fields_model(fields@) =~= fields_remove(
                        fields_model(old_fields),
                        key@,
                    ));
                }
            },
            _ => {},
        }
    }
}

/// The document that `serde_json` reads from JSON text, or `None` when the
/// text is not JSON.
pub uninterp spec fn json_text_value(text: Seq<char>) -> Option<JsonValue>;

#[verifier::external_type_specification]
#[verifier::external_body]
pub struct ExSerdeValue(serde_json::Value);

/// A `serde_json::Value` as the library's `Json`, variant for variant: a
/// number by its `u64`, else its `i64`, else its decimal text.
#[verifier::external_body]
fn json_of_value(value: &Value) -> Json {
    match value {
        Value::Null => Json::Null,
        Value::Bool(b) => Json::Bool(*b),
        Value::Number(n) => Json::Number(match (n.as_u64(), n.as_i64()) {
            (Some(u), _) => JsonNumber::PosInt(u),
            (None, Some(i)) => JsonNumber::NegInt(i),
            (None, None) => JsonNumber::Float(n.to_string()),
        }),
        Value::String(t) => Json::String(t.clone()),
        Value::Array(items) => Json::Array(items.iter().map(json_of_value).collect()),
        Value::Object(map) => Json::Object(
            map.iter().map(|(k, v)| (k.clone(), json_of_value(v))).collect(),
        ),
    }
}

/// `serde_json::from_str::<serde_json::Value>`, read as the library's
/// `Json`: the contract names the document read from `text`
/// `json_text_value` and states nothing of how JSON is parsed.
#[verifier::external_body]
pub(crate) fn parse_json(text: &str) -> (r: Option<Json>)
    ensures
        match r {
            Some(j) => json_text_value(text@) == Some(j@),
            None => json_text_value(text@) is None,
        },
{
    match serde_json::from_str::<serde_json::Value>(text) {
        Ok(value) => Some(json_of_value(&value)),
        Err(_) => None,
    }
}

} // verus!
