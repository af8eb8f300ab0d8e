//! JSON documents as plain data.
//!
//! A [`JsonValue`] is a JSON document with its numbers told apart as
//! `serde_json` tells them apart, floating-point numbers being held as bit
//! patterns. Documents of `serde_json` are read into it.
use vstd::prelude::*;

verus! {

/// A JSON number.
#[derive(Debug, Clone, Copy, PartialEq, Eq, Structural)]
pub enum JsonNumber {
    /// An integer that is not negative.
    PosInt(u64),
    /// A negative integer.
    NegInt(i64),
    /// A floating-point number, by the bit pattern of its double.
    Float(u64),
}

/// A JSON document.
#[derive(Debug)]
pub enum JsonValue {
    Null,
    Bool(bool),
    Number(JsonNumber),
    String(String),
    Array(Vec<JsonValue>),
    /// The members in order, each with its name.
    Object(Vec<(String, JsonValue)>),
}

/// What a JSON document stands for.
pub enum JsonView {
    Null,
    Bool(bool),
    Number(JsonNumber),
    String(Seq<char>),
    Array(Seq<JsonView>),
    Object(Seq<(Seq<char>, JsonView)>),
}

impl View for JsonValue {
    type V = JsonView;

    open spec fn view(&self) -> JsonView
        decreases self,
    {
        match self {
            JsonValue::Null => JsonView::Null,
            JsonValue::Bool(b) => JsonView::Bool(*b),
            JsonValue::Number(n) => JsonView::Number(*n),
            JsonValue::String(s) => JsonView::String(s@),
            JsonValue::Array(items) => JsonView::Array(
                Seq::new(
                    items@.len(),
                    |i: int|
                        if 0 <= i < items@.len() {
                            items@[i].view()
                        } else {
                            JsonView::Null
                        },
                ),
            ),
            JsonValue::Object(members) => JsonView::Object(
                Seq::new(
                    members@.len(),
                    |i: int|
                        if 0 <= i < members@.len() {
                            (members@[i].0@, members@[i].1.view())
                        } else {
                            (Seq::empty(), JsonView::Null)
                        },
                ),
            ),
        }
    }
}

/// The views of `documents`.
pub open spec fn documents_of(documents: Seq<JsonValue>) -> Seq<JsonView> {
    Seq::new(documents.len(), |i: int| documents[i]@)
}

/// The names and views of `members`.
pub open spec fn named_documents_of(members: Seq<(String, JsonValue)>) -> Seq<
    (Seq<char>, JsonView),
> {
    Seq::new(members.len(), |i: int| (members[i].0@, members[i].1@))
}

/// An array stands for the views of its items.
pub proof fn lemma_view_of_array(items: Vec<JsonValue>)
    ensures
        JsonValue::Array(items)@ == JsonView::Array(documents_of(items@)),
{
    reveal_with_fuel(<JsonValue as View>::view, 2);
    assert(JsonValue::Array(items)@->Array_0 =~= documents_of(items@));
}

/// An object stands for the names and views of its members.
pub proof fn lemma_view_of_object(members: Vec<(String, JsonValue)>)
    ensures
        JsonValue::Object(members)@ == JsonView::Object(named_documents_of(members@)),
{
    reveal_with_fuel(<JsonValue as View>::view, 2);
    assert(JsonValue::Object(members)@->Object_0 =~= named_documents_of(members@));
}

/// `serde_json::Value`, a JSON document. Nothing is known of what is inside
/// one but what the functions below say.
#[verifier::external_type_specification]
#[verifier::external_body]
pub struct ExSerdeValue(serde_json::Value);

/// `serde_json::Map`, the map that an object holds its members in. Nothing
/// is known of what is inside one but what the functions below say.
#[verifier::external_type_specification]
#[verifier::external_body]
#[verifier::reject_recursive_types(K)]
#[verifier::reject_recursive_types(V)]
pub struct ExSerdeMap<K, V>(serde_json::Map<K, V>);

/// What a document of `serde_json` holds: its kind and content, the members
/// of an object in the order in which its map hands them out.
pub uninterp spec fn json_view(v: serde_json::Value) -> JsonView;

/// What the map of an object of `serde_json` holds: the names and contents of
/// its members, in the order in which it hands them out.
pub uninterp spec fn json_members(map: serde_json::Map<String, serde_json::Value>) -> Seq<
    (Seq<char>, JsonView),
>;

/// The views of the documents in `items`.
pub open spec fn json_views(items: Seq<serde_json::Value>) -> Seq<JsonView> {
    Seq::new(items.len(), |i: int| json_view(items[i]))
}

/// The names and views of `members`.
pub open spec fn member_views(members: Seq<(&String, &serde_json::Value)>) -> Seq<
    (Seq<char>, JsonView),
> {
    Seq::new(members.len(), |i: int| (members[i].0@, json_view(*members[i].1)))
}

/// `Value::as_bool` gives the truth value of a boolean and nothing for any
/// other document.
pub assume_specification[ serde_json::Value::as_bool ](v: &serde_json::Value) -> (r: Option<bool>)
    ensures
        r == (match json_view(*v) {
            JsonView::Bool(b) => Some(b),
            _ => None,
        }),
;

/// `Value::is_f64` tells whether the document is a floating-point number.
pub assume_specification[ serde_json::Value::is_f64 ](v: &serde_json::Value) -> (r: bool)
    ensures
        r == (json_view(*v) matches JsonView::Number(JsonNumber::Float(_))),
;

/// `Value::as_u64` gives the amount of an integer that is not negative and
/// nothing for any other document.
pub assume_specification[ serde_json::Value::as_u64 ](v: &serde_json::Value) -> (r: Option<u64>)
    ensures
        r == (match json_view(*v) {
            JsonView::Number(JsonNumber::PosInt(n)) => Some(n),
            _ => None,
        }),
;

/// `Value::as_i64` gives the amount of an integer that fits: of a negative
/// one, and of one that is not negative up to the greatest `i64`. It gives
/// nothing for any other document.
pub assume_specification[ serde_json::Value::as_i64 ](v: &serde_json::Value) -> (r: Option<i64>)
    ensures
        r == (match json_view(*v) {
            JsonView::Number(JsonNumber::PosInt(n)) => if n <= i64::MAX {
                Some(n as i64)
            } else {
                None
            },
            JsonView::Number(JsonNumber::NegInt(n)) => Some(n),
            _ => None,
        }),
;

/// `Value::as_str` gives the text of a string and nothing for any other
/// document.
pub assume_specification<'a>[ serde_json::Value::as_str ](v: &'a serde_json::Value) -> (r: Option<
    &'a str,
>)
    ensures
        match r {
            Some(text) => json_view(*v) == JsonView::String(text@),
            None => !(json_view(*v) is String),
        },
;

/// `Value::as_array` gives the items of an array and nothing for any other
/// document.
pub assume_specification<'a>[ serde_json::Value::as_array ](v: &'a serde_json::Value) -> (r:
    Option<&'a Vec<serde_json::Value>>)
    ensures
        match r {
            Some(items) => json_view(*v) == JsonView::Array(json_views(items@)),
            None => !(json_view(*v) is Array),
        },
;

/// `Value::as_f64` gives a floating-point number as it is, here by its bit
/// pattern, an integer as the double nearest to it, and nothing for a
/// document that is no number.
#[verifier::external_body]
fn serde_double_bits(v: &serde_json::Value) -> (r: Option<u64>)
    ensures
        r is Some <==> json_view(*v) is Number,
        json_view(*v) matches JsonView::Number(JsonNumber::Float(bits)) ==> r == Some(bits),
{
    v.as_f64().map(|double| double.to_bits())
}

/// `Value::as_object` gives the map of an object and nothing for any other
/// document.
pub assume_specification<'a>[ serde_json::Value::as_object ](v: &'a serde_json::Value) -> (r:
    Option<&'a serde_json::Map<String, serde_json::Value>>)
    ensures
        match r {
            Some(map) => json_view(*v) == JsonView::Object(json_members(*map)),
            None => !(json_view(*v) is Object),
        },
;

/// `Map::iter` walks the members of the map in its order.
#[verifier::external_body]
fn serde_members<'a>(map: &'a serde_json::Map<String, serde_json::Value>) -> (members: Vec<
    (&'a String, &'a serde_json::Value),
>)
    ensures
        member_views(members@) == json_members(*map),
{
    map.iter().collect()
}

impl JsonValue {
    /// Reads a document of `serde_json`.
    pub fn from_serde(v: &serde_json::Value) -> (json: JsonValue)
        ensures
            json@ == json_view(*v),
        decreases json_view(*v),
    {
        if let Some(b) = v.as_bool() {
            return JsonValue::Bool(b);
        }
        if v.is_f64() {
            if let Some(bits) = serde_double_bits(v) {
                return JsonValue::Number(JsonNumber::Float(bits));
            }
        }
        if let Some(n) = v.as_u64() {
            return JsonValue::Number(JsonNumber::PosInt(n));
        }
        if let Some(n) = v.as_i64() {
            return JsonValue::Number(JsonNumber::NegInt(n));
        }
        if let Some(text) = v.as_str() {
            return JsonValue::String(text.to_owned());
        }
        if let Some(items) = v.as_array() {
            let mut read: Vec<JsonValue> = Vec::new();
            let mut i: usize = 0;
            while i < items.len()
                invariant
                    i <= items.len(),
                    read@.len() == i,
                    json_view(*v) == JsonView::Array(json_views(items@)),
                    forall|k: int| 0 <= k < i ==> (#[trigger] read@[k])@ == json_view(items@[k]),
                decreases items.len() - i,
            {
                proof {
                    let views = json_views(items@);
                    assert(views[i as int] == json_view(items@[i as int]));
                    assert(json_view(*v)->Array_0 == views);
                    assert(decreases_to!(json_view(*v) => json_view(*v)->Array_0));
                    assert(decreases_to!(views => views[i as int]));
                }
                read.push(JsonValue::from_serde(&items[i]));
                i += 1;
            }
            let json = JsonValue::Array(read);
            assert(json@ == json_view(*v)) by {
                assert(json@->Array_0 =~= json_views(items@));
            }
            return json;
        }
        if let Some(map) = v.as_object() {
            let members = serde_members(map);
            let mut read: Vec<(String, JsonValue)> = Vec::new();
            let mut i: usize = 0;
            while i < members.len()
                invariant
                    i <= members.len(),
                    read@.len() == i,
                    json_view(*v) == JsonView::Object(member_views(members@)),
                    forall|k: int|
                        0 <= k < i ==> ((#[trigger] read@[k]).0@, read@[k].1@) == member_views(
                            members@,
                        )[k],
                decreases members.len() - i,
            {
                proof {
                    let views = member_views(members@);
                    assert(views[i as int].1 == json_view(*members@[i as int].1));
                    assert(json_view(*v)->Object_0 == views);
                    assert(decreases_to!(json_view(*v) => json_view(*v)->Object_0));
                    assert(decreases_to!(views => views[i as int]));
                    assert(decreases_to!(views[i as int] => views[i as int].1));
                }
                let name: String = members[i].0.clone();
                let value = JsonValue::from_serde(members[i].1);
                read.push((name, value));
                i += 1;
            }
            let json = JsonValue::Object(read);
            assert(json@ == json_view(*v)) by {
                assert(json@->Object_0 =~= member_views(members@));
            }
            return json;
        }
        JsonValue::Null
    }
}

} // verus!
