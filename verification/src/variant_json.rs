//! Field values to JSON documents and back.
//!
//! Both directions lose something. A document's integers all become `Long`,
//! its floating-point numbers `Double`, and `null` has no field value. A
//! field value's characters become numbers, and bytes become a string, which
//! they can only where they are valid UTF-8; a floating-point value has a
//! JSON number only where it is finite.
use crate::float_bits::{
    double_is_finite, double_magnitude_of, double_of_single, single_is_finite,
    single_magnitude_of, widen_single, DOUBLE_INFINITY, SINGLE_INFINITY,
};
use crate::json::{
    documents_of, json_view, lemma_view_of_array, lemma_view_of_object, named_documents_of,
    JsonNumber, JsonValue, JsonView,
};
use crate::variant_value::{
    distinct_names, has_name, lemma_view_of_vec, named_at, string_from_utf8, views_of, VariantMap,
    VariantValue, VariantView,
};
use vstd::prelude::*;
use vstd::utf8::{decode_utf8, valid_utf8};

verus! {

/// Why a value has no counterpart.
#[derive(Debug, Clone, Copy, PartialEq, Eq, Structural)]
pub enum ConvertError {
    /// The document is `null`, or holds one.
    InvalidValue,
    /// A floating-point value is an infinity or a NaN.
    NotJsonNumber,
    /// The bytes of a `Binary` are not valid UTF-8.
    NotUtf8,
}

impl ConvertError {
    /// The failure in words.
    pub fn message(&self) -> (text: &'static str)
        ensures
            text@ == (match *self {
                ConvertError::InvalidValue => "invald value"@,
                ConvertError::NotJsonNumber => "not a json number"@,
                ConvertError::NotUtf8 => "the binary array is not utf-8 string"@,
            }),
    {
        match self {
            ConvertError::InvalidValue => "invald value",
            ConvertError::NotJsonNumber => "not a json number",
            ConvertError::NotUtf8 => "the binary array is not utf-8 string",
        }
    }
}

/// The `i64` with the bits of `n`: `n` itself where it fits, and `n` less
/// two to the 64 where it does not.
pub open spec fn wrapped(n: u64) -> i64 {
    if n <= i64::MAX {
        n as i64
    } else {
        (n - 0x1_0000_0000_0000_0000) as i64
    }
}

/// The `i64` with the bits of `n`.
pub fn wrap(n: u64) -> (r: i64)
    ensures
        r == wrapped(n),
{
    if n <= 0x7fff_ffff_ffff_ffff {
        n as i64
    } else {
        (n - 0x8000_0000_0000_0000) as i64 + i64::MIN
    }
}

/// The JSON number of an integer.
pub open spec fn json_integer(n: int) -> JsonNumber {
    if n < 0 {
        JsonNumber::NegInt(n as i64)
    } else {
        JsonNumber::PosInt(n as u64)
    }
}

/// The JSON number of an integer.
pub fn integer_to_json(n: i64) -> (number: JsonNumber)
    ensures
        number == json_integer(n as int),
{
    if n < 0 {
        JsonNumber::NegInt(n)
    } else {
        JsonNumber::PosInt(n as u64)
    }
}

/// `entries` after `value` has been named `key`: in the place of the entry
/// that had the name, or at the end where none had.
pub open spec fn put(
    entries: Seq<(Seq<char>, VariantView)>,
    key: Seq<char>,
    value: VariantView,
) -> Seq<(Seq<char>, VariantView)> {
    if has_name(entries, key) {
        entries.update(choose|i: int| named_at(entries, key, i), (key, value))
    } else {
        entries.push((key, value))
    }
}

/// The field value that a JSON document becomes.
pub open spec fn variant_of(json: JsonView) -> Result<VariantView, ConvertError>
    decreases json,
{
    match json {
        JsonView::Null => Err(ConvertError::InvalidValue),
        JsonView::Bool(b) => Ok(VariantView::Bool(b)),
        JsonView::Number(JsonNumber::Float(bits)) => Ok(VariantView::Double(bits)),
        JsonView::Number(JsonNumber::NegInt(n)) => Ok(VariantView::Long(n)),
        JsonView::Number(JsonNumber::PosInt(n)) => Ok(VariantView::Long(wrapped(n))),
        JsonView::String(text) => Ok(VariantView::VString(text)),
        JsonView::Array(items) => match variants_of(items) {
            Ok(values) => Ok(VariantView::Vec(values)),
            Err(e) => Err(e),
        },
        JsonView::Object(members) => match entries_of(members) {
            Ok(entries) => Ok(VariantView::VMap(entries)),
            Err(e) => Err(e),
        },
    }
}

/// The field values that the documents in `items` become, or the failure of
/// the first that becomes none.
pub open spec fn variants_of(items: Seq<JsonView>) -> Result<Seq<VariantView>, ConvertError>
    decreases items,
{
    if items.len() == 0 {
        Ok(Seq::empty())
    } else {
        match variants_of(items.drop_last()) {
            Err(e) => Err(e),
            Ok(values) => match variant_of(items.last()) {
                Err(e) => Err(e),
                Ok(value) => Ok(values.push(value)),
            },
        }
    }
}

/// The entries that the members of an object become, each member put in its
/// turn, or the failure of the first that becomes none.
pub open spec fn entries_of(members: Seq<(Seq<char>, JsonView)>) -> Result<
    Seq<(Seq<char>, VariantView)>,
    ConvertError,
>
    decreases members,
{
    if members.len() == 0 {
        Ok(Seq::empty())
    } else {
        match entries_of(members.drop_last()) {
            Err(e) => Err(e),
            Ok(entries) => match variant_of(members.last().1) {
                Err(e) => Err(e),
                Ok(value) => Ok(put(entries, members.last().0, value)),
            },
        }
    }
}

/// The JSON document that a field value becomes.
pub open spec fn json_of(value: VariantView) -> Result<JsonView, ConvertError>
    decreases value,
{
    match value {
        VariantView::Bool(b) => Ok(JsonView::Bool(b)),
        VariantView::Char(c) => Ok(JsonView::Number(JsonNumber::PosInt((c as u32 % 256) as u64))),
        VariantView::Short(n) => Ok(JsonView::Number(json_integer(n as int))),
        VariantView::Int(n) => Ok(JsonView::Number(json_integer(n as int))),
        VariantView::Long(n) => Ok(JsonView::Number(json_integer(n as int))),
        VariantView::Float(bits) => if single_is_finite(bits) {
            Ok(JsonView::Number(JsonNumber::Float(double_of_single(bits))))
        } else {
            Err(ConvertError::NotJsonNumber)
        },
        VariantView::Double(bits) => if double_is_finite(bits) {
            Ok(JsonView::Number(JsonNumber::Float(bits)))
        } else {
            Err(ConvertError::NotJsonNumber)
        },
        VariantView::VString(text) => Ok(JsonView::String(text)),
        VariantView::Binary(bytes) => if valid_utf8(bytes) {
            Ok(JsonView::String(decode_utf8(bytes)))
        } else {
            Err(ConvertError::NotUtf8)
        },
        VariantView::Vec(items) => match jsons_of(items) {
            Ok(documents) => Ok(JsonView::Array(documents)),
            Err(e) => Err(e),
        },
        VariantView::VMap(entries) => match members_of(entries) {
            Ok(members) => Ok(JsonView::Object(members)),
            Err(e) => Err(e),
        },
    }
}

/// The documents that the field values in `items` become, or the failure of
/// the first that becomes none.
pub open spec fn jsons_of(items: Seq<VariantView>) -> Result<Seq<JsonView>, ConvertError>
    decreases items,
{
    if items.len() == 0 {
        Ok(Seq::empty())
    } else {
        match jsons_of(items.drop_last()) {
            Err(e) => Err(e),
            Ok(documents) => match json_of(items.last()) {
                Err(e) => Err(e),
                Ok(document) => Ok(documents.push(document)),
            },
        }
    }
}

/// The members that the entries of a map become, in their order, or the
/// failure of the first that becomes none.
pub open spec fn members_of(entries: Seq<(Seq<char>, VariantView)>) -> Result<
    Seq<(Seq<char>, JsonView)>,
    ConvertError,
>
    decreases entries,
{
    if entries.len() == 0 {
        Ok(Seq::empty())
    } else {
        match members_of(entries.drop_last()) {
            Err(e) => Err(e),
            Ok(members) => match json_of(entries.last().1) {
                Err(e) => Err(e),
                Ok(document) => Ok(members.push((entries.last().0, document))),
            },
        }
    }
}

/// No name occurs twice in a map of `value`, at any depth.
pub open spec fn well_named(value: VariantView) -> bool
    decreases value,
{
    match value {
        VariantView::Vec(items) => forall|i: int|
            0 <= i < items.len() ==> well_named(#[trigger] items[i]),
        VariantView::VMap(entries) => distinct_names(entries) && forall|i: int|
            0 <= i < entries.len() ==> well_named((#[trigger] entries[i]).1),
        _ => true,
    }
}

/// What is left of a field value that has been a JSON document: every
/// integer and character is a `Long`, every floating-point number a `Double`,
/// and bytes are the text that they encode.
pub open spec fn after_json(value: VariantView) -> VariantView
    decreases value,
{
    match value {
        VariantView::Char(c) => VariantView::Long((c as u32 % 256) as i64),
        VariantView::Short(n) => VariantView::Long(n as i64),
        VariantView::Int(n) => VariantView::Long(n as i64),
        VariantView::Float(bits) => VariantView::Double(double_of_single(bits)),
        VariantView::Binary(bytes) => VariantView::VString(decode_utf8(bytes)),
        VariantView::Vec(items) => VariantView::Vec(all_after_json(items)),
        VariantView::VMap(entries) => VariantView::VMap(named_after_json(entries)),
        _ => value,
    }
}

/// What is left of each of `items`.
pub open spec fn all_after_json(items: Seq<VariantView>) -> Seq<VariantView>
    decreases items,
{
    if items.len() == 0 {
        Seq::empty()
    } else {
        all_after_json(items.drop_last()).push(after_json(items.last()))
    }
}

/// What is left of each of `entries`, under its name.
pub open spec fn named_after_json(entries: Seq<(Seq<char>, VariantView)>) -> Seq<
    (Seq<char>, VariantView),
>
    decreases entries,
{
    if entries.len() == 0 {
        Seq::empty()
    } else {
        named_after_json(entries.drop_last()).push(
            (entries.last().0, after_json(entries.last().1)),
        )
    }
}

/// A field value that becomes a JSON document comes back from it, changed
/// only in the ways that `after_json` names.
pub proof fn lemma_there_and_back(value: VariantView)
    requires
        well_named(value),
        json_of(value) is Ok,
    ensures
        variant_of(json_of(value)->Ok_0) == Ok::<VariantView, ConvertError>(after_json(value)),
    decreases value, 1nat,
{
    match value {
        VariantView::Vec(items) => {
            lemma_all_there_and_back(items);
        },
        VariantView::VMap(entries) => {
            lemma_entries_there_and_back(entries);
        },
        _ => {},
    }
}

/// The items of a list come back from their documents.
pub proof fn lemma_all_there_and_back(items: Seq<VariantView>)
    requires
        forall|i: int| 0 <= i < items.len() ==> well_named(#[trigger] items[i]),
        jsons_of(items) is Ok,
    ensures
        variants_of(jsons_of(items)->Ok_0) == Ok::<Seq<VariantView>, ConvertError>(
            all_after_json(items),
        ),
        jsons_of(items)->Ok_0.len() == items.len(),
    decreases items, 0nat,
{
    if items.len() > 0 {
        let front = items.drop_last();
        assert forall|i: int| 0 <= i < front.len() implies well_named(#[trigger] front[i]) by {
            assert(front[i] == items[i]);
        }
        lemma_all_there_and_back(front);
        assert(well_named(items[items.len() - 1]));
        lemma_there_and_back(items.last());
        let documents = jsons_of(items)->Ok_0;
        assert(documents.drop_last() =~= jsons_of(front)->Ok_0);
        assert(documents.last() == json_of(items.last())->Ok_0);
    }
}

/// The entries of a map come back from their members, each in its place.
pub proof fn lemma_entries_there_and_back(entries: Seq<(Seq<char>, VariantView)>)
    requires
        distinct_names(entries),
        forall|i: int| 0 <= i < entries.len() ==> well_named((#[trigger] entries[i]).1),
        members_of(entries) is Ok,
    ensures
        entries_of(members_of(entries)->Ok_0) == Ok::<Seq<(Seq<char>, VariantView)>, ConvertError>(
            named_after_json(entries),
        ),
        members_of(entries)->Ok_0.len() == entries.len(),
        named_after_json(entries).len() == entries.len(),
        forall|i: int|
            0 <= i < entries.len() ==> (#[trigger] named_after_json(entries)[i]).0 == entries[i].0,
    decreases entries, 0nat,
{
    if entries.len() > 0 {
        let front = entries.drop_last();
        assert(distinct_names(front)) by {
            assert forall|i: int, j: int|
                0 <= i < front.len() && 0 <= j < front.len() && #[trigger] front[i].0
                    == #[trigger] front[j].0 implies i == j by {
                assert(entries[i].0 == entries[j].0);
            }
        }
        assert forall|i: int| 0 <= i < front.len() implies well_named((#[trigger] front[i]).1) by {
            assert(front[i] == entries[i]);
        }
        lemma_entries_there_and_back(front);
        assert(well_named(entries[entries.len() - 1].1));
        lemma_there_and_back(entries.last().1);
        let members = members_of(entries)->Ok_0;
        assert(members.drop_last() =~= members_of(front)->Ok_0);
        assert(members.last() == (entries.last().0, json_of(entries.last().1)->Ok_0));
        let back = named_after_json(front);
        assert(!has_name(back, entries.last().0)) by {
            if has_name(back, entries.last().0) {
                let i = choose|i: int| named_at(back, entries.last().0, i);
                assert(back[i].0 == front[i].0);
                assert(entries[i].0 == entries[entries.len() - 1].0);
            }
        }
    }
}

/// Where the first `k` documents fail, all of them fail in the same way.
proof fn lemma_variants_of_fails(items: Seq<JsonView>, k: int, e: ConvertError)
    requires
        0 <= k <= items.len(),
        variants_of(items.take(k)) == Err::<Seq<VariantView>, ConvertError>(e),
    ensures
        variants_of(items) == Err::<Seq<VariantView>, ConvertError>(e),
    decreases items.len(),
{
    if k < items.len() {
        assert(items.drop_last().take(k) == items.take(k));
        lemma_variants_of_fails(items.drop_last(), k, e);
    } else {
        assert(items.take(k) == items);
    }
}

/// Where the first `k` members fail, all of them fail in the same way.
proof fn lemma_entries_of_fails(members: Seq<(Seq<char>, JsonView)>, k: int, e: ConvertError)
    requires
        0 <= k <= members.len(),
        entries_of(members.take(k)) == Err::<Seq<(Seq<char>, VariantView)>, ConvertError>(e),
    ensures
        entries_of(members) == Err::<Seq<(Seq<char>, VariantView)>, ConvertError>(e),
    decreases members.len(),
{
    if k < members.len() {
        assert(members.drop_last().take(k) == members.take(k));
        lemma_entries_of_fails(members.drop_last(), k, e);
    } else {
        assert(members.take(k) == members);
    }
}

/// Where the first `k` values fail, all of them fail in the same way.
proof fn lemma_jsons_of_fails(items: Seq<VariantView>, k: int, e: ConvertError)
    requires
        0 <= k <= items.len(),
        jsons_of(items.take(k)) == Err::<Seq<JsonView>, ConvertError>(e),
    ensures
        jsons_of(items) == Err::<Seq<JsonView>, ConvertError>(e),
    decreases items.len(),
{
    if k < items.len() {
        assert(items.drop_last().take(k) == items.take(k));
        lemma_jsons_of_fails(items.drop_last(), k, e);
    } else {
        assert(items.take(k) == items);
    }
}

/// Where the first `k` entries fail, all of them fail in the same way.
proof fn lemma_members_of_fails(entries: Seq<(Seq<char>, VariantView)>, k: int, e: ConvertError)
    requires
        0 <= k <= entries.len(),
        members_of(entries.take(k)) == Err::<Seq<(Seq<char>, JsonView)>, ConvertError>(e),
    ensures
        members_of(entries) == Err::<Seq<(Seq<char>, JsonView)>, ConvertError>(e),
    decreases entries.len(),
{
    if k < entries.len() {
        assert(entries.drop_last().take(k) == entries.take(k));
        lemma_members_of_fails(entries.drop_last(), k, e);
    } else {
        assert(entries.take(k) == entries);
    }
}

impl VariantValue {
    /// The field value that a JSON document becomes: a boolean `Bool`, a
    /// floating-point number `Double`, an integer `Long` (one above the
    /// greatest `i64` wraps round), a string `VString`, an array `Vec`, and
    /// an object `VMap`, in which of two members with one name the second
    /// takes the place of the first. `null` becomes nothing, alone or within.
    pub fn try_from_json(json: &JsonValue) -> (r: Result<VariantValue, ConvertError>)
        ensures
            match variant_of(json@) {
                Ok(view) => r matches Ok(value) && value@ == view,
                Err(e) => r matches Err(f) && f == e,
            },
        decreases json@,
    {
        match json {
            JsonValue::Null => Err(ConvertError::InvalidValue),
            JsonValue::Bool(b) => Ok(VariantValue::Bool(*b)),
            JsonValue::Number(JsonNumber::Float(bits)) => Ok(VariantValue::Double(*bits)),
            JsonValue::Number(JsonNumber::NegInt(n)) => Ok(VariantValue::Long(*n)),
            JsonValue::Number(JsonNumber::PosInt(n)) => Ok(VariantValue::Long(wrap(*n))),
            JsonValue::String(text) => Ok(VariantValue::VString(text.clone())),
            JsonValue::Array(items) => {
                let ghost documents = json@->Array_0;
                let mut values: Vec<VariantValue> = Vec::new();
                let mut i: usize = 0;
                proof {
                    lemma_view_of_array(*items);
                    assert(documents.take(0) =~= Seq::<JsonView>::empty());
                    assert(views_of(values@) =~= Seq::<VariantView>::empty());
                }
                while i < items.len()
                    invariant
                        i <= items.len(),
                        json@ == JsonView::Array(documents),
                        documents == documents_of(items@),
                        values@.len() == i,
                        variants_of(documents.take(i as int)) == Ok::<
                            Seq<VariantView>,
                            ConvertError,
                        >(views_of(values@)),
                    decreases items.len() - i,
                {
                    proof {
                        assert(documents.take(i + 1).drop_last() == documents.take(i as int));
                        assert(documents.take(i + 1).last() == items@[i as int]@);
                        assert(decreases_to!(json@ => json@->Array_0));
                        assert(decreases_to!(documents => documents[i as int]));
                    }
                    let ghost before = views_of(values@);
                    match VariantValue::try_from_json(&items[i]) {
                        Err(e) => {
                            proof {
                                lemma_variants_of_fails(documents, i + 1, e);
                            }
                            return Err(e);
                        },
                        Ok(value) => {
                            values.push(value);
                            assert(views_of(values@) == before.push(value@));
                        },
                    }
                    i += 1;
                }
                assert(documents.take(i as int) == documents);
                let value = VariantValue::Vec(values);
                proof {
                    lemma_view_of_vec(values);
                }
                Ok(value)
            },
            JsonValue::Object(members) => {
                let ghost documents = json@->Object_0;
                let mut map = VariantMap::new();
                let mut i: usize = 0;
                proof {
                    lemma_view_of_object(*members);
                    assert(documents.take(0) =~= Seq::<(Seq<char>, JsonView)>::empty());
                }
                while i < members.len()
                    invariant
                        i <= members.len(),
                        json@ == JsonView::Object(documents),
                        documents == named_documents_of(members@),
                        entries_of(documents.take(i as int)) == Ok::<
                            Seq<(Seq<char>, VariantView)>,
                            ConvertError,
                        >(map@),
                    decreases members.len() - i,
                {
                    proof {
                        assert(documents.take(i + 1).drop_last() == documents.take(i as int));
                        assert(documents.take(i + 1).last() == (
                            members@[i as int].0@,
                            members@[i as int].1@,
                        ));
                        assert(decreases_to!(json@ => json@->Object_0));
                        assert(decreases_to!(documents => documents[i as int]));
                        assert(decreases_to!(documents[i as int] => documents[i as int].1));
                    }
                    let ghost before = map@;
                    match VariantValue::try_from_json(&members[i].1) {
                        Err(e) => {
                            proof {
                                lemma_entries_of_fails(documents, i + 1, e);
                            }
                            return Err(e);
                        },
                        Ok(value) => {
                            let name: String = members[i].0.clone();
                            let ghost key = name@;
                            let ghost view = value@;
                            map.insert(name, value);
                            assert(map@ == put(before, key, view));
                        },
                    }
                    i += 1;
                }
                assert(documents.take(i as int) == documents);
                Ok(VariantValue::VMap(map))
            },
        }
    }

    /// The field value that a document of `serde_json` becomes: that of the
    /// document as `JsonValue::from_serde` reads it.
    pub fn try_from(val: &serde_json::Value) -> (r: Result<VariantValue, ConvertError>)
        ensures
            match variant_of(json_view(*val)) {
                Ok(view) => r matches Ok(value) && value@ == view,
                Err(e) => r matches Err(f) && f == e,
            },
    {
        let json = JsonValue::from_serde(val);
        VariantValue::try_from_json(&json)
    }

    /// The JSON document that this value becomes: a `Bool` a boolean, a
    /// `Char` the number of its lowest eight bits, an integer its number, a
    /// finite floating-point value its double, a `VString` a string, a
    /// `Binary` the string that its bytes encode in UTF-8, a `Vec` an array
    /// and a `VMap` an object with the entries in their order.
    ///
    /// An infinity or a NaN has no JSON number, and bytes that are no valid
    /// UTF-8 no string. Where several parts of the value fail, the failure of
    /// the first in order is returned.
    pub fn to_json(&self) -> (r: Result<JsonValue, ConvertError>)
        ensures
            match json_of(self@) {
                Ok(view) => r matches Ok(json) && json@ == view,
                Err(e) => r matches Err(f) && f == e,
            },
            r is Ok ==> well_named(self@),
        decreases self@,
    {
        match self {
            VariantValue::Bool(b) => Ok(JsonValue::Bool(*b)),
            VariantValue::Char(c) => Ok(
                JsonValue::Number(JsonNumber::PosInt((*c as u32 % 256) as u64)),
            ),
            VariantValue::Short(n) => Ok(JsonValue::Number(integer_to_json(*n as i64))),
            VariantValue::Int(n) => Ok(JsonValue::Number(integer_to_json(*n as i64))),
            VariantValue::Long(n) => Ok(JsonValue::Number(integer_to_json(*n))),
            VariantValue::Float(bits) => {
                if single_magnitude_of(*bits) < SINGLE_INFINITY {
                    Ok(JsonValue::Number(JsonNumber::Float(widen_single(*bits))))
                } else {
                    Err(ConvertError::NotJsonNumber)
                }
            },
            VariantValue::Double(bits) => {
                if double_magnitude_of(*bits) < DOUBLE_INFINITY {
                    Ok(JsonValue::Number(JsonNumber::Float(*bits)))
                } else {
                    Err(ConvertError::NotJsonNumber)
                }
            },
            VariantValue::VString(text) => Ok(JsonValue::String(text.clone())),
            VariantValue::Binary(bytes) => match string_from_utf8(bytes.clone()) {
                Some(text) => Ok(JsonValue::String(text)),
                None => Err(ConvertError::NotUtf8),
            },
            VariantValue::Vec(items) => {
                let ghost views = self@->Vec_0;
                let mut documents: Vec<JsonValue> = Vec::new();
                let mut i: usize = 0;
                proof {
                    lemma_view_of_vec(*items);
                    assert(views.take(0) =~= Seq::<VariantView>::empty());
                    assert(documents_of(documents@) =~= Seq::<JsonView>::empty());
                }
                while i < items.len()
                    invariant
                        i <= items.len(),
                        self@ == VariantView::Vec(views),
                        views == views_of(items@),
                        documents@.len() == i,
                        jsons_of(views.take(i as int)) == Ok::<Seq<JsonView>, ConvertError>(
                            documents_of(documents@),
                        ),
                        forall|k: int| 0 <= k < i ==> well_named(#[trigger] views[k]),
                    decreases items.len() - i,
                {
                    proof {
                        assert(views.take(i + 1).drop_last() == views.take(i as int));
                        assert(views.take(i + 1).last() == items@[i as int]@);
                        assert(decreases_to!(self@ => self@->Vec_0));
                        assert(decreases_to!(views => views[i as int]));
                    }
                    let ghost before = documents_of(documents@);
                    match items[i].to_json() {
                        Err(e) => {
                            proof {
                                lemma_jsons_of_fails(views, i + 1, e);
                            }
                            return Err(e);
                        },
                        Ok(document) => {
                            documents.push(document);
                            assert(documents_of(documents@) == before.push(document@));
                        },
                    }
                    i += 1;
                }
                assert(views.take(i as int) == views);
                let json = JsonValue::Array(documents);
                proof {
                    lemma_view_of_array(documents);
                }
                Ok(json)
            },
            VariantValue::VMap(map) => {
                let ghost views = self@->VMap_0;
                let entries = map.entries();
                let mut members: Vec<(String, JsonValue)> = Vec::new();
                let mut i: usize = 0;
                proof {
                    assert(views.take(0) =~= Seq::<(Seq<char>, VariantView)>::empty());
                    assert(named_documents_of(members@) =~= Seq::<(Seq<char>, JsonView)>::empty());
                }
                while i < entries.len()
                    invariant
                        i <= entries.len(),
                        self@ == VariantView::VMap(views),
                        views.len() == entries@.len(),
                        forall|k: int|
                            0 <= k < entries@.len() ==> views[k] == (
                                #[trigger] entries@[k].0@,
                                entries@[k].1@,
                            ),
                        members@.len() == i,
                        members_of(views.take(i as int)) == Ok::<
                            Seq<(Seq<char>, JsonView)>,
                            ConvertError,
                        >(named_documents_of(members@)),
                        distinct_names(views),
                        forall|k: int| 0 <= k < i ==> well_named((#[trigger] views[k]).1),
                    decreases entries.len() - i,
                {
                    proof {
                        assert(views.take(i + 1).drop_last() == views.take(i as int));
                        assert(views.take(i + 1).last() == (
                            entries@[i as int].0@,
                            entries@[i as int].1@,
                        ));
                        assert(decreases_to!(self@ => self@->VMap_0));
                        assert(decreases_to!(views => views[i as int]));
                        assert(decreases_to!(views[i as int] => views[i as int].1));
                    }
                    let ghost before = named_documents_of(members@);
                    match entries[i].1.to_json() {
                        Err(e) => {
                            proof {
                                lemma_members_of_fails(views, i + 1, e);
                            }
                            return Err(e);
                        },
                        Ok(document) => {
                            let name: String = entries[i].0.clone();
                            members.push((name, document));
                            assert(named_documents_of(members@) == before.push(
                                (entries@[i as int].0@, document@),
                            ));
                        },
                    }
                    i += 1;
                }
                assert(views.take(i as int) == views);
                let json = JsonValue::Object(members);
                proof {
                    lemma_view_of_object(members);
                }
                Ok(json)
            },
        }
    }

    /// The JSON document that this value becomes, as `to_json` gives it.
    pub fn try_into(self) -> (r: Result<JsonValue, ConvertError>)
        ensures
            match json_of(self@) {
                Ok(view) => r matches Ok(json) && json@ == view,
                Err(e) => r matches Err(f) && f == e,
            },
            r is Ok ==> well_named(self@),
    {
        self.to_json()
    }
}

} // verus!
