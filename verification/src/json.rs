//! JSON documents as values that the rest of the library reads.
use crate::text;
use vstd::prelude::*;

verus! {

/// A JSON document.
///
/// A number keeps only its reading as an unsigned integer, which is the one
/// that is ever asked for; the fields of an object stand in the order in which
/// the parser hands them out.
pub enum Json {
    Null,
    Bool(bool),
    Number(Option<u64>),
    Text(String),
    Array(Vec<Json>),
    Object(Vec<(String, Json)>),
}

/// What a JSON document holds.
pub enum JsonView {
    Null,
    Bool(bool),
    Number(Option<u64>),
    Text(Seq<char>),
    Array(Seq<JsonView>),
    Object(Seq<(Seq<char>, JsonView)>),
}

/// What `j` holds.
pub open spec fn json_view(j: Json) -> JsonView
    decreases j,
{
    match j {
        Json::Null => JsonView::Null,
        Json::Bool(b) => JsonView::Bool(b),
        Json::Number(n) => JsonView::Number(n),
        Json::Text(s) => JsonView::Text(s@),
        Json::Array(items) => JsonView::Array(
            Seq::new(
                items@.len(),
                |i: int|
                    if 0 <= i < items@.len() {
                        json_view(items@[i])
                    } else {
                        JsonView::Null
                    },
            ),
        ),
        Json::Object(fields) => JsonView::Object(
            Seq::new(
                fields@.len(),
                |i: int|
                    if 0 <= i < fields@.len() {
                        (fields@[i].0@, json_view(fields@[i].1))
                    } else {
                        (Seq::empty(), JsonView::Null)
                    },
            ),
        ),
    }
}

impl View for Json {
    type V = JsonView;

    open spec fn view(&self) -> JsonView {
        json_view(*self)
    }
}

/// The views of a list of documents.
pub open spec fn documents(v: Seq<Json>) -> Seq<JsonView> {
    v.map_values(|j: Json| j@)
}

// ---------------------------------------------------------------------------
// Parsing
// ---------------------------------------------------------------------------

/// A document as the `serde_json` crate holds it.
#[verifier::external_type_specification]
#[verifier::external_body]
pub struct ExValue(serde_json::Value);

/// What a document that `serde_json` holds contains.
pub uninterp spec fn value_view(value: serde_json::Value) -> JsonView;

/// The document that `serde_json::from_slice` reads from the bytes of a text,
/// if they are one.
pub uninterp spec fn document_of_bytes(bytes: Seq<u8>) -> Option<JsonView>;

/// The document that `serde_json::from_str` reads from a text, if it is one.
pub uninterp spec fn document_of_text(text: Seq<char>) -> Option<JsonView>;

/// The array that `serde_json::from_slice` reads from the bytes of a text, or its
/// words where they are no array.
pub uninterp spec fn array_of_bytes(bytes: Seq<u8>) -> Result<JsonView, Seq<char>>;

/// Calls `serde_json::from_slice` for a list of values, and makes them one array.
/// Its outcome, with the words of the error, depends on the bytes alone; which
/// texts are JSON arrays, and what they stand for, is left to that crate.
#[verifier::external_body]
fn array_from_slice(bytes: &[u8]) -> (r: Result<serde_json::Value, String>)
    ensures
        match r {
            Ok(value) => value_view(value) is Array && array_of_bytes(bytes@) == Ok::<
                JsonView,
                Seq<char>,
            >(value_view(value)),
            Err(words) => array_of_bytes(bytes@) == Err::<JsonView, Seq<char>>(words@),
        },
{
    serde_json::from_slice(bytes).map(serde_json::Value::Array).map_err(|error| error.to_string())
}

/// Calls `serde_json::from_slice`. Its outcome depends on the bytes alone;
/// which texts are JSON, and what they stand for, is left to that crate.
#[verifier::external_body]
fn value_from_slice(bytes: &[u8]) -> (r: Option<serde_json::Value>)
    ensures
        match r {
            Some(value) => document_of_bytes(bytes@) == Some(value_view(value)),
            None => document_of_bytes(bytes@) is None,
        },
{
    serde_json::from_slice(bytes).ok()
}

/// Calls `serde_json::from_str`. Its outcome depends on the text alone; which
/// texts are JSON, and what they stand for, is left to that crate.
#[verifier::external_body]
fn value_from_str(text: &str) -> (r: Option<serde_json::Value>)
    ensures
        match r {
            Some(value) => document_of_text(text@) == Some(value_view(value)),
            None => document_of_text(text@) is None,
        },
{
    serde_json::from_str(text).ok()
}

/// Takes a `serde_json::Value` apart, variant by variant, with
/// `serde_json::Number::as_u64` for a number. The result holds what the value
/// holds.
#[verifier::external_body]
fn from_value(value: serde_json::Value) -> (r: Json)
    ensures
        r@ == value_view(value),
{
    match value {
        serde_json::Value::Null => Json::Null,
        serde_json::Value::Bool(b) => Json::Bool(b),
        serde_json::Value::Number(n) => Json::Number(n.as_u64()),
        serde_json::Value::String(s) => Json::Text(s),
        serde_json::Value::Array(items) => Json::Array(items.into_iter().map(from_value).collect()),
        serde_json::Value::Object(fields) => Json::Object(
            fields.into_iter().map(|field| (field.0, from_value(field.1))).collect(),
        ),
    }
}

/// Reads the JSON document that `bytes` are.
pub fn parse_bytes(bytes: &[u8]) -> (r: Option<Json>)
    ensures
        match r {
            Some(json) => document_of_bytes(bytes@) == Some(json@),
            None => document_of_bytes(bytes@) is None,
        },
{
    match value_from_slice(bytes) {
        Some(value) => Some(from_value(value)),
        None => None,
    }
}

/// Reads the documents in the JSON array that `bytes` are; otherwise the words of
/// the parser are returned.
pub fn parse_array(bytes: &[u8]) -> (r: Result<Vec<Json>, String>)
    ensures
        match r {
            Ok(items) => array_of_bytes(bytes@) == Ok::<JsonView, Seq<char>>(
                JsonView::Array(documents(items@)),
            ),
            Err(words) => array_of_bytes(bytes@) == Err::<JsonView, Seq<char>>(words@),
        },
{
    match array_from_slice(bytes) {
        Ok(value) => {
            let document = from_value(value);
            let ghost seen = document@;
            match document {
                Json::Array(items) => {
                    assert(seen->Array_0 =~= documents(items@));
                    Ok(items)
                },
                _ => Ok(Vec::new()),
            }
        },
        Err(words) => Err(words),
    }
}

/// Reads the JSON document that `text` is.
pub fn parse_text(text: &str) -> (r: Option<Json>)
    ensures
        match r {
            Some(json) => document_of_text(text@) == Some(json@),
            None => document_of_text(text@) is None,
        },
{
    match value_from_str(text) {
        Some(value) => Some(from_value(value)),
        None => None,
    }
}

// ---------------------------------------------------------------------------
// Looking into a document
// ---------------------------------------------------------------------------

/// The value of the first of `fields` that is named `key`.
pub open spec fn lookup(fields: Seq<(Seq<char>, JsonView)>, key: Seq<char>) -> Option<JsonView>
    decreases fields.len(),
{
    if fields.len() == 0 {
        None
    } else if fields[0].0 == key {
        Some(fields[0].1)
    } else {
        lookup(fields.drop_first(), key)
    }
}

impl JsonView {
    /// The field `key` of an object.
    pub open spec fn get(self, key: Seq<char>) -> Option<JsonView> {
        match self {
            JsonView::Object(fields) => lookup(fields, key),
            _ => None,
        }
    }

    /// The field `key`, or null where there is none.
    pub open spec fn at(self, key: Seq<char>) -> JsonView {
        match self.get(key) {
            Some(v) => v,
            None => JsonView::Null,
        }
    }

    /// The characters of a string.
    pub open spec fn text(self) -> Option<Seq<char>> {
        match self {
            JsonView::Text(s) => Some(s),
            _ => None,
        }
    }

    /// A number that is an unsigned integer of 64 bits.
    pub open spec fn number(self) -> Option<u64> {
        match self {
            JsonView::Number(n) => n,
            _ => None,
        }
    }

    /// The items of an array.
    pub open spec fn array(self) -> Option<Seq<JsonView>> {
        match self {
            JsonView::Array(items) => Some(items),
            _ => None,
        }
    }
}

impl Json {
    /// The field `key` of an object.
    pub fn get(&self, key: &str) -> (r: Option<&Json>)
        ensures
            match r {
                Some(v) => self@.get(key@) == Some(v@),
                None => self@.get(key@) is None,
            },
    {
        match self {
            Json::Object(fields) => {
                let ghost all = self@->Object_0;
                assert(all.skip(0) =~= all);
                for i in 0..fields.len()
                    invariant
                        self@ == JsonView::Object(all),
                        all.len() == fields@.len(),
                        forall|j: int|
                            0 <= j < fields@.len() ==> #[trigger] all[j] == (
                                fields@[j].0@,
                                fields@[j].1@,
                            ),
                        lookup(all, key@) == lookup(all.skip(i as int), key@),
                {
                    assert(all.skip(i as int)[0] == all[i as int]);
                    if text::same(fields[i].0.as_str(), key) {
                        return Some(&fields[i].1);
                    }
                    assert(all.skip(i as int).drop_first() =~= all.skip(i as int + 1));
                }
                None
            },
            _ => None,
        }
    }

    /// The characters of a string.
    pub fn as_text(&self) -> (r: Option<&String>)
        ensures
            match r {
                Some(s) => self@.text() == Some(s@),
                None => self@.text() is None,
            },
    {
        match self {
            Json::Text(s) => Some(s),
            _ => None,
        }
    }

    /// A number that is an unsigned integer of 64 bits.
    pub fn as_number(&self) -> (r: Option<u64>)
        ensures
            r == self@.number(),
    {
        match self {
            Json::Number(n) => *n,
            _ => None,
        }
    }

    /// The items of an array.
    pub fn as_array(&self) -> (r: Option<&Vec<Json>>)
        ensures
            match r {
                Some(items) => self@.array() == Some(documents(items@)),
                None => self@.array() is None,
            },
    {
        match self {
            Json::Array(items) => {
                assert(self@->Array_0 =~= documents(items@));
                Some(items)
            },
            _ => None,
        }
    }

    /// The string in the field `key`.
    pub fn text_at(&self, key: &str) -> (r: Option<&String>)
        ensures
            match r {
                Some(s) => self@.at(key@).text() == Some(s@),
                None => self@.at(key@).text() is None,
            },
    {
        match self.get(key) {
            Some(v) => v.as_text(),
            None => None,
        }
    }

    /// The number in the field `key`.
    pub fn number_at(&self, key: &str) -> (r: Option<u64>)
        ensures
            r == self@.at(key@).number(),
    {
        match self.get(key) {
            Some(v) => v.as_number(),
            None => None,
        }
    }

    /// The items of the array in the field `key`.
    pub fn array_at(&self, key: &str) -> (r: Option<&Vec<Json>>)
        ensures
            match r {
                Some(items) => self@.at(key@).array() == Some(documents(items@)),
                None => self@.at(key@).array() is None,
            },
    {
        match self.get(key) {
            Some(v) => v.as_array(),
            None => None,
        }
    }

    /// The string in the field `key` of the field `outer`.
    pub fn text_below(&self, outer: &str, key: &str) -> (r: Option<&String>)
        ensures
            match r {
                Some(s) => self@.at(outer@).at(key@).text() == Some(s@),
                None => self@.at(outer@).at(key@).text() is None,
            },
    {
        match self.get(outer) {
            Some(v) => v.text_at(key),
            None => None,
        }
    }
}

// ---------------------------------------------------------------------------
// Laws of looking into a document
// ---------------------------------------------------------------------------

/// An object gives the value of the first field of a name.
pub proof fn law_field_is_found(fields: Seq<(Seq<char>, JsonView)>, i: int)
    requires
        0 <= i < fields.len(),
        forall|j: int| 0 <= j < i ==> (#[trigger] fields[j]).0 != fields[i].0,
    ensures
        JsonView::Object(fields).get(fields[i].0) == Some(fields[i].1),
        JsonView::Object(fields).at(fields[i].0) == fields[i].1,
    decreases i,
{
    if i > 0 {
        let rest = fields.drop_first();
        assert(fields[0].0 != fields[i].0);
        assert(rest[i - 1] == fields[i]);
        assert forall|j: int| 0 <= j < i - 1 implies (#[trigger] rest[j]).0 != rest[i - 1].0 by {
            assert(rest[j] == fields[j + 1]);
        }
        law_field_is_found(rest, i - 1);
    }
}

/// An object without a field of a name gives nothing for it, and neither does
/// what is no object.
pub proof fn law_missing_field(fields: Seq<(Seq<char>, JsonView)>, key: Seq<char>, other: JsonView)
    requires
        forall|j: int| 0 <= j < fields.len() ==> (#[trigger] fields[j]).0 != key,
        !(other is Object),
    ensures
        JsonView::Object(fields).get(key) is None,
        JsonView::Object(fields).at(key) == JsonView::Null,
        other.get(key) is None,
        other.at(key) == JsonView::Null,
    decreases fields.len(),
{
    if fields.len() > 0 {
        let rest = fields.drop_first();
        assert(fields[0].0 != key);
        assert forall|j: int| 0 <= j < rest.len() implies (#[trigger] rest[j]).0 != key by {
            assert(rest[j] == fields[j + 1]);
        }
        law_missing_field(rest, key, other);
    }
}

} // verus!
