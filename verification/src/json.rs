//! The little of a JSON document that the survey reads: one member of a
//! top-level object, or that member of each element of a top-level array.

use vstd::prelude::*;

verus! {

/// A JSON member value, as far as the survey reads it.
#[derive(Clone, Debug)]
pub enum JsonScalar {
    /// A boolean.
    Bool(bool),
    /// A string.
    Text(String),
    /// Any other value: null, a number, an array or an object.
    Other,
}

/// The mathematical value of a [`JsonScalar`].
pub enum JsonScalarView {
    Bool(bool),
    Text(Seq<char>),
    Other,
}

impl View for JsonScalar {
    type V = JsonScalarView;

    open spec fn view(&self) -> JsonScalarView {
        match self {
            JsonScalar::Bool(b) => JsonScalarView::Bool(*b),
            JsonScalar::Text(s) => JsonScalarView::Text(s@),
            JsonScalar::Other => JsonScalarView::Other,
        }
    }
}

/// The view of an optional member value.
pub open spec fn member_view(m: Option<JsonScalar>) -> Option<JsonScalarView> {
    match m {
        Some(v) => Some(v@),
        None => None,
    }
}

/// A parsed JSON document, seen through one member name.
#[derive(Clone, Debug)]
pub enum JsonShape {
    /// A top-level object, with the value of the member, if present.
    Object(Option<JsonScalar>),
    /// A top-level array, with, for each element in order, the value of the
    /// member when the element is an object holding it.
    Array(Vec<Option<JsonScalar>>),
    /// Any other top-level value.
    Other,
}

/// The mathematical value of a [`JsonShape`].
pub enum JsonShapeView {
    Object(Option<JsonScalarView>),
    Array(Seq<Option<JsonScalarView>>),
    Other,
}

impl View for JsonShape {
    type V = JsonShapeView;

    open spec fn view(&self) -> JsonShapeView {
        match self {
            JsonShape::Object(m) => JsonShapeView::Object(member_view(*m)),
            JsonShape::Array(items) => JsonShapeView::Array(items@.map_values(|m: Option<JsonScalar>| member_view(m))),
            JsonShape::Other => JsonShapeView::Other,
        }
    }
}

/// What `serde_json::from_str::<serde_json::Value>` makes of `text`, seen
/// through the member `key`; `None` when `text` is not a JSON document.
pub uninterp spec fn json_shape_of(text: Seq<char>, key: Seq<char>) -> Option<JsonShapeView>;

/// Parses `text` with `serde_json::from_str::<serde_json::Value>` and keeps
/// what the survey reads of the document: for a top-level object, its member
/// `key` (`serde_json::Map::get`); for a top-level array, each element's
/// member `key` (`serde_json::Value::get`), in order. Booleans and strings
/// are kept as such, other member values only as present. Claimed: the
/// result is [`json_shape_of`] of the arguments.
#[verifier::external_body]
pub(crate) fn json_member_shape(text: &str, key: &str) -> (r: Option<JsonShape>)
    ensures
        match r {
            Some(s) => json_shape_of(text@, key@) == Some(s@),
            None => json_shape_of(text@, key@) is None,
        },
{
    let scalar = |m: Option<&serde_json::Value>| match m {
        Some(serde_json::Value::Bool(b)) => Some(JsonScalar::Bool(*b)),
        Some(serde_json::Value::String(s)) => Some(JsonScalar::Text(s.clone())),
        Some(_) => Some(JsonScalar::Other),
        None => None,
    };
    match serde_json::from_str::<serde_json::Value>(text) {
        Ok(serde_json::Value::Object(m)) => Some(JsonShape::Object(scalar(m.get(key)))),
        Ok(serde_json::Value::Array(a)) => Some(JsonShape::Array(a.iter().map(|i| scalar(i.get(key))).collect())),
        Ok(_) => Some(JsonShape::Other),
        Err(_) => None,
    }
}

} // verus!
