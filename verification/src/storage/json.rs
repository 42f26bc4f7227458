//! Index keys out of JSON values.

use vstd::prelude::*;

verus! {

/// What a JSON text holds under a key.
#[derive(Debug)]
pub enum Field {
    /// The text is not JSON.
    NotJson,
    /// The value is not an object, or has no such key.
    Missing,
    Null,
    Bool(bool),
    /// A number, as JSON writes it.
    Number(String),
    Text(String),
    /// An array or an object.
    Nested,
}

/// What a field says.
pub enum FieldView {
    NotJson,
    Missing,
    Null,
    Bool(bool),
    Number(Seq<char>),
    Text(Seq<char>),
    Nested,
}

impl View for Field {
    type V = FieldView;

    open spec fn view(&self) -> FieldView {
        match self {
            Field::NotJson => FieldView::NotJson,
            Field::Missing => FieldView::Missing,
            Field::Null => FieldView::Null,
            Field::Bool(b) => FieldView::Bool(*b),
            Field::Number(s) => FieldView::Number(s@),
            Field::Text(s) => FieldView::Text(s@),
            Field::Nested => FieldView::Nested,
        }
    }
}

/// What the JSON text `text` holds under `key`.
pub uninterp spec fn json_field(text: Seq<char>, key: Seq<char>) -> FieldView;

/// The key under which a row with this field stands in an index. A row whose value
/// is not JSON, or which has no plain value in the field, does not stand in it.
pub open spec fn field_key(field: FieldView) -> Option<Seq<char>> {
    match field {
        FieldView::Text(s) => Some(s),
        FieldView::Number(s) => Some(s),
        FieldView::Bool(b) => Some(
            if b {
                "true"@
            } else {
                "false"@
            },
        ),
        FieldView::Null => Some("null"@),
        _ => None,
    }
}

/// `serde_json::from_str` reads a JSON text, and `serde_json::Value::get` takes the
/// value of a key out of it. What they find depends on the text and the key alone.
#[verifier::external_body]
fn read_field(text: &str, key: &str) -> (r: Field)
    ensures
        r@ == json_field(text@, key@),
{
    match serde_json::from_str::<serde_json::Value>(text) {
        Err(_) => Field::NotJson,
        Ok(value) => match value.get(key) {
            None => Field::Missing,
            Some(serde_json::Value::Null) => Field::Null,
            Some(serde_json::Value::Bool(b)) => Field::Bool(*b),
            Some(serde_json::Value::Number(n)) => Field::Number(n.to_string()),
            Some(serde_json::Value::String(s)) => Field::Text(s.clone()),
            Some(_) => Field::Nested,
        },
    }
}

/// The index key of a field.
pub fn key_of_field(field: Field) -> (r: Option<String>)
    ensures
        match r {
            Some(s) => field_key(field@) == Some(s@),
            None => field_key(field@) is None,
        },
{
    match field {
        Field::Text(s) => Some(s),
        Field::Number(s) => Some(s),
        Field::Bool(b) => Some(
            if b {
                "true".to_string()
            } else {
                "false".to_string()
            },
        ),
        Field::Null => Some("null".to_string()),
        _ => None,
    }
}

/// The index key of the JSON text `value` under `key_path`.
pub fn index_key(value: &str, key_path: &str) -> (r: Option<String>)
    ensures
        match r {
            Some(s) => field_key(json_field(value@, key_path@)) == Some(s@),
            None => field_key(json_field(value@, key_path@)) is None,
        },
{
    key_of_field(read_field(value, key_path))
}

/// A text is its own key, whatever it holds, and so is a number as JSON writes it. The
/// other plain values have the words of JSON as their keys, and all else has none.
pub proof fn law_keys_of_fields(s: Seq<char>, field: FieldView)
    ensures
        field_key(FieldView::Text(s)) == Some(s),
        field_key(FieldView::Number(s)) == Some(s),
        field_key(FieldView::Bool(true)) == Some("true"@),
        field_key(FieldView::Bool(false)) == Some("false"@),
        field_key(FieldView::Null) == Some("null"@),
        field_key(field) is None <==> field is NotJson || field is Missing || field is Nested,
{
}

/// What a field says is what it holds.
pub proof fn law_field_says_what_it_holds(s: String, b: bool)
    ensures
        Field::Text(s)@ == FieldView::Text(s@),
        Field::Number(s)@ == FieldView::Number(s@),
        Field::Bool(b)@ == FieldView::Bool(b),
        Field::Null@ == FieldView::Null,
        Field::Nested@ == FieldView::Nested,
        Field::Missing@ == FieldView::Missing,
        Field::NotJson@ == FieldView::NotJson,
{
}

} // verus!
