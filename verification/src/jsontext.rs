use vstd::prelude::*;
use crate::value::{JsonValue, JsonModel, wf_model};

verus! {

#[verifier::external_type_specification]
#[verifier::external_body]
pub struct ExValue(serde_json::Value);

/// What the JSON parser makes of a piece of text: `Some` with the document
/// exactly on text it accepts, `None` on text it rejects.
pub uninterp spec fn spec_parse(text: Seq<char>) -> Option<JsonModel>;

/// The compact rendering the JSON library gives a document.
pub uninterp spec fn compact_text_of(m: JsonModel) -> Seq<char>;

/// The pretty rendering, two spaces per level, the JSON library gives a
/// document.
pub uninterp spec fn pretty_text_of(m: JsonModel) -> Seq<char>;

/// Relies on serde_json::from_str::<serde_json::Value>: whether the text is
/// accepted, and which document it yields, depend on the text alone. On
/// failure the parser's own diagnostic is returned verbatim.
#[verifier::external_body]
pub(crate) fn parse_json(text: &str) -> (r: Result<JsonValue, String>)
    ensures
        r is Ok <==> spec_parse(text@) is Some,
        r matches Ok(v) ==> spec_parse(text@) == Some(v@) && wf_model(v@),
{
    match serde_json::from_str::<serde_json::Value>(text) {
        Ok(v) => Ok(convert_value(v)),
        Err(e) => Err(e.to_string()),
    }
}

/// Relies on the shape of serde_json::Value: every variant is carried over
/// one for one, a number by its canonical rendering, an object by its member
/// list, which serde_json's map (a BTreeMap) iterates in strictly ascending
/// key order — that is what makes the result well formed.
#[verifier::external_body]
fn convert_value(v: serde_json::Value) -> (r: JsonValue)
    ensures
        wf_model(r@),
{
    match v {
        serde_json::Value::Null => JsonValue::Null,
        serde_json::Value::Bool(b) => JsonValue::Boolean(b),
        serde_json::Value::Number(n) => JsonValue::Number(n.to_string()),
        serde_json::Value::String(s) => JsonValue::Text(s),
        serde_json::Value::Array(a) => JsonValue::Array(
            a.into_iter().map(convert_value).collect(),
        ),
        serde_json::Value::Object(m) => JsonValue::Object(
            m.into_iter().map(|(k, x)| (k, convert_value(x))).collect(),
        ),
    }
}

/// Converts a document back into the JSON library's value type, variant by
/// variant; a number travels through its rendering.
#[verifier::external_body]
fn convert_back(v: &JsonValue) -> serde_json::Value {
    match v {
        JsonValue::Null => serde_json::Value::Null,
        JsonValue::Boolean(b) => serde_json::Value::Bool(*b),
        JsonValue::Number(s) => match s.parse::<serde_json::Number>() {
            Ok(n) => serde_json::Value::Number(n),
            Err(_) => serde_json::Value::Null,
        },
        JsonValue::Text(s) => serde_json::Value::String(s.clone()),
        JsonValue::Array(items) => serde_json::Value::Array(
            items.iter().map(convert_back).collect(),
        ),
        JsonValue::Object(entries) => serde_json::Value::Object(
            entries.iter().map(|e| (e.0.clone(), convert_back(&e.1))).collect(),
        ),
    }
}

/// Relies on serde_json::to_string: the compact rendering depends on the
/// document alone, and rendering a value tree cannot fail.
#[verifier::external_body]
pub(crate) fn render_json(v: &JsonValue) -> (r: String)
    ensures
        r@ == compact_text_of(v@),
{
    serde_json::to_string(&convert_back(v)).unwrap_or_default()
}

/// Relies on serde_json::to_string_pretty: the rendering, indented by two
/// spaces per level, depends on the document alone, and cannot fail.
#[verifier::external_body]
pub(crate) fn render_json_pretty(v: &JsonValue) -> (r: String)
    ensures
        r@ == pretty_text_of(v@),
{
    serde_json::to_string_pretty(&convert_back(v)).unwrap_or_default()
}

} // verus!
