use vstd::prelude::*;
use crate::strutil::lex_lt;

verus! {

/// A parsed JSON document: the in-memory value that the analyzer and the
/// differ walk. A number is kept by its canonical decimal rendering, so two
/// numbers are equal exactly when the parser produced the same number.
#[derive(Debug)]
pub enum JsonValue {
    Null,
    Boolean(bool),
    Number(String),
    Text(String),
    Array(Vec<JsonValue>),
    Object(Vec<(String, JsonValue)>),
}

/// The mathematical shape of a JSON document; every contract speaks of it.
#[verifier::ext_equal]
pub ghost enum JsonModel {
    Null,
    Boolean(bool),
    Number(Seq<char>),
    Text(Seq<char>),
    Array(Seq<JsonModel>),
    Object(Seq<(Seq<char>, JsonModel)>),
}

pub open spec fn model_of(v: JsonValue) -> JsonModel
    decreases v,
{
    match v {
        JsonValue::Null => JsonModel::Null,
        JsonValue::Boolean(b) => JsonModel::Boolean(b),
        JsonValue::Number(s) => JsonModel::Number(s@),
        JsonValue::Text(s) => JsonModel::Text(s@),
        JsonValue::Array(items) => JsonModel::Array(item_models(items@)),
        JsonValue::Object(entries) => JsonModel::Object(entry_models(entries@)),
    }
}

pub open spec fn item_models(s: Seq<JsonValue>) -> Seq<JsonModel>
    decreases s,
{
    if s.len() <= 0 {
        Seq::empty()
    } else {
        item_models(s.subrange(0, s.len() - 1)).push(model_of(s[s.len() - 1]))
    }
}

pub open spec fn entry_models(s: Seq<(String, JsonValue)>) -> Seq<(Seq<char>, JsonModel)>
    decreases s,
{
    if s.len() <= 0 {
        Seq::empty()
    } else {
        entry_models(s.subrange(0, s.len() - 1)).push(
            (s[s.len() - 1].0@, model_of(s[s.len() - 1].1)),
        )
    }
}

impl View for JsonValue {
    type V = JsonModel;

    open spec fn view(&self) -> JsonModel {
        model_of(*self)
    }
}

/// A well-formed document: in every object the member keys are strictly
/// sorted, so they are unique and a single merge walk visits a key set in
/// one deterministic order. The parser establishes this for every document
/// it hands out.
pub open spec fn wf_model(m: JsonModel) -> bool
    decreases m,
{
    match m {
        JsonModel::Array(items) => wf_items(items),
        JsonModel::Object(entries) => sorted_keys(entries) && wf_entries(entries),
        _ => true,
    }
}

pub open spec fn wf_items(s: Seq<JsonModel>) -> bool
    decreases s,
{
    if s.len() == 0 {
        true
    } else {
        wf_items(s.subrange(0, s.len() - 1)) && wf_model(s[s.len() - 1])
    }
}

pub open spec fn wf_entries(s: Seq<(Seq<char>, JsonModel)>) -> bool
    decreases s,
{
    if s.len() == 0 {
        true
    } else {
        wf_entries(s.subrange(0, s.len() - 1)) && wf_model(s[s.len() - 1].1)
    }
}

pub open spec fn sorted_keys(s: Seq<(Seq<char>, JsonModel)>) -> bool {
    forall|i: int, j: int| 0 <= i < j < s.len() ==> lex_lt(s[i].0, s[j].0)
}

/// The models of a sequence of values are its values' models, index by index.
pub proof fn lemma_item_models(s: Seq<JsonValue>)
    ensures
        item_models(s).len() == s.len(),
        forall|i: int| 0 <= i < s.len() ==> item_models(s)[i] == model_of(s[i]),
    decreases s.len(),
{
    if s.len() > 0 {
        lemma_item_models(s.subrange(0, s.len() - 1));
    }
}

/// The models of an entry list are its entries' keys and value models.
pub proof fn lemma_entry_models(s: Seq<(String, JsonValue)>)
    ensures
        entry_models(s).len() == s.len(),
        forall|i: int| 0 <= i < s.len() ==> entry_models(s)[i]
            == (s[i].0@, model_of(s[i].1)),
    decreases s.len(),
{
    if s.len() > 0 {
        lemma_entry_models(s.subrange(0, s.len() - 1));
    }
}

} // verus!
