//! JSON values.

use crate::res_file::or_text;
use crate::text::{opt_view, same, views};
use vstd::prelude::*;
use vstd::string::*;

verus! {

/// A JSON value. An object keeps its entries in the order in which they are listed; of a
/// number, only its value as an unsigned integer is kept, where it has one.
#[derive(Debug)]
pub enum Json {
    Null,
    Bool(bool),
    Number(Option<u64>),
    Text(String),
    Array(Vec<Json>),
    Object(Vec<(String, Json)>),
}

/// What a [`Json`] holds.
pub enum JsonModel {
    Null,
    Bool(bool),
    Number(Option<nat>),
    Text(Seq<char>),
    Array(Seq<JsonModel>),
    Object(Seq<(Seq<char>, JsonModel)>),
}

pub open spec fn json_view(j: Json) -> JsonModel
    decreases j,
{
    match j {
        Json::Null => JsonModel::Null,
        Json::Bool(b) => JsonModel::Bool(b),
        Json::Number(n) => JsonModel::Number(
            match n {
                Some(k) => Some(k as nat),
                None => None,
            },
        ),
        Json::Text(s) => JsonModel::Text(s@),
        Json::Array(v) => JsonModel::Array(
            Seq::new(
                v@.len(),
                |i: int|
                    if 0 <= i < v.len() {
                        json_view(v[i])
                    } else {
                        JsonModel::Null
                    },
            ),
        ),
        Json::Object(v) => JsonModel::Object(
            Seq::new(
                v@.len(),
                |i: int|
                    if 0 <= i < v.len() {
                        (v[i].0@, json_view(v[i].1))
                    } else {
                        (Seq::empty(), JsonModel::Null)
                    },
            ),
        ),
    }
}

impl View for Json {
    type V = JsonModel;

    open spec fn view(&self) -> JsonModel {
        json_view(*self)
    }
}

// ---------------------------------------------------------------------------
// Parts of a value
// ---------------------------------------------------------------------------

/// The first entry of a key, from position `i` on.
pub open spec fn entry_from(entries: Seq<(Seq<char>, JsonModel)>, key: Seq<char>, i: int) -> Option<
    JsonModel,
>
    decreases entries.len() - i,
{
    if i < 0 || i >= entries.len() {
        None
    } else if entries[i].0 == key {
        Some(entries[i].1)
    } else {
        entry_from(entries, key, i + 1)
    }
}

/// The entry of a key; nothing where the value is no object or has no such entry.
pub open spec fn lookup(j: JsonModel, key: Seq<char>) -> Option<JsonModel> {
    match j {
        JsonModel::Object(entries) => entry_from(entries, key, 0),
        _ => None,
    }
}

/// The entry of a key, null where there is none.
pub open spec fn member(j: JsonModel, key: Seq<char>) -> JsonModel {
    match lookup(j, key) {
        Some(v) => v,
        None => JsonModel::Null,
    }
}

/// The text that a value is.
pub open spec fn as_text(j: JsonModel) -> Option<Seq<char>> {
    match j {
        JsonModel::Text(s) => Some(s),
        _ => None,
    }
}

/// The truth value that a value is.
pub open spec fn as_flag(j: JsonModel) -> Option<bool> {
    match j {
        JsonModel::Bool(b) => Some(b),
        _ => None,
    }
}

/// The unsigned integer that a value is.
pub open spec fn as_number(j: JsonModel) -> Option<nat> {
    match j {
        JsonModel::Number(n) => n,
        _ => None,
    }
}

/// The items of an array.
pub open spec fn as_items(j: JsonModel) -> Option<Seq<JsonModel>> {
    match j {
        JsonModel::Array(v) => Some(v),
        _ => None,
    }
}

/// The items of an array; none where the value is no array.
pub open spec fn items_of(j: JsonModel) -> Seq<JsonModel> {
    match j {
        JsonModel::Array(v) => v,
        _ => Seq::empty(),
    }
}

/// The entries of an object; none where the value is no object.
pub open spec fn entries_of(j: JsonModel) -> Seq<(Seq<char>, JsonModel)> {
    match j {
        JsonModel::Object(v) => v,
        _ => Seq::empty(),
    }
}

/// What an optional value holds: null where there is none.
pub open spec fn model_of(o: Option<&Json>) -> JsonModel {
    match o {
        Some(j) => j@,
        None => JsonModel::Null,
    }
}

/// The entry of a key.
pub fn at<'a>(o: Option<&'a Json>, key: &str) -> (r: Option<&'a Json>)
    ensures
        r is Some <==> lookup(model_of(o), key@) is Some,
        r is Some ==> lookup(model_of(o), key@) == Some(r->0@),
        model_of(r) == member(model_of(o), key@),
{
    if let Some(Json::Object(v)) = o {
        let ghost entries = entries_of(model_of(o));
        let mut i: usize = 0;
        while i < v.len()
            invariant
                i <= v.len(),
                entries == entries_of(model_of(o)),
                model_of(o) == JsonModel::Object(entries),
                entries.len() == v.len(),
                forall|k: int|
                    0 <= k < v.len() ==> entries[k] == (v@[k].0@, (#[trigger] v@[k]).1@),
                entry_from(entries, key@, 0) == entry_from(entries, key@, i as int),
            decreases v.len() - i,
        {
            assert(entries[i as int] == (v@[i as int].0@, v@[i as int].1@));
            if same(v[i].0.as_str(), key) {
                return Some(&v[i].1);
            }
            i += 1;
        }
    }
    None
}

/// The text that a value is.
pub fn text_of<'a>(o: Option<&'a Json>) -> (r: Option<&'a str>)
    ensures
        opt_view(r) == as_text(model_of(o)),
{
    match o {
        Some(Json::Text(s)) => Some(s.as_str()),
        _ => None,
    }
}

/// The text of the entry of a key.
pub fn text_at<'a>(o: Option<&'a Json>, key: &str) -> (r: Option<&'a str>)
    ensures
        opt_view(r) == as_text(member(model_of(o), key@)),
{
    text_of(at(o, key))
}

/// The text of the entry of a key, `default` where it is no text.
pub fn text_at_or<'a>(o: Option<&'a Json>, key: &str, default: &'a str) -> (r: &'a str)
    ensures
        r@ == or_text(as_text(member(model_of(o), key@)), default@),
{
    match text_at(o, key) {
        Some(s) => s,
        None => default,
    }
}

/// The truth value that a value is.
pub fn flag_of(o: Option<&Json>) -> (r: Option<bool>)
    ensures
        r == as_flag(model_of(o)),
{
    match o {
        Some(Json::Bool(b)) => Some(*b),
        _ => None,
    }
}

/// The unsigned integer that a value is.
pub fn number_of(o: Option<&Json>) -> (r: Option<u64>)
    ensures
        match r {
            Some(n) => as_number(model_of(o)) == Some(n as nat),
            None => as_number(model_of(o)) is None,
        },
{
    match o {
        Some(Json::Number(n)) => *n,
        _ => None,
    }
}

/// The items of an array.
pub fn array_of<'a>(o: Option<&'a Json>) -> (r: Option<&'a Vec<Json>>)
    ensures
        match r {
            Some(v) => as_items(model_of(o)) == Some(views(v@)),
            None => as_items(model_of(o)) is None,
        },
{
    match o {
        Some(Json::Array(v)) => {
            assert(as_items(model_of(o))->0 =~= views(v@));
            Some(v)
        },
        _ => None,
    }
}

/// The entries of an object.
pub fn object_of<'a>(o: Option<&'a Json>) -> (r: Option<&'a Vec<(String, Json)>>)
    ensures
        match r {
            Some(v) => model_of(o) == JsonModel::Object(views(v@)),
            None => entries_of(model_of(o)) == Seq::<(Seq<char>, JsonModel)>::empty(),
        },
{
    match o {
        Some(Json::Object(v)) => {
            assert(entries_of(model_of(o)) =~= views(v@));
            Some(v)
        },
        _ => None,
    }
}

// ---------------------------------------------------------------------------
// Reading text
// ---------------------------------------------------------------------------

/// A value as `serde_json` holds it.
#[verifier::external_type_specification]
#[verifier::external_body]
pub struct ExValue(serde_json::Value);

/// An error of `serde_json`.
#[verifier::external_type_specification]
#[verifier::external_body]
pub struct ExError(serde_json::Error);

/// The tree that a `serde_json::Value` holds.
pub uninterp spec fn value_model(v: serde_json::Value) -> JsonModel;

/// The tree that a text denotes, where `serde_json` accepts it.
pub uninterp spec fn parsed_json(text: Seq<char>) -> Option<JsonModel>;

/// `serde_json::from_str` depends on the text alone: it accepts a text always or never,
/// and gives the same tree each time.
#[verifier::external_body]
fn parse_value(text: &str) -> (r: Result<serde_json::Value, serde_json::Error>)
    ensures
        match r {
            Ok(v) => parsed_json(text@) == Some(value_model(v)),
            Err(e) => parsed_json(text@) is None,
        },
{
    serde_json::from_str::<serde_json::Value>(text)
}

/// One level of a `serde_json::Value`.
enum Level<'a> {
    Null,
    Bool(bool),
    Number(Option<u64>),
    Text(&'a String),
    Array(Vec<&'a serde_json::Value>),
    Object(Vec<(&'a String, &'a serde_json::Value)>),
}

/// The variants of `serde_json::Value`, one for one. Of a number, `Number::as_u64` is
/// kept; the items of an array come in their order, the entries of an object in the order
/// in which its map lists them. The trees of the values in it are the branches of its own.
#[verifier::external_body]
fn level_of<'a>(v: &'a serde_json::Value) -> (r: Level<'a>)
    ensures
        match r {
            Level::Null => value_model(*v) == JsonModel::Null,
            Level::Bool(b) => value_model(*v) == JsonModel::Bool(b),
            Level::Number(n) => value_model(*v) == JsonModel::Number(
                match n {
                    Some(k) => Some(k as nat),
                    None => None,
                },
            ),
            Level::Text(s) => value_model(*v) == JsonModel::Text(s@),
            Level::Array(a) => value_model(*v) == JsonModel::Array(
                Seq::new(a@.len(), |i: int| value_model(*a[i])),
            ),
            Level::Object(m) => value_model(*v) == JsonModel::Object(
                Seq::new(m@.len(), |i: int| (m[i].0@, value_model(*m[i].1))),
            ),
        },
{
    match v {
        serde_json::Value::Null => Level::Null,
        serde_json::Value::Bool(b) => Level::Bool(*b),
        serde_json::Value::Number(n) => Level::Number(n.as_u64()),
        serde_json::Value::String(s) => Level::Text(s),
        serde_json::Value::Array(a) => Level::Array(a.iter().collect()),
        serde_json::Value::Object(m) => Level::Object(m.iter().collect()),
    }
}

/// The tree that a `serde_json::Value` holds.
fn from_value(v: &serde_json::Value) -> (r: Json)
    ensures
        r@ == value_model(*v),
    decreases value_model(*v),
{
    match level_of(v) {
        Level::Null => Json::Null,
        Level::Bool(b) => Json::Bool(b),
        Level::Number(n) => Json::Number(n),
        Level::Text(s) => Json::Text(s.clone()),
        Level::Array(a) => {
            let ghost branches = value_model(*v)->Array_0;
            let mut out: Vec<Json> = Vec::new();
            let mut i: usize = 0;
            while i < a.len()
                invariant
                    i <= a.len(),
                    value_model(*v) == JsonModel::Array(branches),
                    branches == Seq::new(a@.len(), |k: int| value_model(*a[k])),
                    out.len() == i,
                    forall|k: int| 0 <= k < i ==> json_view(#[trigger] out[k]) == branches[k],
                decreases a.len() - i,
            {
                assert(branches[i as int] == value_model(*a[i as int]));
                assert(decreases_to!(value_model(*v) => value_model(*v)->Array_0[i as int]));
                out.push(from_value(a[i]));
                i += 1;
            }
            let r = Json::Array(out);
            assert(json_view(r)->Array_0 =~= branches);
            r
        },
        Level::Object(m) => {
            let ghost branches = value_model(*v)->Object_0;
            let mut out: Vec<(String, Json)> = Vec::new();
            let mut i: usize = 0;
            while i < m.len()
                invariant
                    i <= m.len(),
                    value_model(*v) == JsonModel::Object(branches),
                    branches == Seq::new(m@.len(), |k: int| (m[k].0@, value_model(*m[k].1))),
                    out.len() == i,
                    forall|k: int|
                        0 <= k < i ==> ((#[trigger] out[k]).0@, json_view(out[k].1))
                            == branches[k],
                decreases m.len() - i,
            {
                assert(branches[i as int].1 == value_model(*m[i as int].1));
                assert(decreases_to!(value_model(*v) => value_model(*v)->Object_0[i as int].1));
                out.push((m[i].0.clone(), from_value(m[i].1)));
                i += 1;
            }
            let r = Json::Object(out);
            assert(json_view(r)->Object_0 =~= branches);
            r
        },
    }
}

/// The value that a text denotes, or the error where it is not JSON.
pub fn read_json(text: &str) -> (r: Result<Json, serde_json::Error>)
    ensures
        match r {
            Ok(j) => parsed_json(text@) == Some(j@),
            Err(e) => parsed_json(text@) is None,
        },
{
    match parse_value(text) {
        Ok(v) => Ok(from_value(&v)),
        Err(e) => Err(e),
    }
}

/// Why no list could be read.
#[derive(Debug)]
pub enum ListError {
    /// The text is not JSON.
    Syntax(serde_json::Error),
    /// The text is JSON, but no array.
    NotArray,
}

/// The items that a text lists: none where it is no JSON array.
pub open spec fn listed_items(text: Seq<char>) -> Seq<JsonModel> {
    match parsed_json(text) {
        Some(j) => items_of(j),
        None => Seq::empty(),
    }
}

/// The items that a text lists: none where it is no JSON array.
pub fn read_items(text: &str) -> (r: Vec<Json>)
    ensures
        views(r@) == listed_items(text@),
{
    match read_json(text) {
        Ok(j) => {
            if let Json::Array(v) = j {
                assert(views(v@) =~= listed_items(text@));
                return v;
            }
        },
        Err(_) => {},
    }
    let none: Vec<Json> = Vec::new();
    assert(views(none@) =~= Seq::<JsonModel>::empty());
    none
}

} // verus!
