//! YAML mappings.

use vstd::prelude::*;
use vstd::string::*;

verus! {

/// A mapping as `serde_yaml` holds it.
#[verifier::external_type_specification]
#[verifier::external_body]
pub struct ExMapping(serde_yaml::Mapping);

/// An error of `serde_yaml`.
#[verifier::external_type_specification]
#[verifier::external_body]
pub struct ExYamlError(serde_yaml::Error);

/// A value of a mapping.
pub enum YamlItem {
    Text(String),
    Flag(bool),
    Mapping(serde_yaml::Mapping),
}

/// What a value of a mapping holds. A mapping is the list of its entries, in order.
pub enum YamlModel {
    Text(Seq<char>),
    Flag(bool),
    Mapping(Seq<(Seq<char>, YamlModel)>),
}

/// The entries of a mapping whose keys are texts, in the order of their first insertion.
pub uninterp spec fn mapping_entries(m: serde_yaml::Mapping) -> Seq<(Seq<char>, YamlModel)>;

/// The text that `serde_yaml` writes for a mapping, where it writes one.
pub uninterp spec fn yaml_text(entries: Seq<(Seq<char>, YamlModel)>) -> Option<Seq<char>>;

/// What an item holds.
pub open spec fn item_model(item: YamlItem) -> YamlModel {
    match item {
        YamlItem::Text(s) => YamlModel::Text(s@),
        YamlItem::Flag(b) => YamlModel::Flag(b),
        YamlItem::Mapping(m) => YamlModel::Mapping(mapping_entries(m)),
    }
}

/// The position of a key, from `i` on.
pub open spec fn key_from(entries: Seq<(Seq<char>, YamlModel)>, key: Seq<char>, i: int) -> Option<int>
    decreases entries.len() - i,
{
    if i < 0 || i >= entries.len() {
        None
    } else if entries[i].0 == key {
        Some(i)
    } else {
        key_from(entries, key, i + 1)
    }
}

/// `entries` with a value for a key: in place of the one that it has, or at the end.
pub open spec fn put(
    entries: Seq<(Seq<char>, YamlModel)>,
    key: Seq<char>,
    value: YamlModel,
) -> Seq<(Seq<char>, YamlModel)> {
    match key_from(entries, key, 0) {
        Some(i) => entries.update(i, (key, value)),
        None => entries.push((key, value)),
    }
}

/// `Mapping::new` gives a mapping without entries.
#[verifier::external_body]
pub(crate) fn new_mapping() -> (m: serde_yaml::Mapping)
    ensures
        mapping_entries(m) == Seq::<(Seq<char>, YamlModel)>::empty(),
{
    serde_yaml::Mapping::new()
}

/// `Mapping::insert` replaces the value of a key that the mapping has, which keeps its
/// place, and adds an entry at the end otherwise.
#[verifier::external_body]
pub(crate) fn insert(m: &mut serde_yaml::Mapping, key: &str, item: YamlItem)
    ensures
        mapping_entries(*final(m)) == put(mapping_entries(*old(m)), key@, item_model(item)),
{
    let value = match item {
        YamlItem::Text(s) => serde_yaml::Value::String(s),
        YamlItem::Flag(b) => serde_yaml::Value::Bool(b),
        YamlItem::Mapping(inner) => serde_yaml::Value::Mapping(inner),
    };
    m.insert(serde_yaml::Value::String(key.to_string()), value);
}

/// `serde_yaml::to_string` depends on the mapping alone: it writes the same text each time,
/// or fails each time.
#[verifier::external_body]
pub(crate) fn write_mapping(m: serde_yaml::Mapping) -> (r: Result<String, serde_yaml::Error>)
    ensures
        match r {
            Ok(s) => yaml_text(mapping_entries(m)) == Some(s@),
            Err(e) => yaml_text(mapping_entries(m)) is None,
        },
{
    serde_yaml::to_string(&serde_yaml::Value::Mapping(m))
}

} // verus!
