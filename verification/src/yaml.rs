//! The YAML values that documents are read from and written to.
//!
//! A `serde_yaml::Value` is carried through the library untouched. What the
//! library needs to know of one (whether it is a string, a sequence or a
//! mapping, and of what) is named by the spec functions below, and the
//! functions of this module are the only ones that look inside.

use vstd::prelude::*;

verus! {

#[verifier::external_type_specification]
#[verifier::external_body]
pub struct ExValue(serde_yaml::Value);

#[verifier::external_type_specification]
#[verifier::external_body]
pub struct ExYamlError(serde_yaml::Error);

/// The value that `serde_yaml::from_str` reads from `text`, if it reads one.
pub uninterp spec fn yaml_parsed(text: Seq<char>) -> Option<serde_yaml::Value>;

/// The text that `serde_yaml::to_string` writes for `v`, if it writes one.
pub uninterp spec fn yaml_written(v: serde_yaml::Value) -> Option<Seq<char>>;

/// The characters of `v` where it is a YAML string.
pub uninterp spec fn yaml_text(v: serde_yaml::Value) -> Option<Seq<char>>;

/// The elements of `v` where it is a YAML sequence.
pub uninterp spec fn yaml_items(v: serde_yaml::Value) -> Option<Seq<serde_yaml::Value>>;

/// The keys and values of `v`, in the order in which it holds them, where it
/// is a YAML mapping.
pub uninterp spec fn yaml_entries(v: serde_yaml::Value) -> Option<
    Seq<(serde_yaml::Value, serde_yaml::Value)>,
>;

/// What `==` of `serde_yaml::Value` says of `a` and `b`.
pub uninterp spec fn yaml_same(a: serde_yaml::Value, b: serde_yaml::Value) -> bool;

/// An open bag of fields as a YAML mapping holds it: text keys, any values.
pub type FieldSeq = Seq<(Seq<char>, serde_yaml::Value)>;

/// Whether no key occurs twice among `fields`.
pub open spec fn distinct_keys(fields: FieldSeq) -> bool {
    forall|i: int, j: int|
        0 <= i < j < fields.len() ==> (#[trigger] fields[i]).0 != (#[trigger] fields[j]).0
}

/// The keys and values of a list of owned fields.
pub open spec fn field_seq(fields: Seq<(String, serde_yaml::Value)>) -> FieldSeq {
    Seq::new(fields.len(), |i: int| (fields[i].0@, fields[i].1))
}

/// Whether `v` is a mapping that holds exactly `fields`, in their order, each
/// key as a YAML string.
pub open spec fn holds_fields(v: serde_yaml::Value, fields: FieldSeq) -> bool {
    &&& yaml_entries(v) is Some
    &&& yaml_entries(v).unwrap().len() == fields.len()
    &&& forall|i: int|
        0 <= i < fields.len() ==> {
            &&& yaml_text((#[trigger] yaml_entries(v).unwrap()[i]).0) == Some(fields[i].0)
            &&& yaml_entries(v).unwrap()[i].1 == fields[i].1
        }
}

/// Reads one YAML value from `text` with `serde_yaml::from_str`. The contract
/// claims only that the outcome is the one named by [`yaml_parsed`]: a
/// function of the text alone.
#[verifier::external_body]
pub(crate) fn parse_value(text: &str) -> (r: Result<serde_yaml::Value, serde_yaml::Error>)
    ensures
        r is Ok <==> yaml_parsed(text@) is Some,
        r is Ok ==> yaml_parsed(text@) == Some(r.unwrap()),
{
    serde_yaml::from_str::<serde_yaml::Value>(text)
}

/// Writes `v` as text with `serde_yaml::to_string`. The contract claims only
/// that the outcome is the one named by [`yaml_written`].
#[verifier::external_body]
pub(crate) fn write_value(v: &serde_yaml::Value) -> (r: Result<String, serde_yaml::Error>)
    ensures
        r is Ok <==> yaml_written(*v) is Some,
        r is Ok ==> yaml_written(*v) == Some(r.unwrap()@),
{
    serde_yaml::to_string(v)
}

/// Tells the variant `serde_yaml::Value::String` from the others and hands
/// out a copy of its characters, which [`yaml_text`] names.
#[verifier::external_body]
pub(crate) fn value_text(v: &serde_yaml::Value) -> (r: Option<String>)
    ensures
        r is Some <==> yaml_text(*v) is Some,
        r is Some ==> yaml_text(*v) == Some(r.unwrap()@),
{
    match v {
        serde_yaml::Value::String(s) => Some(s.clone()),
        _ => None,
    }
}

/// Tells the variant `serde_yaml::Value::Sequence` from the others and hands
/// out a copy of its elements, which [`yaml_items`] names.
#[verifier::external_body]
pub(crate) fn value_items(v: &serde_yaml::Value) -> (r: Option<Vec<serde_yaml::Value>>)
    ensures
        r is Some <==> yaml_items(*v) is Some,
        r is Some ==> yaml_items(*v) == Some(r.unwrap()@),
{
    match v {
        serde_yaml::Value::Sequence(items) => Some(items.clone()),
        _ => None,
    }
}

/// Tells the variant `serde_yaml::Value::Mapping` from the others and hands
/// out copies of its keys and values in the order of `Mapping::iter`, which
/// [`yaml_entries`] names.
#[verifier::external_body]
pub(crate) fn value_entries(v: &serde_yaml::Value) -> (r: Option<
    Vec<(serde_yaml::Value, serde_yaml::Value)>,
>)
    ensures
        r is Some <==> yaml_entries(*v) is Some,
        r is Some ==> yaml_entries(*v) == Some(r.unwrap()@),
{
    match v {
        serde_yaml::Value::Mapping(m) => Some(
            m.iter().map(|(k, x)| (k.clone(), x.clone())).collect(),
        ),
        _ => None,
    }
}

/// Builds `serde_yaml::Value::String`. The contract claims that the result is
/// a string of these characters, and neither a sequence nor a mapping.
#[verifier::external_body]
pub(crate) fn text_value(s: &str) -> (v: serde_yaml::Value)
    ensures
        yaml_text(v) == Some(s@),
        yaml_items(v) is None,
        yaml_entries(v) is None,
{
    serde_yaml::Value::String(s.to_string())
}

/// Builds `serde_yaml::Value::Sequence`. The contract claims that the result
/// is a sequence of these elements, and neither a string nor a mapping.
#[verifier::external_body]
pub(crate) fn items_value(items: Vec<serde_yaml::Value>) -> (v: serde_yaml::Value)
    ensures
        yaml_items(v) == Some(items@),
        yaml_text(v) is None,
        yaml_entries(v) is None,
{
    serde_yaml::Value::Sequence(items)
}

/// Builds `serde_yaml::Value::Mapping` by collecting the fields in order, each
/// key as a `Value::String`. A mapping keeps the order of insertion and one
/// entry per key, so for keys that are all different the contract claims that
/// the result holds exactly these fields in this order.
#[verifier::external_body]
pub(crate) fn fields_value(fields: Vec<(String, serde_yaml::Value)>) -> (v: serde_yaml::Value)
    requires
        distinct_keys(field_seq(fields@)),
    ensures
        holds_fields(v, field_seq(fields@)),
        yaml_text(v) is None,
        yaml_items(v) is None,
{
    serde_yaml::Value::Mapping(
        fields.into_iter().map(|(k, x)| (serde_yaml::Value::String(k), x)).collect(),
    )
}

/// Copies a value with `Clone::clone` of `serde_yaml::Value`, a derived impl:
/// the copy is the value.
#[verifier::external_body]
pub(crate) fn copy_value(v: &serde_yaml::Value) -> (r: serde_yaml::Value)
    ensures
        r == *v,
{
    v.clone()
}

/// Compares two values with `==` of `serde_yaml::Value`. The contract gives
/// the answer the name [`yaml_same`] and claims nothing more of it.
#[verifier::external_body]
pub(crate) fn same_value(a: &serde_yaml::Value, b: &serde_yaml::Value) -> (r: bool)
    ensures
        r == yaml_same(*a, *b),
{
    a == b
}

} // verus!
