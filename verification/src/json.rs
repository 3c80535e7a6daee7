//! Reading `serde_json` values.
//!
//! A `serde_json::Value` is opaque to the verifier. What it holds is named by
//! [`value_tree`], and each accessor below states, without proof, what the
//! corresponding `serde_json` method returns in terms of that name.

use crate::node::Tree;
use serde_json::Value;
use vstd::prelude::*;

verus! {

/// `serde_json::Value`, carried through as it is.
#[verifier::external_type_specification]
#[verifier::external_body]
pub struct ExValue(serde_json::Value);

/// The tree that a JSON value holds: its variant, its payload, and for an
/// array or an object the trees of its members in iteration order.
pub uninterp spec fn value_tree(value: serde_json::Value) -> Tree;

/// The trees of a run of JSON values.
pub open spec fn value_trees(values: Seq<Value>) -> Seq<Tree> {
    Seq::new(values.len(), |i: int| value_tree(values[i]))
}

/// The trees of a run of borrowed object members.
pub open spec fn member_trees(members: Seq<(&String, &Value)>) -> Seq<(Seq<char>, Tree)> {
    Seq::new(members.len(), |i: int| (members[i].0@, value_tree(*members[i].1)))
}

/// `Value::is_null`: true exactly for the `Null` variant.
#[verifier::external_body]
pub(crate) fn is_null(value: &Value) -> (null: bool)
    ensures
        null == (value_tree(*value) is Null),
{
    value.is_null()
}

/// `Value::as_bool`: the payload of the `Bool` variant, `None` for any other.
#[verifier::external_body]
pub(crate) fn as_bool(value: &Value) -> (payload: Option<bool>)
    ensures
        payload == (match value_tree(*value) {
            Tree::Boolean(b) => Some(b),
            _ => None,
        }),
{
    value.as_bool()
}

/// `Value::as_str`: the payload of the `String` variant, `None` for any other.
#[verifier::external_body]
pub(crate) fn as_str(value: &Value) -> (payload: Option<&str>)
    ensures
        match payload {
            Some(text) => value_tree(*value) == Tree::Text(text@),
            None => !(value_tree(*value) is Text),
        },
{
    value.as_str()
}

/// The `Number` variant of `Value` and the `Display` of `serde_json::Number`:
/// the text that the number of a `Number` value is displayed as, `None` for
/// any other variant.
#[verifier::external_body]
pub(crate) fn as_number_text(value: &Value) -> (payload: Option<String>)
    ensures
        match payload {
            Some(text) => value_tree(*value) == Tree::Number(text@),
            None => !(value_tree(*value) is Number),
        },
{
    match value {
        Value::Number(number) => Some(number.to_string()),
        _ => None,
    }
}

/// `Value::as_array`: the elements of the `Array` variant in order, `None`
/// for any other.
#[verifier::external_body]
pub(crate) fn as_array(value: &Value) -> (payload: Option<&Vec<Value>>)
    ensures
        match payload {
            Some(items) => value_tree(*value) == Tree::Sequence(value_trees(items@)),
            None => !(value_tree(*value) is Sequence),
        },
{
    value.as_array()
}

/// The `Object` variant of `Value` and `Map::iter`: the members of an
/// `Object` value in the order in which its map is walked, each key once,
/// `None` for any other variant.
#[verifier::external_body]
pub(crate) fn as_members(value: &Value) -> (payload: Option<Vec<(&String, &Value)>>)
    ensures
        match payload {
            Some(members) => {
                &&& value_tree(*value) == Tree::Mapping(member_trees(members@))
                &&& forall|i: int, j: int|
                    0 <= i < j < members@.len() ==> (#[trigger] members@[i]).0@ != (
                    #[trigger] members@[j]).0@
            },
            None => !(value_tree(*value) is Mapping),
        },
{
    match value {
        Value::Object(map) => Some(map.iter().collect()),
        _ => None,
    }
}

} // verus!
