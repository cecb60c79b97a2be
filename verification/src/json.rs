//! JSON objects, which `serde_json` holds. Conditions, overrides and request
//! contexts are such objects.
use vstd::prelude::*;

verus! {

/// A JSON object of `serde_json`.
#[verifier::external_type_specification]
#[verifier::external_body]
#[verifier::reject_recursive_types(K)]
#[verifier::reject_recursive_types(V)]
pub struct ExJsonMap<K, V>(serde_json::Map<K, V>);

/// A JSON value of `serde_json`.
#[verifier::external_type_specification]
#[verifier::external_body]
pub struct ExJsonValue(serde_json::Value);

/// The keys of a JSON object.
pub uninterp spec fn object_keys(
    object: serde_json::Map<String, serde_json::Value>,
) -> Set<Seq<char>>;

/// `serde_json::Map::is_empty`: an object is empty where it has no key.
#[verifier::external_body]
pub(crate) fn object_is_empty(object: &serde_json::Map<String, serde_json::Value>) -> (empty: bool)
    ensures
        empty == (object_keys(*object) == Set::<Seq<char>>::empty()),
{
    object.is_empty()
}

/// `Clone` of `serde_json::Map`: the copy holds the same keys and values.
#[verifier::external_body]
pub(crate) fn clone_object(object: &serde_json::Map<String, serde_json::Value>) -> (copy:
    serde_json::Map<String, serde_json::Value>)
    ensures
        copy == *object,
{
    object.clone()
}

} // verus!
