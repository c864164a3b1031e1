use vstd::prelude::*;

verus! {

#[verifier::external_type_specification]
#[verifier::external_body]
pub struct ExJsonError(serde_json::Error);

/// What `serde_json::to_vec` yields for a string: its JSON text, or `None`
/// where it reports an error.
pub uninterp spec fn json_string_of(s: Seq<char>) -> Option<Seq<u8>>;

/// What `serde_json::to_vec` yields for the JSON object whose members are
/// the given (key, string value) pairs, or `None` where it reports an error.
pub uninterp spec fn json_object_of(fields: Seq<(Seq<char>, Seq<char>)>) -> Option<Seq<u8>>;

/// Relies on `serde_json::to_vec` applied to a string.
#[verifier::external_body]
pub(crate) fn encode_string(s: &String) -> (r: Result<Vec<u8>, serde_json::Error>)
    ensures
        r is Ok <==> json_string_of(s@) is Some,
        r matches Ok(b) ==> b@ == json_string_of(s@)->0,
{
    serde_json::to_vec(s)
}

/// Relies on `serde_json::to_vec` applied to a `serde_json::Value::Object`
/// built from the pairs, each value a `serde_json::Value::String`.
#[verifier::external_body]
pub(crate) fn encode_object(fields: &Vec<(String, String)>) -> (r: Result<Vec<u8>, serde_json::Error>)
    ensures
        r is Ok <==> json_object_of(fields.deep_view()) is Some,
        r matches Ok(b) ==> b@ == json_object_of(fields.deep_view())->0,
{
    let members: serde_json::Map<String, serde_json::Value> = fields.iter().map(
        |(k, v)| (k.clone(), serde_json::Value::from(v.as_str())),
    ).collect();
    serde_json::to_vec(&serde_json::Value::Object(members))
}

} // verus!
