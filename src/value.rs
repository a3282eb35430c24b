use vstd::prelude::*;
use crate::error::Error;

verus! {

/// A structured value produced by a script fragment.
#[verifier::external_type_specification]
#[verifier::external_body]
pub struct ExValue(serde_json::Value);

/// The JSON text that `serde_json` writes for a value.
pub uninterp spec fn json_encoding(v: serde_json::Value) -> Seq<u8>;

/// Relies on serde_json::to_vec: the bytes are the JSON text of `v`. Writing a
/// `Value` into a `Vec` does not fail: its map keys are strings, non-finite
/// numbers are written as `null`, and writing to memory cannot fail.
#[verifier::external_body]
pub(crate) fn encode_value(v: &serde_json::Value) -> (r: Result<Vec<u8>, Error>)
    ensures
        r is Ok,
        match r {
            Ok(b) => b@ == json_encoding(*v),
            Err(e) => e == Error::Serialization,
        },
{
    match serde_json::to_vec(v) {
        Ok(b) => Ok(b),
        Err(_) => Err(Error::Serialization),
    }
}

} // verus!
