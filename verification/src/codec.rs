//! The JSON codec collaborator: turning stored values into record bytes and
//! back.
//!
//! A stored value is a list of string pairs. Encoding and decoding are
//! delegated to `serde_json`; the library relies only on the facts stated
//! here, chiefly that decoding the encoder's own output returns exactly the
//! encoded value.

use crate::errors::PreferencesError;
use vstd::prelude::*;

verus! {

/// The JSON record bytes that encoding produces for a list of string pairs.
pub uninterp spec fn encoded_pairs(pairs: Seq<(Seq<char>, Seq<char>)>) -> Seq<u8>;

/// What decoding yields for a byte sequence: the decoded pairs, or nothing
/// when the bytes are not a well-formed encoding.
pub uninterp spec fn decoded_pairs(bytes: Seq<u8>) -> Option<Seq<(Seq<char>, Seq<char>)>>;

/// Relies on `serde_json::to_vec`: the encoding is a function of the value
/// alone, and for a vector of string pairs serialization cannot fail (its
/// `Serialize` implementations never err and it contains no map with
/// non-string keys). The second clause is the codec round trip:
/// `serde_json::from_slice` decodes `serde_json::to_vec`'s own output back
/// to exactly the encoded value.
#[verifier::external_body]
fn encode_pairs(pairs: &Vec<(String, String)>) -> (r: Vec<u8>)
    ensures
        r@ == encoded_pairs(pairs.deep_view()),
        decoded_pairs(r@) == Some(pairs.deep_view()),
{
    serde_json::to_vec(pairs).unwrap()
}

/// Relies on `serde_json::from_slice`: decoding is a function of the bytes
/// alone, and decoding bytes that `serde_json::to_vec` produced for a value
/// returns exactly that value (serde_json round-trips vectors of string
/// pairs).
#[verifier::external_body]
fn decode_pairs(bytes: &Vec<u8>) -> (r: Result<Vec<(String, String)>, serde_json::Error>)
    ensures
        (match r {
            Ok(p) => decoded_pairs(bytes@) == Some(p.deep_view()),
            Err(_) => decoded_pairs(bytes@) is None,
        }),
{
    serde_json::from_slice(bytes)
}

/// Encodes a value into the bytes its record holds: the same bytes that
/// saving the value writes. Writing them to a sink of the caller's own
/// choosing stores the value outside the keyed layout.
pub fn save_to_bytes(value: &Vec<(String, String)>) -> (r: Vec<u8>)
    ensures
        r@ == encoded_pairs(value.deep_view()),
        decoded_pairs(r@) == Some(value.deep_view()),
{
    encode_pairs(value)
}

/// Decodes record bytes back into a stored value.
///
/// Bytes that encoding produced decode to exactly the encoded value; bytes
/// that are not a well-formed record give a `Json` error, never a default
/// value.
pub fn load_from_bytes(bytes: &Vec<u8>) -> (r: Result<Vec<(String, String)>, PreferencesError>)
    ensures
        decoded_pairs(bytes@) matches Some(s) ==> (r matches Ok(v) && v.deep_view() == s),
        decoded_pairs(bytes@) is None <==> (r matches Err(e) && e is Json),
{
    match decode_pairs(bytes) {
        Ok(v) => Ok(v),
        Err(e) => Err(PreferencesError::Json(e)),
    }
}

} // verus!
