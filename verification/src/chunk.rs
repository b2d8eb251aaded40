//! Chunks of key/value data: their JSON bytes and their content address.
use std::collections::BTreeMap;

use sha2::Digest;
use vstd::prelude::*;

use crate::codec::{bytes_to_hex, hex_bytes};
use crate::ordered::{pair_keys, pair_views, sorted_texts};

verus! {

/// The error type of `serde_json`.
#[verifier::external_type_specification]
#[verifier::external_body]
pub struct ExJsonError(serde_json::Error);

/// The JSON object that `serde_json::to_vec` writes for a
/// `BTreeMap<String, String>` holding these pairs.
pub uninterp spec fn json_object_bytes(pairs: Seq<(Seq<char>, Seq<char>)>) -> Seq<u8>;

/// The pairs, in the map's order, of the `BTreeMap<String, String>` that
/// `serde_json::from_slice` reads from these bytes; `None` where it fails.
pub uninterp spec fn json_object_pairs(bytes: Seq<u8>) -> Option<Seq<(Seq<char>, Seq<char>)>>;

/// The SHA-256 digest of these bytes.
pub uninterp spec fn sha256_digest(data: Seq<u8>) -> Seq<u8>;

/// `serde_json::to_vec` of the `BTreeMap<String, String>` made of these
/// pairs. The pairs come in ascending key order with no key twice, so the
/// map holds exactly them, in this order. Reading the bytes back with
/// `serde_json::from_slice` as a `BTreeMap<String, String>` gives the same
/// pairs: each string is written as a JSON string and read back unescaped,
/// the map's entries in key order. Serialization succeeds: a map with
/// string keys and string values only ever fails on the writer, and writing
/// into a `Vec` does not fail.
#[verifier::external_body]
pub(crate) fn encode_string_pairs(pairs: &Vec<(String, String)>) -> (r: Result<Vec<u8>, serde_json::Error>)
    requires
        sorted_texts(pair_keys(pairs@)),
    ensures
        r is Ok,
        r matches Ok(b) ==> b@ == json_object_bytes(pair_views(pairs@)),
        r matches Ok(b) ==> json_object_pairs(b@) == Some(pair_views(pairs@)),
{
    let m: BTreeMap<String, String> = pairs.iter().cloned().collect();
    serde_json::to_vec(&m)
}

/// `serde_json::from_slice` read as a `BTreeMap<String, String>`, whose
/// pairs are handed out in the map's order.
#[verifier::external_body]
pub(crate) fn decode_string_pairs(bytes: &[u8]) -> (r: Result<Vec<(String, String)>, serde_json::Error>)
    ensures
        r is Ok <==> json_object_pairs(bytes@) is Some,
        r matches Ok(v) ==> json_object_pairs(bytes@) == Some(pair_views(v@)),
{
    match serde_json::from_slice::<BTreeMap<String, String>>(bytes) {
        Ok(m) => Ok(m.into_iter().collect()),
        Err(e) => Err(e),
    }
}

/// `Sha256::digest`: the 32-byte SHA-256 digest of the data.
#[verifier::external_body]
fn sha256(data: &[u8]) -> (r: Vec<u8>)
    ensures
        r@ == sha256_digest(data@),
        r@.len() == 32,
{
    sha2::Sha256::digest(data).to_vec()
}

/// The content address of a chunk: the SHA-256 digest of its bytes in
/// lowercase hexadecimal, 64 characters.
pub fn compute_hash(data: &[u8]) -> (r: String)
    ensures
        r@ == hex_bytes(sha256_digest(data@)),
        r@.len() == 64,
{
    let digest = sha256(data);
    bytes_to_hex(digest.as_slice())
}

} // verus!
