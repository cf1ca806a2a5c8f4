//! The calls that the protocol makes into hashing, serialisation and key
//! libraries. Each item here is trusted: its contract is believed, not proved.
use vstd::prelude::*;

use sha2::Digest;

verus! {

/// `ed25519_dalek::PublicKey`, the key with which a peer signs its messages.
#[verifier::external_type_specification]
#[verifier::external_body]
pub struct ExPublicKey(ed25519_dalek::PublicKey);

/// The SHA-256 digest of a byte string.
pub uninterp spec fn sha256_of(data: Seq<u8>) -> Seq<u8>;

/// The SHA-512 digest of a byte string.
pub uninterp spec fn sha512_of(data: Seq<u8>) -> Seq<u8>;

/// The bytes of the JSON object whose members are `pairs`, in that order, as
/// `serde_json` writes it.
pub uninterp spec fn json_object_of(pairs: Seq<(Seq<char>, u32)>) -> Seq<u8>;

/// The plain model of a list of store entries.
pub open spec fn pairs_model(pairs: Seq<(String, u32)>) -> Seq<(Seq<char>, u32)> {
    pairs.map_values(|e: (String, u32)| (e.0@, e.1))
}

/// Calls `sha2::Sha256` (`new`, `update`, `finalize`) on `data`. The result is
/// named `sha256_of(data)`; a SHA-256 digest is 32 bytes long.
#[verifier::external_body]
pub(crate) fn sha256(data: &Vec<u8>) -> (r: Vec<u8>)
    ensures
        r@ == sha256_of(data@),
        r@.len() == 32,
{
    let mut hasher = sha2::Sha256::new();
    hasher.update(data.as_slice());
    hasher.finalize().to_vec()
}

/// Calls `ed25519_dalek::Sha512` (the re-exported `sha2::Sha512`: `new`,
/// `update`, `finalize`) on `data`. The result is named `sha512_of(data)`; a
/// SHA-512 digest is 64 bytes long.
#[verifier::external_body]
pub(crate) fn sha512(data: &Vec<u8>) -> (r: Vec<u8>)
    ensures
        r@ == sha512_of(data@),
        r@.len() == 64,
{
    let mut hasher = ed25519_dalek::Sha512::new();
    hasher.update(data.as_slice());
    hasher.finalize().as_slice().to_vec()
}

/// Writes `pairs` as one JSON object with `serde_json`'s serializer
/// (`serde::Serializer::collect_map`), members in the order of `pairs`. String
/// keys and integer values cannot fail to serialise, and writing into a vector
/// cannot fail. The result is named `json_object_of` of the pairs' model.
#[verifier::external_body]
pub(crate) fn json_object(pairs: &Vec<(String, u32)>) -> (r: Vec<u8>)
    ensures
        r@ == json_object_of(pairs_model(pairs@)),
{
    let mut out: Vec<u8> = Vec::new();
    let mut ser = serde_json::Serializer::new(&mut out);
    match serde::Serializer::collect_map(&mut ser, pairs.iter().map(|e| (&e.0, &e.1))) {
        Ok(()) => out,
        Err(_) => Vec::new(),
    }
}

/// Do `bytes` decode as an ed25519 public key: 32 bytes holding the compressed
/// form of a point of the curve?
pub uninterp spec fn decodes_as_public_key(bytes: Seq<u8>) -> bool;

/// The key that `ed25519_dalek::PublicKey::from_bytes` decodes from `bytes`:
/// the bytes as the compressed point, beside the decompressed point.
pub uninterp spec fn decoded_public_key(bytes: Seq<u8>) -> ed25519_dalek::PublicKey;

/// Calls `ed25519_dalek::PublicKey::from_bytes`. Its source refuses every
/// input whose length is not 32 bytes, and on 32 bytes succeeds exactly when
/// the compressed point decompresses; both the test and the key built depend
/// on the bytes alone. The contract names them and says that only 32 bytes
/// pass the test.
#[verifier::external_body]
pub(crate) fn public_key_from_bytes(bytes: &Vec<u8>) -> (r: Option<ed25519_dalek::PublicKey>)
    ensures
        r is Some == decodes_as_public_key(bytes@),
        r matches Some(k) ==> k == decoded_public_key(bytes@),
        bytes@.len() != 32 ==> r is None,
{
    match ed25519_dalek::PublicKey::from_bytes(bytes.as_slice()) {
        Ok(key) => Some(key),
        Err(_) => None,
    }
}

/// Calls `ed25519_dalek::PublicKey::as_bytes` and copies the 32 bytes out: the
/// compressed form of the key's point. Every key holds a point of the curve in
/// that form (the crate builds keys only by decompressing or by compressing a
/// point), so the bytes decode again. Which 32 bytes they are is not stated.
#[verifier::external_body]
pub(crate) fn public_key_bytes(key: &ed25519_dalek::PublicKey) -> (r: Vec<u8>)
    ensures
        r@.len() == 32,
        decodes_as_public_key(r@),
{
    key.as_bytes().to_vec()
}

} // verus!
