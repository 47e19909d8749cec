//! The deterministic 64-bit hash of observations.
//!
//! An observation is hashed as one byte string: the UTF-8 bytes of the
//! normalized path, then a single type-tag byte, then the typed payload.
//! The tag keeps the primitive domains disjoint; the payload of a number
//! is its IEEE-754 binary64 bit pattern in little-endian order, so the
//! hash is identical on every platform. Arrays and objects carry no tag
//! and no payload: only their path bytes are hashed. A path-only hash
//! (for existence queries) is the path bytes followed by the path-only
//! tag.

use crate::value::{JsonValue, ValModel};
use vstd::prelude::*;
use vstd::string::StrSliceExecFns;
use vstd::utf8::encode_utf8;

verus! {

/// Type-tag byte for a string payload (raw UTF-8 bytes, no length prefix).
pub const TYPE_TAG_STRING: u8 = 0x01;

/// Type-tag byte for a number payload (8 bytes, binary64, little-endian).
pub const TYPE_TAG_NUMBER: u8 = 0x02;

/// Type-tag byte for a boolean payload (one byte, 0 or 1).
pub const TYPE_TAG_BOOL: u8 = 0x03;

/// Type-tag byte for null (no payload).
pub const TYPE_TAG_NULL: u8 = 0x04;

/// Type-tag byte marking a path-existence observation (no payload).
pub const TYPE_TAG_PATH_ONLY: u8 = 0x05;

/// The XXH64 digest, at seed 0, of a byte sequence.
pub uninterp spec fn xxh64_of(bytes: Seq<u8>) -> u64;

/// Relies on `xxhash_rust::xxh64::xxh64`: the one-shot XXH64 digest of the
/// input bytes at the given seed, a pure function of its arguments.
#[verifier::external_body]
fn xxh64_seed0(bytes: &[u8]) -> (r: u64)
    ensures
        r == xxh64_of(bytes@),
{
    xxhash_rust::xxh64::xxh64(bytes, 0)
}

/// The byte string hashed for a `(path, value)` observation.
pub open spec fn pair_bytes(path: Seq<char>, m: ValModel) -> Seq<u8> {
    match m {
        ValModel::Text(s) => encode_utf8(path) + seq![TYPE_TAG_STRING] + encode_utf8(s),
        ValModel::Number(n) => encode_utf8(path) + seq![TYPE_TAG_NUMBER]
            + vstd::bytes::spec_u64_to_le_bytes(n),
        ValModel::Bool(b) => encode_utf8(path) + seq![TYPE_TAG_BOOL]
            + seq![if b { 1u8 } else { 0u8 }],
        ValModel::Null => encode_utf8(path) + seq![TYPE_TAG_NULL],
        _ => encode_utf8(path),
    }
}

/// The byte string hashed for a path-existence observation.
pub open spec fn path_only_bytes(path: Seq<char>) -> Seq<u8> {
    encode_utf8(path) + seq![TYPE_TAG_PATH_ONLY]
}

/// The hash of a `(path, value)` observation.
pub open spec fn hash_pair_spec(path: Seq<char>, m: ValModel) -> u64 {
    xxh64_of(pair_bytes(path, m))
}

/// The hash of a path-existence observation.
pub open spec fn hash_path_only_spec(path: Seq<char>) -> u64 {
    xxh64_of(path_only_bytes(path))
}

/// Hash a `(path, value)` pair: path bytes, type tag, typed payload.
/// Array and object values contribute only their path bytes.
pub fn hash_pair(path: &str, value: &JsonValue) -> (r: u64)
    ensures
        r == hash_pair_spec(path@, value@),
{
    let mut buf = path.as_bytes_vec();
    match value {
        JsonValue::String(s) => {
            buf.push(TYPE_TAG_STRING);
            let mut payload = s.as_str().as_bytes_vec();
            buf.append(&mut payload);
            proof {
                assert(buf@ =~= pair_bytes(path@, value@));
            }
        },
        JsonValue::Number(n) => {
            buf.push(TYPE_TAG_NUMBER);
            let mut payload = vstd::bytes::u64_to_le_bytes(*n);
            buf.append(&mut payload);
            proof {
                assert(buf@ =~= pair_bytes(path@, value@));
            }
        },
        JsonValue::Bool(b) => {
            buf.push(TYPE_TAG_BOOL);
            buf.push(if *b {
                1u8
            } else {
                0u8
            });
            proof {
                assert(buf@ =~= pair_bytes(path@, value@));
            }
        },
        JsonValue::Null => {
            buf.push(TYPE_TAG_NULL);
            proof {
                assert(buf@ =~= pair_bytes(path@, value@));
            }
        },
        _ => {
            proof {
                assert(buf@ =~= pair_bytes(path@, value@));
            }
        },
    }
    xxh64_seed0(buf.as_slice())
}

/// Hash a path alone, for existence queries.
pub fn hash_path_only(path: &str) -> (r: u64)
    ensures
        r == hash_path_only_spec(path@),
{
    let mut buf = path.as_bytes_vec();
    buf.push(TYPE_TAG_PATH_ONLY);
    proof {
        assert(buf@ =~= path_only_bytes(path@));
    }
    xxh64_seed0(buf.as_slice())
}

/// Hash a query predicate: the path is normalized first, so a query probe
/// meets the hashes inserted at build time.
pub fn hash_predicate(path: &str, value: &JsonValue) -> (r: u64)
    ensures
        r == hash_pair_spec(crate::path::norm(path@), value@),
{
    let normalized = crate::path::normalize_query_path(path);
    hash_pair(normalized.as_str(), value)
}

} // verus!
