//! Canonical JSON hashing: parse, canonical serialization, SHA-256, hex.
//!
//! The compose hash is SHA-256 over the canonical form of the manifest text,
//! a NUL separator, and the image reference, hex-encoded. A text that does
//! not parse is hashed as it stands; that fallback is the documented weak
//! point of the scheme.

use vstd::prelude::*;
use vstd::string::StringSliceAdditionalSpecFns;

use crate::json::{
    lemma_canonical_serialization_unique, lemma_ser_no_nul, lemma_sorted_json_unique, nums_wf,
    ser_json, sort_json, sorted_json, write_json, JsonValue,
};

verus! {

/// The lower-case hex digit for `n < 16`.
pub open spec fn hex_char_lower(n: u8) -> char {
    if n < 10 {
        ((0x30 + n) as u8) as char
    } else {
        ((0x57 + n) as u8) as char
    }
}

/// The lower-case hex text of a byte string: two digits for each byte.
pub open spec fn hex_of_bytes(b: Seq<u8>) -> Seq<char> {
    Seq::new(
        b.len() * 2,
        |i: int|
            if i % 2 == 0 {
                hex_char_lower(b[i / 2] / 16)
            } else {
                hex_char_lower(b[i / 2] % 16)
            },
    )
}

/// A byte that is an ASCII hex digit, upper or lower case.
pub open spec fn is_hex_digit_byte(b: u8) -> bool {
    (0x30 <= b <= 0x39) || (0x41 <= b <= 0x46) || (0x61 <= b <= 0x66)
}

/// The value of one ASCII hex digit byte.
pub open spec fn hex_digit_value(b: u8) -> u8 {
    if 0x30 <= b <= 0x39 {
        (b - 0x30) as u8
    } else if 0x41 <= b <= 0x46 {
        (b - 0x37) as u8
    } else {
        (b - 0x57) as u8
    }
}

/// A byte string that is well-formed hex text: even length, digits only.
pub open spec fn valid_hex(s: Seq<u8>) -> bool {
    s.len() % 2 == 0 && (forall|i: int| 0 <= i < s.len() ==> is_hex_digit_byte(#[trigger] s[i]))
}

/// The bytes denoted by well-formed hex text.
pub open spec fn bytes_of_hex(s: Seq<u8>) -> Seq<u8> {
    Seq::new(
        s.len() / 2,
        |i: int| (hex_digit_value(s[2 * i]) * 16 + hex_digit_value(s[2 * i + 1])) as u8,
    )
}

/// Relies on hex::encode: lower-case hex, two digits for each input byte.
#[verifier::external_body]
pub fn hex_encode(data: &[u8]) -> (r: String)
    ensures
        r@ == hex_of_bytes(data@),
{
    hex::encode(data)
}

/// Relies on hex::decode: accepts exactly even-length hex text of upper or
/// lower case digits, and decodes pairwise.
#[verifier::external_body]
pub fn hex_decode(data: &[u8]) -> (r: Option<Vec<u8>>)
    ensures
        r is Some <==> valid_hex(data@),
        r matches Option::Some(b) ==> b@ == bytes_of_hex(data@),
{
    hex::decode(data).ok()
}

/// What SHA-256 returns; a function of the input bytes alone.
pub uninterp spec fn sha256_of(data: Seq<u8>) -> Seq<u8>;

/// Relies on sha2::Sha256: the digest is 32 bytes and depends on the input
/// bytes alone.
#[verifier::external_body]
pub fn sha256(data: &[u8]) -> (r: Vec<u8>)
    ensures
        r@ == sha256_of(data@),
        r@.len() == 32,
{
    let mut hasher = <sha2::Sha256 as sha2::Digest>::new();
    sha2::Digest::update(&mut hasher, data);
    sha2::Digest::finalize(hasher).to_vec()
}

/// What the JSON parser returns on a byte string; a function of the bytes
/// alone. A text that is not a JSON document has no parse.
pub uninterp spec fn parsed_json(s: Seq<u8>) -> Option<JsonValue>;

#[verifier::external_type_specification]
#[verifier::external_body]
pub struct ExSerdeValue(serde_json::Value);

/// Converts a parsed document into the library's model; numbers keep their
/// rendered decimal text.
#[verifier::external_body]
fn json_of_value(v: &serde_json::Value) -> JsonValue {
    match v {
        serde_json::Value::Null => JsonValue::Null,
        serde_json::Value::Bool(b) => JsonValue::Bool(*b),
        serde_json::Value::Number(n) => JsonValue::Num(n.to_string().into_bytes()),
        serde_json::Value::String(s) => JsonValue::Str(s.clone().into_bytes()),
        serde_json::Value::Array(items) => JsonValue::Arr(
            items.iter().map(|x| json_of_value(x)).collect(),
        ),
        serde_json::Value::Object(fields) => JsonValue::Obj(
            fields.iter().map(
                |kv| crate::json::JsonField { key: kv.0.clone().into_bytes(), value: json_of_value(kv.1) },
            ).collect(),
        ),
    }
}

/// Relies on serde_json::from_slice: the parse depends on the bytes alone;
/// object members come out of its map type with strictly increasing unique
/// keys, and numbers are rendered as plain decimal or scientific text.
#[verifier::external_body]
pub fn parse_json(s: &[u8]) -> (r: Option<JsonValue>)
    ensures
        r == parsed_json(s@),
        r matches Option::Some(v) ==> sorted_json(v) && nums_wf(v),
{
    match serde_json::from_slice::<serde_json::Value>(s) {
        Ok(v) => Some(json_of_value(&v)),
        Err(_) => None,
    }
}

/// The canonical form of a text: the serialization of its parse, which holds
/// every object in sorted key order; an unparseable text stands unchanged.
pub open spec fn canon_text(s: Seq<u8>) -> Seq<u8> {
    match parsed_json(s) {
        Option::Some(v) => ser_json(v),
        Option::None => s,
    }
}

/// Canonicalizes a JSON text so that member order in the source cannot
/// change the hash: the parse is put into canonical key order and
/// re-serialized. A text that does not parse is returned as it stands. The
/// ordering pass cannot change the result here — the parser already
/// delivers sorted members, and canonical serialization is unique — but it
/// is what makes the canonical form independent of the parser's order.
pub fn canonicalize_json(text: &[u8]) -> (r: Vec<u8>)
    ensures
        r@ == canon_text(text@),
{
    match parse_json(text) {
        Option::Some(v) => {
            let ghost parsed = v;
            proof {
                lemma_sorted_json_unique(parsed);
            }
            let sorted = sort_json(v);
            proof {
                lemma_canonical_serialization_unique(parsed, sorted);
            }
            let mut out: Vec<u8> = Vec::new();
            write_json(&sorted, &mut out);
            out
        },
        Option::None => vstd::slice::slice_to_vec(text),
    }
}

/// The exact byte string the compose hash digests.
pub open spec fn hash_input(compose: Seq<u8>, image: Seq<u8>) -> Seq<u8> {
    canon_text(compose) + seq![0u8] + image
}

/// The compose hash: SHA-256 over the canonical manifest text, a NUL
/// separator, and the image reference, as lower-case hex.
pub fn compute_compose_hash(compose_file: &str, image: &str) -> (r: String)
    ensures
        r@ == hex_of_bytes(sha256_of(hash_input(compose_file.spec_bytes(), image.spec_bytes()))),
{
    let digest = compute_compose_hash_digest(compose_file, image);
    hex_encode(digest.as_slice())
}

/// The application id under which the VM manager files the VM: the first
/// forty hex characters of the compose hash, computed as the hex text of the
/// digest's first twenty bytes.
pub fn compute_app_id(compose_file: &str, image: &str) -> (r: String)
    ensures
        r@ == hex_of_bytes(
            sha256_of(hash_input(compose_file.spec_bytes(), image.spec_bytes())).take(20),
        ),
{
    let full = compute_compose_hash_digest(compose_file, image);
    let mut prefix: Vec<u8> = Vec::new();
    let mut i: usize = 0;
    while i < 20
        invariant
            0 <= i <= 20,
            full@.len() == 32,
            full@ == sha256_of(hash_input(compose_file.spec_bytes(), image.spec_bytes())),
            prefix@ == full@.take(i as int),
        decreases 20 - i,
    {
        prefix.push(full[i]);
        proof {
            assert(prefix@ =~= full@.take(i + 1));
        }
        i = i + 1;
    }
    hex_encode(prefix.as_slice())
}

/// The raw digest bytes of the compose hash.
fn compute_compose_hash_digest(compose_file: &str, image: &str) -> (r: Vec<u8>)
    ensures
        r@ == sha256_of(hash_input(compose_file.spec_bytes(), image.spec_bytes())),
        r@.len() == 32,
{
    let mut input = canonicalize_json(compose_file.as_bytes());
    input.push(0u8);
    let image_bytes = image.as_bytes();
    let mut i: usize = 0;
    while i < image_bytes.len()
        invariant
            0 <= i <= image_bytes@.len(),
            input@ == canon_text(compose_file.spec_bytes()) + seq![0u8] + image_bytes@.take(
                i as int,
            ),
        decreases image_bytes@.len() - i,
    {
        input.push(image_bytes[i]);
        proof {
            assert(input@ =~= canon_text(compose_file.spec_bytes()) + seq![0u8]
                + image_bytes@.take(i + 1));
        }
        i = i + 1;
    }
    proof {
        assert(image_bytes@.take(image_bytes@.len() as int) =~= image_bytes@);
        assert(input@ == hash_input(compose_file.spec_bytes(), image.spec_bytes()));
    }
    sha256(input.as_slice())
}

/// The hex text of a digest prefix is the prefix of the digest's hex text:
/// truncating the compose hash to forty characters and hashing twenty bytes
/// name the same application id.
pub proof fn lemma_hex_take(b: Seq<u8>, n: int)
    requires
        0 <= n <= b.len(),
    ensures
        hex_of_bytes(b.take(n)) == hex_of_bytes(b).take(2 * n),
{
    assert(hex_of_bytes(b.take(n)) =~= hex_of_bytes(b).take(2 * n));
}

/// Two hash inputs agree only when both the canonical text and the image
/// agree, as long as the canonical text holds no NUL byte: the separator
/// cannot be mistaken for content.
pub proof fn lemma_hash_input_injective(c1: Seq<u8>, i1: Seq<u8>, c2: Seq<u8>, i2: Seq<u8>)
    requires
        forall|k: int| 0 <= k < c1.len() ==> c1[k] != 0,
        forall|k: int| 0 <= k < c2.len() ==> c2[k] != 0,
        c1 + seq![0u8] + i1 == c2 + seq![0u8] + i2,
    ensures
        c1 == c2,
        i1 == i2,
{
    let s = c1 + seq![0u8] + i1;
    if c1.len() < c2.len() {
        assert(s[c1.len() as int] == 0);
        assert(c2[c1.len() as int] != 0);
        assert(false);
    }
    if c2.len() < c1.len() {
        assert(s[c2.len() as int] == 0);
        assert(c1[c2.len() as int] != 0);
        assert(false);
    }
    assert(c1.len() == c2.len());
    assert forall|k: int| 0 <= k < c1.len() implies c1[k] == c2[k] by {
        assert(s[k] == c1[k]);
        assert((c2 + seq![0u8] + i2)[k] == c2[k]);
    }
    assert(c1 =~= c2);
    assert(s.len() == c1.len() + 1 + i1.len());
    assert((c2 + seq![0u8] + i2).len() == c2.len() + 1 + i2.len());
    assert(i1.len() == i2.len());
    assert forall|k: int| 0 <= k < i1.len() implies i1[k] == i2[k] by {
        assert(s[c1.len() + 1 + k] == i1[k]);
        assert((c2 + seq![0u8] + i2)[c2.len() + 1 + k] == i2[k]);
    }
    assert(i1 =~= i2);
}

/// Hash sensitivity, short of a SHA-256 collision: for two parseable
/// manifest texts, the digested byte strings agree only when the canonical
/// manifest text and the image reference both agree. A change to any
/// canonical field, or to the image alone, always changes the digest input.
pub proof fn lemma_hash_input_sensitive(c1: Seq<u8>, i1: Seq<u8>, c2: Seq<u8>, i2: Seq<u8>)
    requires
        (parsed_json(c1) matches Option::Some(v1) && nums_wf(v1)),
        (parsed_json(c2) matches Option::Some(v2) && nums_wf(v2)),
        hash_input(c1, i1) == hash_input(c2, i2),
    ensures
        canon_text(c1) == canon_text(c2),
        i1 == i2,
{
    let v1 = choose|v: JsonValue| parsed_json(c1) == Option::Some(v);
    let v2 = choose|v: JsonValue| parsed_json(c2) == Option::Some(v);
    lemma_ser_no_nul(v1);
    lemma_ser_no_nul(v2);
    assert(canon_text(c1) == ser_json(v1));
    assert(canon_text(c2) == ser_json(v2));
    lemma_hash_input_injective(canon_text(c1), i1, canon_text(c2), i2);
}

} // verus!
