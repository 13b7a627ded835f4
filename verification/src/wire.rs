//! JSON text and Base64, as `serde_json` and `base64` produce and read them,
//! and the system clock.
use vstd::prelude::*;

use base64::engine::general_purpose::STANDARD;
use base64::Engine;
use std::time::{SystemTime, UNIX_EPOCH};
use vstd::utf8::encode_utf8;

use crate::json::{depth_within, float_free, same_doc, Json, JsonMap, JsonNumber};
use crate::text::is_whitespace_spec;

verus! {

#[verifier::external_type_specification]
#[verifier::external_body]
pub struct ExValue(serde_json::Value);

/// The compact JSON text that `serde_json` writes for `v`.
pub uninterp spec fn json_text(v: Json) -> Seq<char>;

/// The value that `serde_json::from_slice` reads from `bytes`, if they hold
/// one JSON document.
pub uninterp spec fn json_parse(bytes: Seq<u8>) -> Option<Json>;

/// The bytes that the standard padded Base64 engine decodes from `text`, if
/// it accepts it.
pub uninterp spec fn base64_decoded(text: Seq<char>) -> Option<Seq<u8>>;

/// Text on one line: not empty, without `\n` or `\r`, and without white
/// space at either end.
pub open spec fn json_line(t: Seq<char>) -> bool {
    &&& t.len() > 0
    &&& forall|i: int| 0 <= i < t.len() ==> #[trigger] t[i] != '\n' && t[i] != '\r'
    &&& !is_whitespace_spec(t[0])
    &&& !is_whitespace_spec(t.last())
}

/// `serde_json` reads the text `t` back as the document `v`.
pub open spec fn reads_back_text(t: Seq<char>, v: Json) -> bool {
    match json_parse(encode_utf8(t)) {
        Some(p) => same_doc(p, v),
        None => false,
    }
}

/// `serde_json` reads the text written for `v` back as the same document.
pub open spec fn reads_back(v: Json) -> bool {
    reads_back_text(json_text(v), v)
}

/// An object whose values are all strings or non-negative integers.
pub open spec fn flat_scalar_object(v: Json) -> bool {
    match v {
        Json::Object(m) => forall|k: Seq<char>|
            #[trigger] m@.contains_key(k) ==> (m@[k] is String || m@[k] matches Json::Number(
                JsonNumber::PosInt(_),
            )),
        _ => false,
    }
}

/// The entries of `v` when it is an object.
pub open spec fn object_view(v: Json) -> Map<Seq<char>, Json> {
    match v {
        Json::Object(m) => m@,
        _ => Map::empty(),
    }
}

/// `serde_json` reads `bytes` as an object with the entries of `v`.
pub open spec fn reads_back_entries(bytes: Seq<u8>, v: Json) -> bool {
    match json_parse(bytes) {
        Some(p) => p is Object && object_view(p) == object_view(v),
        None => false,
    }
}

/// The character of the standard Base64 alphabet for `i < 64`.
pub open spec fn base64_char(i: int) -> char {
    if i < 26 {
        (65 + i) as char
    } else if i < 52 {
        (97 + i - 26) as char
    } else if i < 62 {
        (48 + i - 52) as char
    } else if i == 62 {
        '+'
    } else {
        '/'
    }
}

/// Standard Base64 with `=` padding (RFC 4648, section 4).
pub open spec fn base64_encode_spec(b: Seq<u8>) -> Seq<char>
    decreases b.len(),
{
    if b.len() == 0 {
        seq![]
    } else {
        let x = b[0] as int;
        let y = if b.len() > 1 { b[1] as int } else { 0 };
        let z = if b.len() > 2 { b[2] as int } else { 0 };
        if b.len() == 1 {
            seq![base64_char(x / 4), base64_char((x % 4) * 16), '=', '=']
        } else if b.len() == 2 {
            seq![base64_char(x / 4), base64_char((x % 4) * 16 + y / 16), base64_char((y % 16) * 4), '=']
        } else {
            seq![
                base64_char(x / 4),
                base64_char((x % 4) * 16 + y / 16),
                base64_char((y % 16) * 4 + z / 64),
                base64_char(z % 64),
            ] + base64_encode_spec(b.skip(3))
        }
    }
}

#[verifier::external_body]
fn value_of(v: &Json) -> serde_json::Value {
    match v {
        Json::Null => serde_json::Value::Null,
        Json::Bool(b) => serde_json::Value::Bool(*b),
        Json::Number(n) => number_value(*n),
        Json::String(s) => serde_json::Value::String(s.clone()),
        Json::Array(items) => serde_json::Value::Array(items.iter().map(value_of).collect()),
        Json::Object(m) => serde_json::Value::Object(
            m.entries().iter().map(|(k, x)| (k.clone(), value_of(x))).collect(),
        ),
    }
}

#[verifier::external_body]
fn number_value(n: JsonNumber) -> serde_json::Value {
    match n {
        JsonNumber::PosInt(u) => serde_json::Value::from(u),
        JsonNumber::NegInt(i) => serde_json::Value::from(i),
        JsonNumber::Float(_) => serde_json::Value::Null,
    }
}

#[verifier::external_body]
fn json_of(v: &serde_json::Value) -> Json {
    match v {
        serde_json::Value::Null => Json::Null,
        serde_json::Value::Bool(b) => Json::Bool(*b),
        serde_json::Value::Number(_) => Json::Number(number_of(v)),
        serde_json::Value::String(s) => Json::String(s.clone()),
        serde_json::Value::Array(items) => Json::Array(items.iter().map(json_of).collect()),
        serde_json::Value::Object(_) => Json::Object(map_of(v)),
    }
}

#[verifier::external_body]
fn number_of(v: &serde_json::Value) -> JsonNumber {
    match (v.as_u64(), v.as_i64()) {
        (Some(u), _) => JsonNumber::PosInt(u),
        (None, Some(i)) => JsonNumber::NegInt(i),
        _ => JsonNumber::Float(v.as_f64().map_or(0, |x| x.to_bits())),
    }
}

#[verifier::external_body]
fn map_of(v: &serde_json::Value) -> JsonMap {
    let mut m = JsonMap::new();
    if let serde_json::Value::Object(o) = v {
        for (k, x) in o {
            m.insert(k.clone(), json_of(x));
        }
    }
    m
}

/// Writes `v` as compact JSON text with `serde_json::Value`'s `Display`.
/// The contract claims that the text is a function of `v`; that it fits in a
/// `String` (at most `isize::MAX` bytes); that it is one line with no white
/// space at its ends, as the compact writer puts no white space between
/// tokens and escapes control characters in strings; that an object's text
/// starts with `{`; that `serde_json` reads the text of an object of strings
/// and non-negative integers back to the same entries; and that it reads
/// the text of a value nested at most 100 deep (below its parser's limit of
/// 128) back as the same document, up to entry order and integer form.
#[verifier::external_body]
pub(crate) fn json_to_string(v: &Json) -> (r: String)
    requires
        float_free(*v),
    ensures
        r@ == json_text(*v),
        encode_utf8(r@).len() <= isize::MAX,
        json_line(r@),
        *v is Object ==> r@[0] == '{',
        flat_scalar_object(*v) ==> reads_back_entries(encode_utf8(r@), *v),
        depth_within(*v, 100) ==> reads_back_text(r@, *v),
{
    value_of(v).to_string()
}

/// Reads one JSON document with `serde_json::from_slice::<Value>`.  The
/// contract claims only that the result is a function of the bytes.
#[verifier::external_body]
pub(crate) fn parse_json_bytes(bytes: &[u8]) -> (r: Option<Json>)
    ensures
        r == json_parse(bytes@),
{
    match serde_json::from_slice::<serde_json::Value>(bytes) {
        Ok(v) => Some(json_of(&v)),
        Err(_) => None,
    }
}

/// Encodes with `base64::engine::general_purpose::STANDARD.encode`: standard
/// alphabet, `=` padding.  The contract claims that the result is that
/// encoding and that the same engine decodes it back to `bytes`.
#[verifier::external_body]
pub(crate) fn base64_encode(bytes: &[u8]) -> (r: String)
    requires
        bytes@.len() <= isize::MAX,
    ensures
        r@ == base64_encode_spec(bytes@),
        base64_decoded(r@) == Some(bytes@),
{
    STANDARD.encode(bytes)
}

/// Decodes with `STANDARD.decode`.  The contract claims only that the result
/// is a function of the text.
#[verifier::external_body]
pub(crate) fn base64_decode(text: &str) -> (r: Option<Vec<u8>>)
    ensures
        match r {
            Some(b) => base64_decoded(text@) == Some(b@),
            None => base64_decoded(text@) is None,
        },
{
    match STANDARD.decode(text) {
        Ok(b) => Some(b),
        Err(_) => None,
    }
}

/// Seconds since the Unix epoch by `SystemTime::now`, or zero when the
/// clock is set before the epoch.  Nothing is claimed of the value.
#[verifier::external_body]
pub(crate) fn unix_now_seconds() -> u64 {
    match SystemTime::now().duration_since(UNIX_EPOCH) {
        Ok(d) => d.as_secs(),
        Err(_) => 0,
    }
}

} // verus!
