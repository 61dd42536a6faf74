use vstd::prelude::*;
use vstd::utf8::{decode_utf8, valid_utf8};

use crate::aes_framing::strip_trailing_zeros;
use crate::decimal::{decimal, is_digit, law_decimal_round_trip};

verus! {

/// `std::str::from_utf8`, keeping the string on success.
/// Trusted: std documents that it succeeds exactly on well-formed UTF-8, and the string then
/// holds exactly those bytes.
#[verifier::external_body]
pub(crate) fn str_from_utf8(bytes: &[u8]) -> (res: Option<&str>)
    ensures
        res is Some <==> valid_utf8(bytes@),
        res matches Some(s) ==> s@ == decode_utf8(bytes@),
{
    std::str::from_utf8(bytes).ok()
}

/// The numbers under "nonce" and "timestamp" of the JSON object in `text`, as serde_json
/// reads them: `None` when `text` is no JSON or either field is missing or not a u64.
pub uninterp spec fn challenge_reply_fields(text: Seq<char>) -> Option<(u64, u64)>;

/// The decimal digits of `n`, as characters.
pub open spec fn decimal_chars(n: u64) -> Seq<char> {
    decimal(n).map_values(|b: u8| b as char)
}

/// The JSON text of the object with the number `nonce` under "nonce" and `timestamp` under
/// "timestamp", as serde_json writes it: compact, with the keys in order.
pub open spec fn challenge_reply_text(nonce: u64, timestamp: u64) -> Seq<char> {
    "{\"nonce\":"@ + decimal_chars(nonce) + ",\"timestamp\":"@ + decimal_chars(timestamp) + "}"@
}

/// `serde_json::from_str` into a `serde_json::Value`, then `as_u64` of its "nonce" and
/// "timestamp" entries.
/// Trusted: the result is the name above applied to the text.
#[verifier::external_body]
pub(crate) fn parse_challenge_reply(text: &str) -> (res: Option<(u64, u64)>)
    ensures
        res == challenge_reply_fields(text@),
{
    let value: serde_json::Value = serde_json::from_str(text).ok()?;
    Some((value["nonce"].as_u64()?, value["timestamp"].as_u64()?))
}

/// `to_string` of the `serde_json::Value` object holding the two numbers under "nonce" and
/// "timestamp".
/// Trusted: the text is the one above (serde_json's `Map` keeps its keys sorted, and the
/// `Display` of a `Value` is compact and writes integers in decimal), and serde_json reads the
/// two numbers back from it.
#[verifier::external_body]
pub(crate) fn write_challenge_reply(nonce: u64, timestamp: u64) -> (text: String)
    ensures
        text@ == challenge_reply_text(nonce, timestamp),
        challenge_reply_fields(text@) == Some((nonce, timestamp)),
{
    let mut fields = serde_json::Map::new();
    fields.insert("nonce".to_string(), serde_json::Value::from(nonce));
    fields.insert("timestamp".to_string(), serde_json::Value::from(timestamp));
    serde_json::Value::Object(fields).to_string()
}

/// Whether two byte strings are equal.
pub fn bytes_equal(a: &[u8], b: &[u8]) -> (eq: bool)
    ensures
        eq == (a@ == b@),
{
    if a.len() != b.len() {
        return false;
    }
    let mut i: usize = 0;
    while i < a.len()
        invariant
            a@.len() == b@.len(),
            i <= a@.len(),
            forall|j: int| 0 <= j < i ==> a@[j] == b@[j],
        decreases a@.len() - i,
    {
        if a[i] != b[i] {
            return false;
        }
        i = i + 1;
    }
    assert(a@ =~= b@);
    true
}

/// The reply text is ASCII, and ends with '}'.
pub proof fn lemma_reply_text_ascii(nonce: u64, timestamp: u64)
    ensures
        vstd::utf8::is_ascii_chars(challenge_reply_text(nonce, timestamp)),
        challenge_reply_text(nonce, timestamp).len() > 0,
        challenge_reply_text(nonce, timestamp).last() == '}',
{
    reveal_strlit("{\"nonce\":");
    reveal_strlit(",\"timestamp\":");
    reveal_strlit("}");
    law_decimal_round_trip(nonce);
    law_decimal_round_trip(timestamp);
    let t = challenge_reply_text(nonce, timestamp);
    let a = "{\"nonce\":"@;
    let b = decimal_chars(nonce);
    let c = ",\"timestamp\":"@;
    let d = decimal_chars(timestamp);
    let e = "}"@;
    assert(t == a + b + c + d + e);
    assert forall|i: int| 0 <= i < t.len() implies '\0' <= #[trigger] t[i] <= '\u{7f}' by {
        if i < a.len() {
        } else if i < a.len() + b.len() {
            assert(t[i] == b[i - a.len()]);
            assert(is_digit(decimal(nonce)[i - a.len()]));
        } else if i < a.len() + b.len() + c.len() {
        } else if i < a.len() + b.len() + c.len() + d.len() {
            assert(t[i] == d[i - a.len() - b.len() - c.len()]);
            assert(is_digit(decimal(timestamp)[i - a.len() - b.len() - c.len()]));
        } else {
        }
    }
}

/// The bytes of the reply text are well-formed UTF-8 that reads back as the text, and do
/// not end with a zero byte.
pub proof fn lemma_reply_bytes(nonce: u64, timestamp: u64)
    ensures
        ({
            let bytes = vstd::utf8::encode_utf8(challenge_reply_text(nonce, timestamp));
            &&& bytes.len() > 0
            &&& strip_trailing_zeros(bytes) == bytes
            &&& valid_utf8(bytes)
            &&& vstd::utf8::decode_utf8(bytes) == challenge_reply_text(nonce, timestamp)
        }),
{
    let t = challenge_reply_text(nonce, timestamp);
    lemma_reply_text_ascii(nonce, timestamp);
    vstd::utf8::is_ascii_chars_encode_utf8(t);
    vstd::utf8::encode_utf8_valid_utf8(t);
    vstd::utf8::encode_utf8_decode_utf8(t);
    let bytes = vstd::utf8::encode_utf8(t);
    assert(bytes[t.len() - 1] == t[t.len() - 1] as u8);
}

} // verus!
