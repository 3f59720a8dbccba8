use crate::digits::{decimal, push_decimal, push_signed_decimal, signed_decimal};
use vstd::prelude::*;

verus! {

/// The JSON string literal (quoted and escaped) that serde_json writes for
/// the text `s`.
pub uninterp spec fn json_quoted(s: Seq<char>) -> Seq<char>;

/// Relies on `serde_json::to_string` applied to a `&str`: it returns the
/// JSON string literal of the text, which depends on the text alone, and it
/// always succeeds (a string serializes through `serialize_str`, which only
/// writes into the in-memory buffer that `to_string` then returns).
#[verifier::external_body]
pub(crate) fn quote_json(s: &str) -> (r: Result<String, serde_json::Error>)
    ensures
        r is Ok,
        r is Ok ==> r->Ok_0@ == json_quoted(s@),
{
    serde_json::to_string(s)
}

/// The JSON record of a monetary value, given the already quoted code and
/// symbol: `{"amount":A,"currency":{"code":C,"symbol":S,"precision":P}}`.
pub open spec fn json_record(
    amount: int,
    quoted_code: Seq<char>,
    quoted_symbol: Seq<char>,
    precision: nat,
) -> Seq<char> {
    "{\"amount\":"@ + signed_decimal(amount) + ",\"currency\":{\"code\":"@ + quoted_code
        + ",\"symbol\":"@ + quoted_symbol + ",\"precision\":"@ + decimal(precision) + "}}"@
}

/// Frames the JSON record of a monetary value around the quoted code and
/// symbol, fields in the order amount, currency; code, symbol, precision.
pub fn encode_record(amount: i64, quoted_code: &str, quoted_symbol: &str, precision: u8) -> (r:
    String)
    ensures
        r@ == json_record(amount as int, quoted_code@, quoted_symbol@, precision as nat),
{
    let mut s = String::new();
    s.append("{\"amount\":");
    push_signed_decimal(&mut s, amount);
    s.append(",\"currency\":{\"code\":");
    s.append(quoted_code);
    s.append(",\"symbol\":");
    s.append(quoted_symbol);
    s.append(",\"precision\":");
    push_decimal(&mut s, precision as u64);
    s.append("}}");
    assert(s@ =~= json_record(amount as int, quoted_code@, quoted_symbol@, precision as nat));
    s
}

} // verus!
