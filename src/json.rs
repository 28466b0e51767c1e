//! Pieces of JSON text that the response bodies are assembled from.

use crate::timestamp::{append_char_text, append_digit, digit};
use vstd::prelude::*;

verus! {

/// What `serde_json::to_string` makes of a string: a quoted, escaped JSON
/// string literal.
pub uninterp spec fn json_quoted(s: Seq<char>) -> Seq<char>;

/// Relies on `serde_json::to_string` on a `str`: the JSON string literal of
/// `s`. Serializing a `str` into memory does not fail (the crate fails only
/// where a `Serialize` impl decides to, or on a map with non-string keys).
#[verifier::external_body]
fn quote(s: &str) -> (r: String)
    ensures
        r@ == json_quoted(s@),
{
    match serde_json::to_string(s) {
        Ok(t) => t,
        Err(_) => String::new(),
    }
}

/// Appends the JSON string literal of `s`.
pub fn append_quoted(out: &mut String, s: &str)
    ensures
        final(out)@ == old(out)@ + json_quoted(s@),
{
    let q = quote(s);
    out.append(q.as_str());
}

/// An optional string as JSON: its literal, or `null`.
pub open spec fn opt_json(o: Option<String>) -> Seq<char> {
    match o {
        Some(s) => json_quoted(s@),
        None => "null"@,
    }
}

/// Appends an optional string as JSON.
pub fn append_opt(out: &mut String, o: &Option<String>)
    ensures
        final(out)@ == old(out)@ + opt_json(*o),
{
    match o {
        Some(s) => append_quoted(out, s.as_str()),
        None => append_char_text(out, "null"),
    }
}

/// A score in hundredths within `[-100, 100]` as a JSON number with one or
/// two decimals (`0.2`, `-0.4`, `1.0`, `0.25`).
pub open spec fn centi_text(v: int) -> Seq<char> {
    let a = if v < 0 {
        -v
    } else {
        v
    };
    let sign: Seq<char> = if v < 0 {
        seq!['-']
    } else {
        Seq::empty()
    };
    let tail: Seq<char> = if a % 10 != 0 {
        seq![digit(a % 10)]
    } else {
        Seq::empty()
    };
    sign + seq![digit(a / 100), '.', digit((a / 10) % 10)] + tail
}

/// Appends a score in hundredths as a JSON number.
pub fn append_centi(out: &mut String, v: i32)
    requires
        -100 <= v <= 100,
    ensures
        final(out)@ == old(out)@ + centi_text(v as int),
{
    let ghost start = out@;
    let a: u32 = if v < 0 {
        (0 - v) as u32
    } else {
        v as u32
    };
    if v < 0 {
        append_char_text(out, "-");
    }
    let ghost signed = out@;
    append_digit(out, a / 100);
    append_char_text(out, ".");
    append_digit(out, (a / 10) % 10);
    if a % 10 != 0 {
        append_digit(out, a % 10);
    }
    proof {
        reveal_strlit("-");
        reveal_strlit(".");
        assert(signed == start + (if v < 0 {
            seq!['-']
        } else {
            Seq::<char>::empty()
        }));
        assert(out@ =~= old(out)@ + centi_text(v as int));
    }
}

} // verus!
