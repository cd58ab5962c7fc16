//! The `ticker|price|volume|timestamp` text format in which quotes travel.
//!
//! The price is carried as the text that the floating-point value prints as;
//! turning it into a number and back is left to the caller, so the record here
//! keeps the price field as text.
use vstd::prelude::*;
use crate::decimal::{decimal, is_digit, lemma_decimal, law_decimal_round_trip, parse_u32, parse_u64, parse_unsigned, push_decimal, u32_bound, u64_bound};
use crate::float_text::{float_text_ok, is_float_text};
use crate::text::{chars_of, lemma_split_concat, lemma_split_no_sep, split_chars, split_on, string_of};

verus! {

/// The field separator of the quote format.
pub const FIELD_SEPARATOR: char = '|';

/// The four fields of one quote record, as they appear in the text.
pub struct QuoteFields {
    /// Ticker symbol.
    pub ticker: String,
    /// Price, as the text of the floating-point value.
    pub price: String,
    /// Trading volume.
    pub volume: u32,
    /// Milliseconds since the UNIX epoch.
    pub timestamp: u64,
}

/// The text of a quote: the four fields separated by `|`, the numbers in
/// decimal.
pub open spec fn quote_text(ticker: Seq<char>, price: Seq<char>, volume: nat, timestamp: nat) -> Seq<char> {
    ticker + seq!['|'] + price + seq!['|'] + decimal(volume) + seq!['|'] + decimal(timestamp)
}

/// What reading a quote record from `s` gives: when `s` splits at `|` into
/// exactly four fields, the second is a text that `f64::from_str` accepts,
/// and the third and fourth read as a `u32` and a `u64`, the ticker text, the
/// price text, the volume and the timestamp; otherwise nothing.
pub open spec fn read_quote(s: Seq<char>) -> Option<(Seq<char>, Seq<char>, nat, nat)> {
    let parts = split_on(s, '|');
    if parts.len() == 4 && is_float_text(parts[1]) {
        match (parse_unsigned(parts[2], u32_bound()), parse_unsigned(parts[3], u64_bound())) {
            (Some(v), Some(t)) => Some((parts[0], parts[1], v, t)),
            _ => None,
        }
    } else {
        None
    }
}

/// Formats a quote record as `ticker|price|volume|timestamp`.
pub fn encode_quote(ticker: &str, price: &str, volume: u32, timestamp: u64) -> (s: String)
    ensures
        s@ == quote_text(ticker@, price@, volume as nat, timestamp as nat),
{
    let mut out = chars_of(ticker);
    out.push('|');
    let p = chars_of(price);
    let mut i: usize = 0;
    let ghost start = out@;
    while i < p.len()
        invariant
            i <= p@.len(),
            out@ == start + p@.take(i as int),
        decreases p@.len() - i,
    {
        out.push(p[i]);
        assert(p@.take(i as int).push(p@[i as int]) == p@.take(i + 1));
        i += 1;
    }
    assert(p@.take(p@.len() as int) == p@);
    out.push('|');
    push_decimal(&mut out, volume as u64);
    out.push('|');
    push_decimal(&mut out, timestamp);
    let s = string_of(out.as_slice());
    assert(s@ == quote_text(ticker@, price@, volume as nat, timestamp as nat));
    s
}

/// The UTF-8 bytes of a quote record: the same text as `encode_quote`.
pub fn encode_quote_bytes(ticker: &str, price: &str, volume: u32, timestamp: u64) -> (b: Vec<u8>)
    ensures
        b@ == vstd::utf8::encode_utf8(quote_text(ticker@, price@, volume as nat, timestamp as nat)),
{
    let s = encode_quote(ticker, price, volume, timestamp);
    vstd::slice::slice_to_vec(s.as_str().as_bytes())
}

/// Reads a quote record; `None` unless the text has exactly four fields, the
/// price is a floating-point number's text, and the volume and timestamp are
/// unsigned decimal numbers in range.
pub fn decode_quote(s: &str) -> (r: Option<QuoteFields>)
    ensures
        r matches Some(q) ==> read_quote(s@) == Some(
            (q.ticker@, q.price@, q.volume as nat, q.timestamp as nat),
        ),
        r is None ==> read_quote(s@) is None,
{
    let cs = chars_of(s);
    let parts = split_chars(cs.as_slice(), '|');
    let ghost views = parts@.map_values(|p: Vec<char>| p@);
    assert(views.len() == parts@.len());
    if parts.len() != 4 {
        return None;
    }
    assert(views[0] == parts@[0]@ && views[1] == parts@[1]@);
    assert(views[2] == parts@[2]@ && views[3] == parts@[3]@);
    let price = string_of(parts[1].as_slice());
    if !float_text_ok(price.as_str()) {
        return None;
    }
    let volume = match parse_u32(parts[2].as_slice()) {
        Some(v) => v,
        None => return None,
    };
    let timestamp = match parse_u64(parts[3].as_slice()) {
        Some(t) => t,
        None => return None,
    };
    let ticker = string_of(parts[0].as_slice());
    Some(QuoteFields { ticker, price, volume, timestamp })
}

// ---------------------------------------------------------------------------
// Reading back what was written
// ---------------------------------------------------------------------------

proof fn lemma_float_text_no_bar(s: Seq<char>)
    requires
        is_float_text(s),
    ensures
        !s.contains('|'),
{
    crate::float_text::lemma_float_text_chars(s);
}

proof fn lemma_digits_no_sep(n: nat)
    ensures
        !decimal(n).contains('|'),
{
    lemma_decimal(n);
    if decimal(n).contains('|') {
        let i = choose|i: int| 0 <= i < decimal(n).len() && decimal(n)[i] == '|';
        assert(is_digit(decimal(n)[i]));
    }
}

/// A quote record written by `encode_quote` reads back as the same fields,
/// provided the ticker holds no `|` and the price is a floating-point
/// number's text (which never holds one).
pub proof fn law_quote_round_trip(ticker: Seq<char>, price: Seq<char>, volume: u32, timestamp: u64)
    requires
        !ticker.contains('|'),
        is_float_text(price),
    ensures
        read_quote(quote_text(ticker, price, volume as nat, timestamp as nat)) == Some(
            (ticker, price, volume as nat, timestamp as nat),
        ),
{
    let v = decimal(volume as nat);
    let t = decimal(timestamp as nat);
    lemma_digits_no_sep(volume as nat);
    lemma_digits_no_sep(timestamp as nat);
    lemma_split_no_sep(ticker, '|');
    lemma_float_text_no_bar(price);
    lemma_split_no_sep(price, '|');
    lemma_split_no_sep(v, '|');
    lemma_split_no_sep(t, '|');
    let s = quote_text(ticker, price, volume as nat, timestamp as nat);
    let rest2 = v + seq!['|'] + t;
    let rest1 = price + seq!['|'] + rest2;
    assert(s == ticker + seq!['|'] + rest1);
    lemma_split_concat(ticker, rest1, '|');
    lemma_split_concat(price, rest2, '|');
    lemma_split_concat(v, t, '|');
    let parts = split_on(s, '|');
    assert(parts == seq![ticker] + (seq![price] + (seq![v] + seq![t])));
    assert(parts[2] == v);
    assert(parts[3] == t);
    law_decimal_round_trip(volume as nat, u32_bound());
    law_decimal_round_trip(timestamp as nat, u64_bound());
}

} // verus!
