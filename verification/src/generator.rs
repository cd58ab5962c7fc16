//! The trading volume a quote update gives a ticker.
use vstd::prelude::*;
use rand::Rng;
use crate::text::{chars_eq, chars_of};

verus! {

/// The heavily traded tickers: `AAPL`, `MSFT` and `TSLA`.
pub open spec fn is_heavy(ticker: Seq<char>) -> bool {
    ticker == "AAPL"@ || ticker == "MSFT"@ || ticker == "TSLA"@
}

/// The least volume an update gives `ticker`: 1000 for a heavily traded
/// ticker, 100 for any other.
pub open spec fn volume_base(ticker: Seq<char>) -> nat {
    if is_heavy(ticker) { 1000 } else { 100 }
}

/// How many volumes, counting up from the base, an update can give
/// `ticker`: 5000 for a heavily traded ticker, 1000 for any other.
pub open spec fn volume_span(ticker: Seq<char>) -> nat {
    if is_heavy(ticker) { 5000 } else { 1000 }
}

/// Whether `ticker` is one of the heavily traded tickers.
pub fn heavy_ticker(ticker: &str) -> (b: bool)
    ensures
        b == is_heavy(ticker@),
{
    let t = chars_of(ticker);
    chars_eq(t.as_slice(), chars_of("AAPL").as_slice())
        || chars_eq(t.as_slice(), chars_of("MSFT").as_slice())
        || chars_eq(t.as_slice(), chars_of("TSLA").as_slice())
}

/// The base and span of the volumes an update can give `ticker`.
pub fn volume_range(ticker: &str) -> (r: (u32, u32))
    ensures
        r.0 as nat == volume_base(ticker@),
        r.1 as nat == volume_span(ticker@),
{
    if heavy_ticker(ticker) {
        (1000, 5000)
    } else {
        (100, 1000)
    }
}

/// The volume for `ticker` given a draw below its span: the base plus the
/// draw.
pub fn volume_from_draw(ticker: &str, draw: u32) -> (v: u32)
    requires
        draw < volume_span(ticker@),
    ensures
        v == volume_base(ticker@) + draw,
{
    let (base, _span) = volume_range(ticker);
    base + draw
}

/// A number drawn uniformly below `bound` by the thread's random number
/// generator (`rand::Rng::gen_range` on `rand::thread_rng()`). The contract
/// claims only the range, which `gen_range` documents; `gen_range` panics on
/// an empty range, hence the `requires`.
#[verifier::external_body]
fn random_below(bound: u32) -> (r: u32)
    requires
        bound > 0,
    ensures
        r < bound,
{
    rand::thread_rng().gen_range(0..bound)
}

/// A fresh random volume for `ticker`: at least its base, below base plus
/// span.
pub fn next_volume(ticker: &str) -> (v: u32)
    ensures
        volume_base(ticker@) <= v < volume_base(ticker@) + volume_span(ticker@),
{
    let (_base, span) = volume_range(ticker);
    let draw = random_below(span);
    volume_from_draw(ticker, draw)
}

} // verus!
