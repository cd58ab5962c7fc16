//! The server configuration: one ticker symbol per line.
use vstd::prelude::*;
use crate::quote_book::QuoteBook;
use crate::text::{chars_of, lines_of, string_of, text_lines, trim_chars, trimmed, upper_text, uppercase};

verus! {

/// The symbol that a configuration line names: the line without surrounding
/// whitespace, in upper case.
pub open spec fn ticker_of_line(line: Seq<char>) -> Seq<char> {
    upper_text(trimmed(line))
}

/// The symbols that the lines name, in order, leaving out lines that name
/// none (those that are empty after trimming and upper-casing).
pub open spec fn tickers_of_lines(lines: Seq<Seq<char>>) -> Seq<Seq<char>>
    decreases lines.len(),
{
    if lines.len() == 0 {
        Seq::<Seq<char>>::empty()
    } else {
        let prev = tickers_of_lines(lines.drop_last());
        let t = ticker_of_line(lines.last());
        if t.len() > 0 {
            prev.push(t)
        } else {
            prev
        }
    }
}

/// The symbols that a configuration text names, in order of their lines.
pub open spec fn config_tickers(text: Seq<char>) -> Seq<Seq<char>> {
    tickers_of_lines(text_lines(text))
}

/// Every configured symbol is nonempty and is what some line of the text
/// names; a line that names a symbol contributes it.
pub proof fn law_config_tickers(lines: Seq<Seq<char>>)
    ensures
        forall|i: int| 0 <= i < tickers_of_lines(lines).len() ==> (#[trigger] tickers_of_lines(lines)[i]).len() > 0,
        forall|i: int| 0 <= i < tickers_of_lines(lines).len() ==> exists|j: int|
            0 <= j < lines.len() && ticker_of_line(#[trigger] lines[j]) == #[trigger] tickers_of_lines(lines)[i],
        forall|j: int| 0 <= j < lines.len() && ticker_of_line(#[trigger] lines[j]).len() > 0 ==> tickers_of_lines(lines).contains(
            ticker_of_line(lines[j]),
        ),
    decreases lines.len(),
{
    if lines.len() > 0 {
        let rest = lines.drop_last();
        law_config_tickers(rest);
        let prev = tickers_of_lines(rest);
        let cur = tickers_of_lines(lines);
        let t = ticker_of_line(lines.last());
        assert forall|i: int| 0 <= i < cur.len() implies (#[trigger] cur[i]).len() > 0 by {
            if i < prev.len() {
                assert(cur[i] == prev[i]);
            }
        }
        assert forall|i: int| 0 <= i < cur.len() implies exists|j: int|
            0 <= j < lines.len() && ticker_of_line(#[trigger] lines[j]) == #[trigger] cur[i] by {
            if i < prev.len() {
                assert(cur[i] == prev[i]);
                let j = choose|j: int| 0 <= j < rest.len() && ticker_of_line(#[trigger] rest[j]) == #[trigger] prev[i];
                assert(lines[j] == rest[j]);
            } else {
                assert(lines[lines.len() - 1] == lines.last());
            }
        }
        assert forall|j: int| 0 <= j < lines.len() && ticker_of_line(#[trigger] lines[j]).len() > 0 implies cur.contains(
            ticker_of_line(lines[j]),
        ) by {
            if j < rest.len() {
                assert(lines[j] == rest[j]);
                assert(prev.contains(ticker_of_line(rest[j])));
                let k = choose|k: int| 0 <= k < prev.len() && prev[k] == ticker_of_line(rest[j]);
                if t.len() > 0 {
                    assert(cur[k] == prev[k]);
                }
            } else {
                assert(lines[j] == lines.last());
                assert(cur[cur.len() - 1] == t);
            }
        }
    }
}

/// A line of ASCII text names its trimmed text with each letter `a`..`z`
/// made `A`..`Z` and every other character kept: the symbol is as long as the
/// trimmed line, and a line already in upper case names itself.
pub proof fn law_ascii_ticker(line: Seq<char>)
    requires
        forall|i: int| 0 <= i < trimmed(line).len() ==> (#[trigger] trimmed(line)[i] as u32) < 128,
    ensures
        ticker_of_line(line).len() == trimmed(line).len(),
        forall|i: int| 0 <= i < trimmed(line).len() ==> {
            let c = #[trigger] trimmed(line)[i];
            ticker_of_line(line)[i] as u32 == (if 'a' <= c && c <= 'z' { c as u32 - 32 } else { c as u32 as int })
        },
        (forall|i: int| 0 <= i < trimmed(line).len() ==> !('a' <= #[trigger] trimmed(line)[i] && trimmed(line)[i] <= 'z'))
            ==> ticker_of_line(line) == trimmed(line),
{
    let t = trimmed(line);
    let u = ticker_of_line(line);
    assert forall|i: int| 0 <= i < t.len() implies {
        let c = #[trigger] t[i];
        u[i] as u32 == (if 'a' <= c && c <= 'z' { c as u32 - 32 } else { c as u32 as int })
    } by {
        let c = t[i];
        if 'a' <= c && c <= 'z' {
            assert(u[i] == ((c as u32) - 32) as char);
        }
    }
    if forall|i: int| 0 <= i < t.len() ==> !('a' <= #[trigger] t[i] && t[i] <= 'z') {
        assert(u =~= t);
    }
}

/// Reads the ticker symbols of a configuration text.
pub fn read_tickers(text: &str) -> (ts: Vec<String>)
    ensures
        ts@.map_values(|t: String| t@) == config_tickers(text@),
{
    let cs = chars_of(text);
    let lines = lines_of(cs.as_slice());
    let ghost lv = lines@.map_values(|l: Vec<char>| l@);
    let n = lines.len();
    let mut out: Vec<String> = Vec::new();
    for i in 0..n
        invariant
            n == lines@.len(),
            lv == lines@.map_values(|l: Vec<char>| l@),
            lv == text_lines(cs@),
            out@.map_values(|t: String| t@) == tickers_of_lines(lv.take(i as int)),
    {
        let t = string_of(uppercase(trim_chars(lines[i].as_slice()).as_slice()).as_slice());
        assert(lv.take(i + 1).drop_last() == lv.take(i as int));
        assert(lv.take(i + 1).last() == lines@[i as int]@);
        let ghost before = out@;
        if chars_of(t.as_str()).len() > 0 {
            out.push(t);
            assert(out@.map_values(|t: String| t@) =~= before.map_values(|t: String| t@).push(t@));
        }
    }
    assert(lv.take(n as int) == lv);
    out
}

/// Builds the quote book of a configuration text: one entry per configured
/// symbol, with the quote that `make` gives for it.
pub fn book_from_config<Q, F: Fn(&str) -> Q>(text: &str, make: F) -> (b: QuoteBook<Q>)
    requires
        forall|t: &str| #[trigger] make.requires((t,)),
    ensures
        b.wf(),
        b.view().dom() == config_tickers(text@).to_set(),
        forall|k: Seq<char>| #[trigger] b.view().contains_key(k) ==> exists|t: &str|
            t@ == k && make.ensures((t,), b.view()[k]),
{
    let tickers = read_tickers(text);
    let ghost tv = tickers@.map_values(|t: String| t@);
    let mut book: QuoteBook<Q> = QuoteBook::new();
    let n = tickers.len();
    for i in 0..n
        invariant
            n == tickers@.len(),
            tv == tickers@.map_values(|t: String| t@),
            forall|t: &str| #[trigger] make.requires((t,)),
            book.wf(),
            book.view().dom() == tv.take(i as int).to_set(),
            forall|k: Seq<char>| #[trigger] book.view().contains_key(k) ==> exists|t: &str|
                t@ == k && make.ensures((t,), book.view()[k]),
    {
        let t = &tickers[i];
        let ts = t.as_str();
        let q = make(ts);
        let ghost before = book.view();
        book.insert(t.clone(), q);
        proof {
            assert(tv.take(i + 1) == tv.take(i as int).push(tv[i as int]));
            tv.take(i as int).lemma_push_to_set_commute(tv[i as int]);
            assert(tv.take(i + 1).to_set() =~= tv.take(i as int).to_set().insert(tv[i as int]));
            assert forall|k: Seq<char>| #[trigger] book.view().contains_key(k) implies exists|s: &str|
                s@ == k && make.ensures((s,), book.view()[k]) by {
                if k == t@ {
                    assert(ts@ == k && make.ensures((ts,), book.view()[k]));
                } else {
                    assert(before.contains_key(k));
                    let s = choose|s: &str| s@ == k && make.ensures((s,), before[k]);
                    assert(s@ == k && make.ensures((s,), book.view()[k]));
                }
            }
        }
    }
    assert(tv.take(n as int) == tv);
    book
}

} // verus!
