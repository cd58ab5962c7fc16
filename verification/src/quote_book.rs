//! The current quote of each ticker symbol, looked up by symbol.
use vstd::prelude::*;
use crate::text::{chars_eq, chars_of};

verus! {

/// A map from ticker symbol to the current quote of that symbol.
pub struct QuoteBook<Q> {
    tickers: Vec<String>,
    quotes: Vec<Q>,
}

/// The position of `k` in `keys` (meaningful when `keys` holds it).
pub open spec fn position(keys: Seq<Seq<char>>, k: Seq<char>) -> int {
    choose|i: int| 0 <= i < keys.len() && keys[i] == k
}

impl<Q> QuoteBook<Q> {
    /// The ticker symbols, one per entry.
    pub closed spec fn keys(&self) -> Seq<Seq<char>> {
        self.tickers@.map_values(|t: String| t@)
    }

    /// The quotes, one per entry, in the order of `keys`.
    pub closed spec fn values(&self) -> Seq<Q> {
        self.quotes@
    }

    /// Each symbol has exactly one entry.
    pub open spec fn wf(&self) -> bool {
        &&& self.keys().len() == self.values().len()
        &&& self.keys().no_duplicates()
    }

    /// The book as a map from symbol text to quote.
    pub open spec fn view(&self) -> Map<Seq<char>, Q> {
        Map::new(
            |k: Seq<char>| self.keys().contains(k),
            |k: Seq<char>| self.values()[position(self.keys(), k)],
        )
    }

    /// An empty book.
    pub fn new() -> (b: Self)
        ensures
            b.wf(),
            b.view() == Map::<Seq<char>, Q>::empty(),
    {
        let b = QuoteBook { tickers: Vec::new(), quotes: Vec::new() };
        assert(b.view() =~= Map::<Seq<char>, Q>::empty());
        b
    }

    /// The number of symbols in the book.
    pub fn len(&self) -> (n: usize)
        requires
            self.wf(),
        ensures
            n as nat == self.view().dom().len(),
    {
        proof {
            self.lemma_dom_len();
        }
        self.tickers.len()
    }

    proof fn lemma_position(&self, i: int)
        requires
            self.wf(),
            0 <= i < self.keys().len(),
        ensures
            position(self.keys(), self.keys()[i]) == i,
    {
        let k = self.keys()[i];
        let j = position(self.keys(), k);
        assert(0 <= j < self.keys().len() && self.keys()[j] == k);
    }

    proof fn lemma_dom_len(&self)
        requires
            self.wf(),
        ensures
            self.view().dom().len() == self.keys().len(),
    {
        self.keys().unique_seq_to_set();
        assert(self.view().dom() =~= self.keys().to_set());
    }

    /// The position of `key`, if the book has it.
    fn find(&self, key: &str) -> (r: Option<usize>)
        requires
            self.wf(),
        ensures
            r matches Some(i) ==> i < self.keys().len() && self.keys()[i as int] == key@,
            r is None ==> !self.keys().contains(key@),
    {
        let wanted = chars_of(key);
        let n = self.tickers.len();
        for i in 0..n
            invariant
                n == self.tickers@.len(),
                wanted@ == key@,
                forall|j: int| 0 <= j < i ==> self.keys()[j] != key@,
        {
            if chars_eq(chars_of(self.tickers[i].as_str()).as_slice(), wanted.as_slice()) {
                return Some(i);
            }
        }
        None
    }

    /// Whether the book has a quote for `key`.
    pub fn contains_key(&self, key: &str) -> (b: bool)
        requires
            self.wf(),
        ensures
            b == self.view().contains_key(key@),
    {
        self.find(key).is_some()
    }

    /// The quote for `key`, if the book has one.
    pub fn get(&self, key: &str) -> (r: Option<&Q>)
        requires
            self.wf(),
        ensures
            r matches Some(q) ==> self.view().contains_key(key@) && *q == self.view()[key@],
            r is None ==> !self.view().contains_key(key@),
    {
        match self.find(key) {
            Some(i) => {
                proof {
                    self.lemma_position(i as int);
                }
                Some(&self.quotes[i])
            },
            None => None,
        }
    }

    /// Sets the quote for `key`, replacing the one it had.
    pub fn insert(&mut self, key: String, quote: Q)
        requires
            old(self).wf(),
        ensures
            final(self).wf(),
            final(self).view() == old(self).view().insert(key@, quote),
    {
        match self.find(key.as_str()) {
            Some(i) => {
                let ghost k = key@;
                self.quotes.set(i, quote);
                proof {
                    assert(self.keys() == old(self).keys());
                    assert forall|x: Seq<char>| #[trigger] self.view().contains_key(x) implies self.view()[x]
                        == old(self).view().insert(k, quote)[x] by {
                        let j = position(self.keys(), x);
                        self.lemma_position(j);
                        if x == k {
                            self.lemma_position(i as int);
                        }
                    }
                    assert(self.view() =~= old(self).view().insert(k, quote));
                }
            },
            None => {
                let ghost k = key@;
                self.tickers.push(key);
                self.quotes.push(quote);
                proof {
                    let ks = self.keys();
                    assert(ks =~= old(self).keys().push(k));
                    assert(ks.no_duplicates()) by {
                        assert forall|a: int, b: int| 0 <= a < ks.len() && 0 <= b < ks.len() && a != b implies ks[a] != ks[b] by {
                            if a == ks.len() - 1 {
                                if ks[b] == k {
                                    assert(old(self).keys()[b] == k);
                                }
                            } else if b == ks.len() - 1 {
                                if ks[a] == k {
                                    assert(old(self).keys()[a] == k);
                                }
                            }
                        }
                    }
                    assert forall|x: Seq<char>| #[trigger] self.view().contains_key(x) implies self.view()[x]
                        == old(self).view().insert(k, quote)[x] by {
                        let j = position(ks, x);
                        self.lemma_position(j);
                        if x != k {
                            let jo = position(old(self).keys(), x);
                            assert(old(self).keys().contains(x)) by {
                                assert(ks[j] == x);
                                assert(old(self).keys()[j] == x);
                            }
                            old(self).lemma_position(jo);
                            assert(ks[jo] == x);
                            self.lemma_position(jo);
                        }
                    }
                    assert forall|x: Seq<char>| old(self).view().insert(k, quote).contains_key(x) implies #[trigger] self.view().contains_key(x) by {
                        if x == k {
                            assert(ks[ks.len() - 1] == k);
                        } else {
                            let jo = position(old(self).keys(), x);
                            assert(ks[jo] == x);
                        }
                    }
                    assert(self.view() =~= old(self).view().insert(k, quote));
                }
            },
        }
    }

    /// The quote of the symbol in entry `i` is the quote in entry `i`.
    pub proof fn lemma_entry(&self, i: int)
        requires
            self.wf(),
            0 <= i < self.keys().len(),
        ensures
            self.view().contains_key(self.keys()[i]),
            self.view()[self.keys()[i]] == self.values()[i],
    {
        self.lemma_position(i);
    }

    /// The quotes of the book, one slot per entry, to be changed in place:
    /// afterwards entry `i` holds its symbol as before and the quote that slot
    /// `i` was left holding. (A slice keeps its length, so the book stays
    /// well formed with the same symbols.)
    pub fn values_mut(&mut self) -> (r: &mut [Q])
        requires
            old(self).wf(),
        ensures
            r@ == old(self).values(),
            final(self).keys() == old(self).keys(),
            final(self).values() == final(r)@,
            final(r)@.len() == r@.len() ==> final(self).wf() && final(self).view().dom() == old(self).view().dom(),
    {
        self.quotes.as_mut_slice()
    }

    /// The ticker symbols of the book, each once.
    pub fn tickers(&self) -> (ts: &Vec<String>)
        requires
            self.wf(),
        ensures
            ts@.map_values(|t: String| t@).to_set() == self.view().dom(),
            ts@.map_values(|t: String| t@).no_duplicates(),
    {
        assert(self.tickers@.map_values(|t: String| t@).to_set() =~= self.view().dom());
        &self.tickers
    }
}

/// A lookup after `insert` gives back what was inserted under that symbol,
/// and what the book had under any other symbol.
pub proof fn law_get_after_insert<Q>(before: Map<Seq<char>, Q>, key: Seq<char>, quote: Q, other: Seq<char>)
    requires
        other != key,
    ensures
        before.insert(key, quote).contains_key(key),
        before.insert(key, quote)[key] == quote,
        before.insert(key, quote).contains_key(other) == before.contains_key(other),
        before.contains_key(other) ==> before.insert(key, quote)[other] == before[other],
{
}

} // verus!
