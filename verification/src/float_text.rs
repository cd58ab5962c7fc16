//! Which texts `f64::from_str` accepts. The value is not computed here, only
//! the syntax, which std documents as a grammar over the text with ASCII
//! letters taken in lower case:
//!
//! ```text
//! Float  ::= Sign? ( 'inf' | 'infinity' | 'nan' | Number )
//! Number ::= ( Digit+ | Digit+ '.' Digit* | Digit* '.' Digit+ ) Exp?
//! Exp    ::= 'e' Sign? Digit+
//! Sign   ::= [+-]
//! Digit  ::= [0-9]
//! ```
use vstd::prelude::*;
use crate::decimal::{all_digits, is_digit};
use crate::text::{chars_eq, chars_of};

verus! {

/// The ASCII lower-case form of a character; other characters unchanged.
pub open spec fn ascii_lower(c: char) -> char {
    if 'A' <= c && c <= 'Z' {
        ((c as u32) + 32) as char
    } else {
        c
    }
}

/// A text with its ASCII letters in lower case.
pub open spec fn ascii_lowered(s: Seq<char>) -> Seq<char> {
    s.map_values(|c: char| ascii_lower(c))
}

/// The position of the first `c` in `s`, or the length of `s` if there is
/// none.
pub open spec fn first_index(s: Seq<char>, c: char) -> int
    decreases s.len(),
{
    if s.len() == 0 {
        0
    } else if s[0] == c {
        0
    } else {
        1 + first_index(s.drop_first(), c)
    }
}

/// `Digit+ | Digit+ '.' Digit* | Digit* '.' Digit+`: digits with at most one
/// point, and at least one digit.
pub open spec fn is_mantissa(t: Seq<char>) -> bool {
    let p = first_index(t, '.');
    if p == t.len() {
        t.len() > 0 && all_digits(t)
    } else {
        t.len() > 1 && all_digits(t.take(p)) && all_digits(t.skip(p + 1))
    }
}

/// `Sign? Digit+`.
pub open spec fn is_signed_digits(t: Seq<char>) -> bool {
    let d = if t.len() > 0 && (t[0] == '+' || t[0] == '-') { t.drop_first() } else { t };
    d.len() > 0 && all_digits(d)
}

/// `Number`: a mantissa up to the first `e`, then nothing or `e` and signed
/// digits.
pub open spec fn is_number(s: Seq<char>) -> bool {
    let k = first_index(s, 'e');
    is_mantissa(s.take(k)) && (k == s.len() || is_signed_digits(s.skip(k + 1)))
}

/// Whether `f64::from_str` accepts `s`: once lowered, an optional sign and
/// then `inf`, `infinity`, `nan` or a number.
pub open spec fn is_float_text(s: Seq<char>) -> bool {
    let l = ascii_lowered(s);
    let b = if l.len() > 0 && (l[0] == '+' || l[0] == '-') { l.drop_first() } else { l };
    b == "inf"@ || b == "infinity"@ || b == "nan"@ || is_number(b)
}

/// A floating-point number's text holds no `|`: every character of an
/// accepted text lowers to a digit, a sign, a point or a letter.
pub proof fn lemma_float_text_chars(s: Seq<char>)
    requires
        is_float_text(s),
    ensures
        !s.contains('|'),
{
    if s.contains('|') {
        let i = choose|i: int| 0 <= i < s.len() && s[i] == '|';
        let l = ascii_lowered(s);
        assert(l[i] == '|');
        let signed = l.len() > 0 && (l[0] == '+' || l[0] == '-');
        let b = if signed { l.drop_first() } else { l };
        let j = if signed { i - 1 } else { i };
        assert(b[j] == '|');
        lemma_words_have_no_bar();
        assert(b.contains('|'));
        assert(!(b == "inf"@ || b == "infinity"@ || b == "nan"@));
        let k = first_index(b, 'e');
        lemma_first_index_bound(b, 'e');
        if j < k {
            let t = b.take(k);
            assert(t[j] == '|');
            let p = first_index(t, '.');
            lemma_first_index_bound(t, '.');
            if p == t.len() {
                assert(!is_digit(t[j]));
            } else if j < p {
                assert(t.take(p)[j] == '|');
                assert(!is_digit(t.take(p)[j]));
            } else if j > p {
                assert(t.skip(p + 1)[j - p - 1] == '|');
                assert(!is_digit(t.skip(p + 1)[j - p - 1]));
            } else {
                lemma_first_index_at(t, '.');
            }
        } else if j == k {
            lemma_first_index_at(b, 'e');
        } else {
            let u = b.skip(k + 1);
            assert(u[j - k - 1] == '|');
            let d = if u.len() > 0 && (u[0] == '+' || u[0] == '-') { u.drop_first() } else { u };
            if u.len() > 0 && (u[0] == '+' || u[0] == '-') {
                if j - k - 1 > 0 {
                    assert(d[j - k - 2] == '|');
                    assert(!is_digit(d[j - k - 2]));
                }
            } else {
                assert(!is_digit(d[j - k - 1]));
            }
        }
    }
}

proof fn lemma_words_have_no_bar()
    ensures
        !"inf"@.contains('|'),
        !"infinity"@.contains('|'),
        !"nan"@.contains('|'),
{
    reveal_strlit("inf");
    reveal_strlit("infinity");
    reveal_strlit("nan");
    assert forall|k: int| 0 <= k < "infinity"@.len() implies "infinity"@[k] != '|' by {
        assert(0 <= k < 8);
        if k == 0 {} else if k == 1 {} else if k == 2 {} else if k == 3 {} else if k == 4 {} else if k == 5 {} else if k == 6 {} else {}
    }
    assert forall|k: int| 0 <= k < "inf"@.len() implies "inf"@[k] != '|' by {
        if k == 0 {} else if k == 1 {} else {}
    }
    assert forall|k: int| 0 <= k < "nan"@.len() implies "nan"@[k] != '|' by {
        if k == 0 {} else if k == 1 {} else {}
    }
}

proof fn lemma_first_index_bound(s: Seq<char>, c: char)
    ensures
        0 <= first_index(s, c) <= s.len(),
    decreases s.len(),
{
    if s.len() > 0 && s[0] != c {
        lemma_first_index_bound(s.drop_first(), c);
    }
}

proof fn lemma_first_index_at(s: Seq<char>, c: char)
    ensures
        first_index(s, c) < s.len() ==> s[first_index(s, c)] == c,
        forall|i: int| 0 <= i < first_index(s, c) && i < s.len() ==> s[i] != c,
    decreases s.len(),
{
    if s.len() > 0 && s[0] != c {
        let t = s.drop_first();
        lemma_first_index_at(t, c);
        lemma_first_index_bound(t, c);
        assert forall|i: int| 0 <= i < first_index(s, c) && i < s.len() implies s[i] != c by {
            if i > 0 {
                assert(s[i] == t[i - 1]);
            }
        }
        if first_index(s, c) < s.len() {
            assert(s[first_index(s, c)] == t[first_index(t, c)]);
        }
    }
}

proof fn lemma_first_index(s: Seq<char>, c: char, k: int)
    requires
        0 <= k <= s.len(),
        forall|i: int| 0 <= i < k ==> s[i] != c,
        k == s.len() || s[k] == c,
    ensures
        first_index(s, c) == k,
    decreases k,
{
    if k > 0 {
        let t = s.drop_first();
        assert forall|i: int| 0 <= i < k - 1 implies t[i] != c by {
            assert(t[i] == s[i + 1]);
        }
        if k < s.len() {
            assert(t[k - 1] == s[k]);
        }
        lemma_first_index(t, c, k - 1);
    }
}

/// Finds the first `c` in `s`.
fn find_char(s: &[char], c: char) -> (k: usize)
    ensures
        k as int == first_index(s@, c),
        k <= s@.len(),
{
    let n = s.len();
    let mut k: usize = 0;
    while k < n && s[k] != c
        invariant
            k <= n,
            n == s@.len(),
            forall|i: int| 0 <= i < k ==> s@[i] != c,
        decreases n - k,
    {
        k += 1;
    }
    proof {
        lemma_first_index(s@, c, k as int);
    }
    k
}

/// Whether every character of `s[from..to]` is a digit.
fn digits_between(s: &[char], from: usize, to: usize) -> (b: bool)
    requires
        from <= to <= s@.len(),
    ensures
        b == all_digits(s@.subrange(from as int, to as int)),
{
    let mut i = from;
    while i < to
        invariant
            from <= i <= to,
            to <= s@.len(),
            forall|j: int| from <= j < i ==> is_digit(#[trigger] s@[j]),
        decreases to - i,
    {
        if s[i] < '0' || s[i] > '9' {
            assert(!is_digit(s@.subrange(from as int, to as int)[i - from]));
            return false;
        }
        i += 1;
    }
    assert forall|j: int| 0 <= j < to - from implies is_digit(#[trigger] s@.subrange(from as int, to as int)[j]) by {
        assert(s@.subrange(from as int, to as int)[j] == s@[from + j]);
    }
    true
}

fn mantissa_ok(t: &[char]) -> (b: bool)
    ensures
        b == is_mantissa(t@),
{
    let n = t.len();
    let p = find_char(t, '.');
    if p == n {
        assert(t@.subrange(0, n as int) == t@);
        n > 0 && digits_between(t, 0, n)
    } else {
        assert(t@.subrange(0, p as int) == t@.take(p as int));
        assert(t@.subrange(p + 1, n as int) == t@.skip(p + 1));
        n > 1 && digits_between(t, 0, p) && digits_between(t, p + 1, n)
    }
}

fn signed_digits_ok(t: &[char], from: usize) -> (b: bool)
    requires
        from <= t@.len(),
    ensures
        b == is_signed_digits(t@.skip(from as int)),
{
    let n = t.len();
    let ghost u = t@.skip(from as int);
    let start = if from < n && (t[from] == '+' || t[from] == '-') { from + 1 } else { from };
    proof {
        if from < n {
            assert(u[0] == t@[from as int]);
        }
    }
    assert(t@.subrange(start as int, n as int) == (if u.len() > 0 && (u[0] == '+' || u[0] == '-') { u.drop_first() } else { u }));
    start < n && digits_between(t, start, n)
}

fn number_ok(s: &[char]) -> (b: bool)
    ensures
        b == is_number(s@),
{
    let n = s.len();
    let k = find_char(s, 'e');
    let mut mant: Vec<char> = Vec::new();
    for i in 0..k
        invariant
            k <= n,
            n == s@.len(),
            mant@ == s@.take(i as int),
    {
        mant.push(s[i]);
        assert(s@.take(i as int).push(s@[i as int]) == s@.take(i + 1));
    }
    if !mantissa_ok(mant.as_slice()) {
        return false;
    }
    if k == n {
        return true;
    }
    signed_digits_ok(s, k + 1)
}

fn lower_char(c: char) -> (r: char)
    ensures
        r == ascii_lower(c),
{
    if 'A' <= c && c <= 'Z' {
        let b: u8 = (c as u32 + 32) as u8;
        assert(b as u32 == c as u32 + 32);
        b as char
    } else {
        c
    }
}

/// Tests whether `f64::from_str` accepts `s`.
pub fn float_text_ok(s: &str) -> (b: bool)
    ensures
        b == is_float_text(s@),
{
    let cs = chars_of(s);
    let n = cs.len();
    let mut l: Vec<char> = Vec::new();
    for i in 0..n
        invariant
            n == cs@.len(),
            l@ == ascii_lowered(cs@.take(i as int)),
    {
        l.push(lower_char(cs[i]));
        assert(ascii_lowered(cs@.take(i + 1)) =~= ascii_lowered(cs@.take(i as int)).push(ascii_lower(cs@[i as int])));
    }
    assert(cs@.take(n as int) == cs@);
    let start: usize = if n > 0 && (l[0] == '+' || l[0] == '-') { 1 } else { 0 };
    let mut body: Vec<char> = Vec::new();
    for i in start..n
        invariant
            start <= n,
            n == l@.len(),
            body@ == l@.subrange(start as int, i as int),
    {
        body.push(l[i]);
        assert(l@.subrange(start as int, i as int).push(l@[i as int]) == l@.subrange(start as int, i + 1));
    }
    assert(body@ == (if l@.len() > 0 && (l@[0] == '+' || l@[0] == '-') { l@.drop_first() } else { l@ }));
    chars_eq(body.as_slice(), chars_of("inf").as_slice())
        || chars_eq(body.as_slice(), chars_of("infinity").as_slice())
        || chars_eq(body.as_slice(), chars_of("nan").as_slice())
        || number_ok(body.as_slice())
}

} // verus!
