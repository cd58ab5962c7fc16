//! Character-level text handling shared by the wire format, the configuration
//! reader and the command protocol: whitespace trimming, splitting, and
//! decimal numbers, each specified over `Seq<char>`.
use vstd::prelude::*;

verus! {

// ---------------------------------------------------------------------------
// Whitespace (std's `char::is_whitespace`)
// ---------------------------------------------------------------------------

/// Whether `c` has the Unicode `White_Space` property, as `char::is_whitespace`
/// tests: the 25 code points U+0009..U+000D, U+0020, U+0085, U+00A0, U+1680,
/// U+2000..U+200A, U+2028, U+2029, U+202F, U+205F and U+3000.
pub open spec fn unicode_white_space(c: char) -> bool {
    let u = c as u32;
    ||| 0x09 <= u && u <= 0x0d
    ||| u == 0x20
    ||| u == 0x85
    ||| u == 0xa0
    ||| u == 0x1680
    ||| 0x2000 <= u && u <= 0x200a
    ||| u == 0x2028
    ||| u == 0x2029
    ||| u == 0x202f
    ||| u == 0x205f
    ||| u == 0x3000
}

/// Tests whether `c` is a whitespace character.
pub fn is_whitespace(c: char) -> (b: bool)
    ensures
        b == unicode_white_space(c),
{
    let u = c as u32;
    (0x09 <= u && u <= 0x0d) || u == 0x20 || u == 0x85 || u == 0xa0 || u == 0x1680 || (0x2000 <= u
        && u <= 0x200a) || u == 0x2028 || u == 0x2029 || u == 0x202f || u == 0x205f || u == 0x3000
}

// ---------------------------------------------------------------------------
// Trusted items for std's Unicode case mappings and `String::push`
// ---------------------------------------------------------------------------

/// What `str::to_uppercase` returns on `s`: its Unicode uppercase mapping.
pub uninterp spec fn unicode_upper(s: Seq<char>) -> Seq<char>;

/// Calls `str::to_uppercase`. The contract claims only that its result is a
/// function of the text, named `unicode_upper`.
#[verifier::external_body]
pub(crate) fn to_uppercase(s: &str) -> (r: String)
    ensures
        r@ == unicode_upper(s@),
{
    s.to_uppercase()
}

/// What `str::to_lowercase` returns on `s`: its Unicode lowercase mapping.
pub uninterp spec fn unicode_lower(s: Seq<char>) -> Seq<char>;

/// Calls `str::to_lowercase`. The contract claims only that its result is a
/// function of the text, named `unicode_lower`.
#[verifier::external_body]
pub(crate) fn to_lowercase(s: &str) -> (r: String)
    ensures
        r@ == unicode_lower(s@),
{
    s.to_lowercase()
}

/// Whether every character of `s` is ASCII.
pub open spec fn all_ascii(s: Seq<char>) -> bool {
    forall|i: int| 0 <= i < s.len() ==> (#[trigger] s[i] as u32) < 128
}

/// The ASCII upper-case form of a character: `a`..`z` become `A`..`Z`, any
/// other character is unchanged.
pub open spec fn ascii_upper(c: char) -> char {
    if 'a' <= c && c <= 'z' {
        ((c as u32) - 32) as char
    } else {
        c
    }
}

/// The text in upper case, as `str::to_uppercase` gives it: an ASCII text has
/// its letters `a`..`z` made `A`..`Z` and everything else kept (ASCII
/// characters have no other upper-case mapping); other text goes by the
/// Unicode mapping.
pub open spec fn upper_text(s: Seq<char>) -> Seq<char> {
    if all_ascii(s) {
        s.map_values(|c: char| ascii_upper(c))
    } else {
        unicode_upper(s)
    }
}

/// The text in lower case, as `str::to_lowercase` gives it: an ASCII text has
/// its letters `A`..`Z` made `a`..`z` and everything else kept; other text
/// goes by the Unicode mapping.
pub open spec fn lower_text(s: Seq<char>) -> Seq<char> {
    if all_ascii(s) {
        s.map_values(|c: char| crate::float_text::ascii_lower(c))
    } else {
        unicode_lower(s)
    }
}

fn is_all_ascii(s: &[char]) -> (b: bool)
    ensures
        b == all_ascii(s@),
{
    let n = s.len();
    for i in 0..n
        invariant
            n == s@.len(),
            forall|j: int| 0 <= j < i ==> (#[trigger] s@[j] as u32) < 128,
    {
        if s[i] as u32 >= 128 {
            assert((s@[i as int] as u32) >= 128);
            return false;
        }
    }
    true
}

fn upper_char(c: char) -> (r: char)
    ensures
        r == ascii_upper(c),
{
    if 'a' <= c && c <= 'z' {
        let b: u8 = (c as u32 - 32) as u8;
        b as char
    } else {
        c
    }
}

fn lower_char(c: char) -> (r: char)
    ensures
        r == crate::float_text::ascii_lower(c),
{
    if 'A' <= c && c <= 'Z' {
        let b: u8 = (c as u32 + 32) as u8;
        b as char
    } else {
        c
    }
}

/// The text in upper case.
pub fn uppercase(s: &[char]) -> (r: Vec<char>)
    ensures
        r@ == upper_text(s@),
{
    if is_all_ascii(s) {
        let n = s.len();
        let mut r: Vec<char> = Vec::new();
        for i in 0..n
            invariant
                n == s@.len(),
                r@ == s@.take(i as int).map_values(|c: char| ascii_upper(c)),
        {
            r.push(upper_char(s[i]));
            assert(s@.take(i + 1).map_values(|c: char| ascii_upper(c)) =~= s@.take(i as int).map_values(
                |c: char| ascii_upper(c),
            ).push(ascii_upper(s@[i as int])));
        }
        assert(s@.take(n as int) == s@);
        r
    } else {
        let t = string_of(s);
        chars_of(to_uppercase(t.as_str()).as_str())
    }
}

/// The text in lower case.
pub fn lowercase(s: &[char]) -> (r: Vec<char>)
    ensures
        r@ == lower_text(s@),
{
    if is_all_ascii(s) {
        let n = s.len();
        let mut r: Vec<char> = Vec::new();
        for i in 0..n
            invariant
                n == s@.len(),
                r@ == s@.take(i as int).map_values(|c: char| crate::float_text::ascii_lower(c)),
        {
            r.push(lower_char(s[i]));
            assert(s@.take(i + 1).map_values(|c: char| crate::float_text::ascii_lower(c)) =~= s@.take(
                i as int,
            ).map_values(|c: char| crate::float_text::ascii_lower(c)).push(
                crate::float_text::ascii_lower(s@[i as int]),
            ));
        }
        assert(s@.take(n as int) == s@);
        r
    } else {
        let t = string_of(s);
        chars_of(to_lowercase(t.as_str()).as_str())
    }
}

/// Appends one character to a `String` (std's `String::push`).
#[verifier::external_body]
pub(crate) fn push_char(s: &mut String, c: char)
    ensures
        final(s)@ == old(s)@.push(c),
{
    s.push(c)
}

// ---------------------------------------------------------------------------
// Conversions between strings and character vectors
// ---------------------------------------------------------------------------

/// Collects the characters of a string slice into a vector.
pub fn chars_of(s: &str) -> (v: Vec<char>)
    ensures
        v@ == s@,
{
    let mut v: Vec<char> = Vec::new();
    for c in it: s.chars()
        invariant
            v@ == it.seq().take(it.index() as int),
            it.seq() == s@,
    {
        v.push(c);
    }
    v
}

/// Builds a `String` from a sequence of characters held in a slice.
pub fn string_of(chars: &[char]) -> (s: String)
    ensures
        s@ == chars@,
{
    let mut s = String::new();
    let n = chars.len();
    for i in 0..n
        invariant
            n == chars@.len(),
            s@ == chars@.take(i as int),
    {
        push_char(&mut s, chars[i]);
        assert(chars@.take(i as int).push(chars@[i as int]) == chars@.take(i + 1));
    }
    assert(chars@.take(n as int) == chars@);
    s
}

// ---------------------------------------------------------------------------
// Trimming (std's `str::trim`)
// ---------------------------------------------------------------------------

/// `s` without its leading whitespace.
pub open spec fn trim_start(s: Seq<char>) -> Seq<char>
    decreases s.len(),
{
    if s.len() > 0 && unicode_white_space(s[0]) {
        trim_start(s.drop_first())
    } else {
        s
    }
}

/// `s` without its trailing whitespace.
pub open spec fn trim_end(s: Seq<char>) -> Seq<char>
    decreases s.len(),
{
    if s.len() > 0 && unicode_white_space(s.last()) {
        trim_end(s.drop_last())
    } else {
        s
    }
}

/// `s` without leading and trailing whitespace, as `str::trim` returns it.
pub open spec fn trimmed(s: Seq<char>) -> Seq<char> {
    trim_end(trim_start(s))
}

proof fn lemma_trim_start_at(s: Seq<char>, k: int)
    requires
        0 <= k <= s.len(),
        forall|i: int| 0 <= i < k ==> unicode_white_space(#[trigger] s[i]),
        k == s.len() || !unicode_white_space(s[k]),
    ensures
        trim_start(s) == s.subrange(k, s.len() as int),
    decreases k,
{
    if k > 0 {
        let t = s.drop_first();
        assert forall|i: int| 0 <= i < k - 1 implies unicode_white_space(#[trigger] t[i]) by {
            assert(t[i] == s[i + 1]);
        }
        lemma_trim_start_at(t, k - 1);
        assert(t.subrange(k - 1, t.len() as int) == s.subrange(k, s.len() as int));
    } else {
        assert(s.subrange(0, s.len() as int) == s);
    }
}

proof fn lemma_trim_end_at(s: Seq<char>, k: int)
    requires
        0 <= k <= s.len(),
        forall|i: int| k <= i < s.len() ==> unicode_white_space(#[trigger] s[i]),
        k == 0 || !unicode_white_space(s[k - 1]),
    ensures
        trim_end(s) == s.subrange(0, k),
    decreases s.len() - k,
{
    if k < s.len() {
        let t = s.drop_last();
        assert forall|i: int| k <= i < t.len() implies unicode_white_space(#[trigger] t[i]) by {
            assert(t[i] == s[i]);
        }
        lemma_trim_end_at(t, k);
        assert(t.subrange(0, k) == s.subrange(0, k));
    } else {
        assert(s.subrange(0, k) == s);
    }
}

proof fn lemma_leading_whitespace(s: Seq<char>) -> (k: int)
    ensures
        0 <= k <= s.len(),
        forall|i: int| 0 <= i < k ==> unicode_white_space(#[trigger] s[i]),
        k == s.len() || !unicode_white_space(s[k]),
    decreases s.len(),
{
    if s.len() > 0 && unicode_white_space(s[0]) {
        let t = s.drop_first();
        let k1 = lemma_leading_whitespace(t);
        assert forall|i: int| 0 <= i < k1 + 1 implies unicode_white_space(#[trigger] s[i]) by {
            if i > 0 {
                assert(s[i] == t[i - 1]);
            }
        }
        if k1 < t.len() {
            assert(s[k1 + 1] == t[k1]);
        }
        k1 + 1
    } else {
        0
    }
}

proof fn lemma_trailing_whitespace(s: Seq<char>) -> (k: int)
    ensures
        0 <= k <= s.len(),
        forall|i: int| k <= i < s.len() ==> unicode_white_space(#[trigger] s[i]),
        k == 0 || !unicode_white_space(s[k - 1]),
    decreases s.len(),
{
    if s.len() > 0 && unicode_white_space(s.last()) {
        let t = s.drop_last();
        let k1 = lemma_trailing_whitespace(t);
        assert forall|i: int| k1 <= i < s.len() implies unicode_white_space(#[trigger] s[i]) by {
            if i < t.len() {
                assert(s[i] == t[i]);
            }
        }
        if k1 > 0 {
            assert(s[k1 - 1] == t[k1 - 1]);
        }
        k1
    } else {
        s.len() as int
    }
}

/// Trimming keeps a contiguous part of the text: everything before and after
/// it is whitespace, and (when it is not empty) it starts and ends with a
/// character that is not whitespace.
pub proof fn law_trimmed(s: Seq<char>)
    ensures
        exists|a: int, b: int|
            0 <= a <= b <= s.len() && trimmed(s) == s.subrange(a, b) && (forall|i: int|
                0 <= i < a ==> unicode_white_space(#[trigger] s[i])) && (forall|i: int|
                b <= i < s.len() ==> unicode_white_space(#[trigger] s[i])) && (a < b ==> !unicode_white_space(s[a])
                && !unicode_white_space(s[b - 1])),
{
    let a = lemma_leading_whitespace(s);
    lemma_trim_start_at(s, a);
    let t = s.subrange(a, s.len() as int);
    let k = lemma_trailing_whitespace(t);
    lemma_trim_end_at(t, k);
    let b = a + k;
    assert(t.subrange(0, k) == s.subrange(a, b));
    assert forall|i: int| b <= i < s.len() implies unicode_white_space(#[trigger] s[i]) by {
        assert(s[i] == t[i - a]);
    }
    if a < b {
        assert(s[a] == t[0]);
        assert(s[b - 1] == t[k - 1]);
    }
}

/// Removes leading and trailing whitespace.
pub fn trim_chars(s: &[char]) -> (r: Vec<char>)
    ensures
        r@ == trimmed(s@),
{
    let n = s.len();
    let mut a: usize = 0;
    while a < n && is_whitespace(s[a])
        invariant
            a <= n,
            n == s@.len(),
            forall|i: int| 0 <= i < a ==> unicode_white_space(#[trigger] s@[i]),
        decreases n - a,
    {
        a += 1;
    }
    proof {
        lemma_trim_start_at(s@, a as int);
    }
    let mut b: usize = n;
    while b > a && is_whitespace(s[b - 1])
        invariant
            a <= b <= n,
            n == s@.len(),
            forall|i: int| b <= i < n ==> unicode_white_space(#[trigger] s@[i]),
        decreases b,
    {
        b -= 1;
    }
    let ghost t = s@.subrange(a as int, n as int);
    proof {
        assert forall|i: int| b - a <= i < t.len() implies unicode_white_space(#[trigger] t[i]) by {
            assert(t[i] == s@[a + i]);
        }
        if b > a {
            assert(t[b - a - 1] == s@[b - 1]);
        }
        lemma_trim_end_at(t, b - a);
        assert(t.subrange(0, b - a) == s@.subrange(a as int, b as int));
    }
    let mut r: Vec<char> = Vec::new();
    for i in a..b
        invariant
            a <= b <= n,
            n == s@.len(),
            r@ == s@.subrange(a as int, i as int),
    {
        r.push(s[i]);
        assert(s@.subrange(a as int, i as int).push(s@[i as int]) == s@.subrange(a as int, i + 1));
    }
    r
}


// ---------------------------------------------------------------------------
// Splitting on a separator character (std's `str::split` with a `char`)
// ---------------------------------------------------------------------------

/// The pieces of `s` between occurrences of `sep`, as `str::split(sep)`
/// yields them: always at least one piece, and an empty piece wherever two
/// separators meet or a separator starts or ends `s`.
pub open spec fn split_on(s: Seq<char>, sep: char) -> Seq<Seq<char>>
    decreases s.len(),
{
    if s.len() == 0 {
        seq![Seq::<char>::empty()]
    } else {
        let prev = split_on(s.drop_last(), sep);
        if s.last() == sep {
            prev.push(Seq::<char>::empty())
        } else {
            prev.update(prev.len() - 1, prev.last().push(s.last()))
        }
    }
}

/// The pieces joined back together with `sep` between neighbours.
pub open spec fn join_with(pieces: Seq<Seq<char>>, sep: char) -> Seq<char>
    decreases pieces.len(),
{
    if pieces.len() == 0 {
        Seq::<char>::empty()
    } else if pieces.len() == 1 {
        pieces[0]
    } else {
        join_with(pieces.drop_last(), sep).push(sep) + pieces.last()
    }
}

pub proof fn lemma_split_on_nonempty(s: Seq<char>, sep: char)
    ensures
        split_on(s, sep).len() >= 1,
    decreases s.len(),
{
    if s.len() > 0 {
        lemma_split_on_nonempty(s.drop_last(), sep);
    }
}

/// A text without the separator is one piece.
pub proof fn lemma_split_no_sep(x: Seq<char>, sep: char)
    requires
        !x.contains(sep),
    ensures
        split_on(x, sep) == seq![x],
    decreases x.len(),
{
    if x.len() > 0 {
        assert(x.drop_last().len() < x.len());
        assert(!x.drop_last().contains(sep)) by {
            if x.drop_last().contains(sep) {
                let i = choose|i: int| 0 <= i < x.drop_last().len() && x.drop_last()[i] == sep;
                assert(x[i] == sep);
            }
        }
        lemma_split_no_sep(x.drop_last(), sep);
        assert(x[x.len() - 1] != sep);
        assert(x.drop_last().push(x.last()) == x);
    } else {
        assert(x == Seq::<char>::empty());
    }
}

/// Splitting at a separator joins the pieces of both sides.
pub proof fn lemma_split_concat(x: Seq<char>, y: Seq<char>, sep: char)
    ensures
        split_on(x + seq![sep] + y, sep) == split_on(x, sep) + split_on(y, sep),
    decreases y.len(),
{
    let z = x + seq![sep] + y;
    lemma_split_on_nonempty(x, sep);
    if y.len() == 0 {
        assert(z.drop_last() == x);
        assert(split_on(y, sep) == seq![Seq::<char>::empty()]);
        assert(split_on(z, sep) == split_on(x, sep).push(Seq::<char>::empty()));
        assert(split_on(x, sep).push(Seq::<char>::empty()) == split_on(x, sep) + seq![Seq::<char>::empty()]);
    } else {
        let y0 = y.drop_last();
        assert(z.drop_last() == x + seq![sep] + y0);
        assert(z.last() == y.last());
        lemma_split_concat(x, y0, sep);
        lemma_split_on_nonempty(y0, sep);
        let a = split_on(x, sep);
        let b = split_on(y0, sep);
        let prev = split_on(z.drop_last(), sep);
        assert(prev == a + b);
        if y.last() == sep {
            assert(split_on(z, sep) == prev.push(Seq::<char>::empty()));
            assert(split_on(y, sep) == b.push(Seq::<char>::empty()));
            assert((a + b).push(Seq::<char>::empty()) == a + b.push(Seq::<char>::empty()));
        } else {
            assert(split_on(z, sep) == prev.update(prev.len() - 1, prev.last().push(y.last())));
            assert(split_on(y, sep) == b.update(b.len() - 1, b.last().push(y.last())));
            assert((a + b).update((a + b).len() - 1, (a + b).last().push(y.last())) == a + b.update(
                b.len() - 1,
                b.last().push(y.last()),
            ));
        }
    }
}

/// Splits `s` at every occurrence of `sep`.
pub fn split_chars(s: &[char], sep: char) -> (pieces: Vec<Vec<char>>)
    ensures
        pieces@.map_values(|p: Vec<char>| p@) == split_on(s@, sep),
{
    let n = s.len();
    let mut done: Vec<Vec<char>> = Vec::new();
    let mut cur: Vec<char> = Vec::new();
    for i in 0..n
        invariant
            n == s@.len(),
            done@.map_values(|p: Vec<char>| p@).push(cur@) == split_on(s@.take(i as int), sep),
    {
        let c = s[i];
        let ghost prefix = s@.take(i as int);
        let ghost before = done@.map_values(|p: Vec<char>| p@).push(cur@);
        assert(s@.take(i + 1).drop_last() == prefix);
        assert(s@.take(i + 1).last() == c);
        if c == sep {
            let finished = cur;
            done.push(finished);
            cur = Vec::new();
            assert(done@.map_values(|p: Vec<char>| p@).push(cur@) == before.push(Seq::<char>::empty()));
        } else {
            cur.push(c);
            assert(done@.map_values(|p: Vec<char>| p@).push(cur@) == before.update(
                before.len() - 1,
                before.last().push(c),
            ));
        }
    }
    assert(s@.take(n as int) == s@);
    done.push(cur);
    done
}

// ---------------------------------------------------------------------------
// Lines (std's `BufRead::lines`)
// ---------------------------------------------------------------------------

/// A line without the carriage return that ended it.
pub open spec fn strip_cr(l: Seq<char>) -> Seq<char> {
    if l.len() > 0 && l.last() == '\r' {
        l.drop_last()
    } else {
        l
    }
}

/// The lines of a text as `BufRead::lines` yields them: the pieces between
/// newlines, each that ended in a newline without a `\r` just before it, and
/// the text after the last newline only when it is not empty.
pub open spec fn text_lines(s: Seq<char>) -> Seq<Seq<char>> {
    let pieces = split_on(s, '\n');
    let ended = pieces.drop_last().map_values(|l: Seq<char>| strip_cr(l));
    if pieces.last().len() == 0 {
        ended
    } else {
        ended.push(pieces.last())
    }
}

/// A text without a newline is one line (none when it is empty).
pub proof fn law_lines_single(s: Seq<char>)
    requires
        !s.contains('\n'),
    ensures
        text_lines(s) == (if s.len() == 0 { Seq::<Seq<char>>::empty() } else { seq![s] }),
{
    lemma_split_no_sep(s, '\n');
    assert(seq![s].drop_last() =~= Seq::<Seq<char>>::empty());
    assert(Seq::<Seq<char>>::empty().map_values(|l: Seq<char>| strip_cr(l)) =~= Seq::<Seq<char>>::empty());
}

/// The text up to the first newline is the first line, without a carriage
/// return that ended it; the lines after it are those of the rest.
pub proof fn law_lines_first(a: Seq<char>, b: Seq<char>)
    requires
        !a.contains('\n'),
    ensures
        text_lines(a + seq!['\n'] + b) == seq![strip_cr(a)] + text_lines(b),
{
    lemma_split_no_sep(a, '\n');
    lemma_split_concat(a, b, '\n');
    lemma_split_on_nonempty(b, '\n');
    let pb = split_on(b, '\n');
    let p = split_on(a + seq!['\n'] + b, '\n');
    assert(p == seq![a] + pb);
    assert(p.drop_last() =~= seq![a] + pb.drop_last());
    assert(p.last() == pb.last());
    let f = |l: Seq<char>| strip_cr(l);
    assert((seq![a] + pb.drop_last()).map_values(f) =~= seq![strip_cr(a)] + pb.drop_last().map_values(f));
    if pb.last().len() != 0 {
        assert((seq![strip_cr(a)] + pb.drop_last().map_values(f)).push(pb.last()) =~= seq![strip_cr(a)] + pb.drop_last().map_values(f).push(pb.last()));
    }
}

/// Splits a text into lines.
pub fn lines_of(s: &[char]) -> (ls: Vec<Vec<char>>)
    ensures
        ls@.map_values(|l: Vec<char>| l@) == text_lines(s@),
{
    let pieces = split_chars(s, '\n');
    let ghost pv = pieces@.map_values(|p: Vec<char>| p@);
    proof {
        lemma_split_on_nonempty(s@, '\n');
    }
    let n = pieces.len();
    let mut out: Vec<Vec<char>> = Vec::new();
    for i in 0..n - 1
        invariant
            n == pieces@.len(),
            n >= 1,
            pv == pieces@.map_values(|p: Vec<char>| p@),
            pv == split_on(s@, '\n'),
            out@.map_values(|l: Vec<char>| l@) == pv.take(i as int).map_values(|l: Seq<char>| strip_cr(l)),
    {
        let p = &pieces[i];
        assert(pv[i as int] == p@);
        let m = p.len();
        let mut line: Vec<char> = Vec::new();
        let keep: usize = if m > 0 && p[m - 1] == '\r' { m - 1 } else { m };
        for j in 0..keep
            invariant
                keep <= m,
                m == p@.len(),
                line@ == p@.take(j as int),
        {
            line.push(p[j]);
            assert(p@.take(j as int).push(p@[j as int]) == p@.take(j + 1));
        }
        assert(line@ == strip_cr(p@));
        let ghost before = out@;
        out.push(line);
        assert(out@.map_values(|l: Vec<char>| l@) =~= before.map_values(|l: Vec<char>| l@).push(strip_cr(p@)));
        assert(pv.take(i + 1) == pv.take(i as int).push(pv[i as int]));
        assert(pv.take(i + 1).map_values(|l: Seq<char>| strip_cr(l)) =~= pv.take(i as int).map_values(|l: Seq<char>| strip_cr(l)).push(strip_cr(pv[i as int])));
        assert(out@.map_values(|l: Vec<char>| l@) == pv.take(i + 1).map_values(|l: Seq<char>| strip_cr(l)));
    }
    assert(pv.take(n - 1) == pv.drop_last());
    let last = &pieces[n - 1];
    assert(pv.last() == last@);
    if last.len() > 0 {
        let mut copy: Vec<char> = Vec::new();
        let m = last.len();
        for j in 0..m
            invariant
                m == last@.len(),
                copy@ == last@.take(j as int),
        {
            copy.push(last[j]);
            assert(last@.take(j as int).push(last@[j as int]) == last@.take(j + 1));
        }
        assert(last@.take(m as int) == last@);
        let ghost before = out@;
        out.push(copy);
        assert(out@.map_values(|l: Vec<char>| l@) =~= before.map_values(|l: Vec<char>| l@).push(last@));
    }
    out
}

// ---------------------------------------------------------------------------
// Splitting on whitespace (std's `str::split_whitespace`)
// ---------------------------------------------------------------------------

/// The maximal runs of non-whitespace characters of `s`, in order, as
/// `str::split_whitespace` yields them.
pub open spec fn words(s: Seq<char>) -> Seq<Seq<char>>
    decreases s.len(),
{
    if s.len() == 0 {
        Seq::<Seq<char>>::empty()
    } else {
        let prev = words(s.drop_last());
        let c = s.last();
        if unicode_white_space(c) {
            prev
        } else if s.len() >= 2 && !unicode_white_space(s[s.len() - 2]) {
            prev.update(prev.len() - 1, prev.last().push(c))
        } else {
            prev.push(seq![c])
        }
    }
}

proof fn lemma_words_nonempty(s: Seq<char>)
    requires
        s.len() > 0,
        !unicode_white_space(s.last()),
    ensures
        words(s).len() >= 1,
    decreases s.len(),
{
    if s.len() >= 2 && !unicode_white_space(s[s.len() - 2]) {
        lemma_words_nonempty(s.drop_last());
    }
}

/// The words of a text without whitespace are the text itself, as one word
/// (none when it is empty).
pub proof fn law_words_no_whitespace(s: Seq<char>)
    requires
        forall|i: int| 0 <= i < s.len() ==> !unicode_white_space(#[trigger] s[i]),
    ensures
        words(s) == (if s.len() == 0 { Seq::<Seq<char>>::empty() } else { seq![s] }),
    decreases s.len(),
{
    if s.len() > 0 {
        let t = s.drop_last();
        assert forall|i: int| 0 <= i < t.len() implies !unicode_white_space(#[trigger] t[i]) by {
            assert(t[i] == s[i]);
        }
        law_words_no_whitespace(t);
        assert(!unicode_white_space(s[s.len() - 1]));
        if s.len() >= 2 {
            assert(!unicode_white_space(s[s.len() - 2]));
            assert(t.push(s.last()) == s);
        } else {
            assert(seq![s.last()] == s);
        }
    }
}

/// A whitespace character separates words: the words of `a`, a whitespace
/// character, then `b` are the words of `a` followed by the words of `b`.
pub proof fn law_words_split_at_whitespace(a: Seq<char>, c: char, b: Seq<char>)
    requires
        unicode_white_space(c),
    ensures
        words(a + seq![c] + b) == words(a) + words(b),
    decreases b.len(),
{
    let z = a + seq![c] + b;
    if b.len() == 0 {
        assert(z.drop_last() == a);
        assert(words(a) + words(b) == words(a));
    } else {
        let b0 = b.drop_last();
        assert(z.drop_last() == a + seq![c] + b0);
        assert(z.last() == b.last());
        law_words_split_at_whitespace(a, c, b0);
        let wa = words(a);
        let wb = words(b0);
        let prev = words(z.drop_last());
        assert(prev == wa + wb);
        let l = b.last();
        if unicode_white_space(l) {
        } else if b.len() >= 2 && !unicode_white_space(b[b.len() - 2]) {
            assert(z[z.len() - 2] == b[b.len() - 2]);
            assert(b0.last() == b[b.len() - 2]);
            lemma_words_nonempty(b0);
            assert((wa + wb).update((wa + wb).len() - 1, (wa + wb).last().push(l)) =~= wa + wb.update(
                wb.len() - 1,
                wb.last().push(l),
            ));
        } else {
            assert(z[z.len() - 2] == (if b.len() >= 2 { b[b.len() - 2] } else { c }));
            assert((wa + wb).push(seq![l]) =~= wa + wb.push(seq![l]));
        }
    }
}

/// Every word is nonempty and holds no whitespace.
pub proof fn law_words_shape(s: Seq<char>)
    ensures
        forall|i: int| 0 <= i < words(s).len() ==> (#[trigger] words(s)[i]).len() > 0,
        forall|i: int, k: int| 0 <= i < words(s).len() && 0 <= k < words(s)[i].len() ==> !unicode_white_space(
            #[trigger] words(s)[i][k],
        ),
    decreases s.len(),
{
    if s.len() > 0 {
        let t = s.drop_last();
        law_words_shape(t);
        let prev = words(t);
        let cur = words(s);
        let c = s.last();
        if !unicode_white_space(c) {
            if s.len() >= 2 && !unicode_white_space(s[s.len() - 2]) {
                assert(t.last() == s[s.len() - 2]);
                lemma_words_nonempty(t);
                assert forall|i: int, k: int| 0 <= i < cur.len() && 0 <= k < cur[i].len() implies !unicode_white_space(
                    #[trigger] cur[i][k],
                ) by {
                    if i < cur.len() - 1 {
                        assert(cur[i] == prev[i]);
                    } else if k < prev[i].len() {
                        assert(cur[i][k] == prev[i][k]);
                    }
                }
                assert forall|i: int| 0 <= i < cur.len() implies (#[trigger] cur[i]).len() > 0 by {
                    if i < cur.len() - 1 {
                        assert(cur[i] == prev[i]);
                    }
                }
            } else {
                assert forall|i: int, k: int| 0 <= i < cur.len() && 0 <= k < cur[i].len() implies !unicode_white_space(
                    #[trigger] cur[i][k],
                ) by {
                    if i < cur.len() - 1 {
                        assert(cur[i] == prev[i]);
                    }
                }
                assert forall|i: int| 0 <= i < cur.len() implies (#[trigger] cur[i]).len() > 0 by {
                    if i < cur.len() - 1 {
                        assert(cur[i] == prev[i]);
                    }
                }
            }
        }
    }
}

/// Splits `s` into its whitespace-separated words.
pub fn words_of(s: &[char]) -> (ws: Vec<Vec<char>>)
    ensures
        ws@.map_values(|w: Vec<char>| w@) == words(s@),
{
    let n = s.len();
    let mut out: Vec<Vec<char>> = Vec::new();
    let mut cur: Vec<char> = Vec::new();
    let mut in_word = false;
    for i in 0..n
        invariant
            n == s@.len(),
            in_word == (i > 0 && !unicode_white_space(s@[i - 1])),
            in_word ==> cur@.len() > 0,
            !in_word ==> cur@.len() == 0,
            (if in_word {
                out@.map_values(|w: Vec<char>| w@).push(cur@)
            } else {
                out@.map_values(|w: Vec<char>| w@)
            }) == words(s@.take(i as int)),
    {
        let c = s[i];
        let ghost prefix = s@.take(i as int);
        let ghost before = words(prefix);
        assert(s@.take(i + 1).drop_last() == prefix);
        assert(s@.take(i + 1).last() == c);
        if i > 0 {
            assert(s@.take(i + 1)[i - 1] == s@[i - 1]);
        }
        if is_whitespace(c) {
            if in_word {
                let finished = cur;
                out.push(finished);
                cur = Vec::new();
            }
            in_word = false;
        } else {
            cur.push(c);
            if in_word {
                proof {
                    lemma_words_nonempty(prefix);
                }
                assert(out@.map_values(|w: Vec<char>| w@).push(cur@) == before.update(
                    before.len() - 1,
                    before.last().push(c),
                ));
            } else {
                assert(cur@ == seq![c]);
                assert(out@.map_values(|w: Vec<char>| w@).push(cur@) == before.push(seq![c]));
            }
            in_word = true;
        }
    }
    assert(s@.take(n as int) == s@);
    if in_word {
        out.push(cur);
    }
    out
}

// ---------------------------------------------------------------------------
// Prefixes
// ---------------------------------------------------------------------------

/// Whether `p` is a prefix of `s` (std's `str::starts_with`).
pub open spec fn has_prefix(s: Seq<char>, p: Seq<char>) -> bool {
    p.len() <= s.len() && s.subrange(0, p.len() as int) == p
}

/// Tests whether `s` starts with `p`.
pub fn starts_with(s: &[char], p: &[char]) -> (b: bool)
    ensures
        b == has_prefix(s@, p@),
{
    if p.len() > s.len() {
        return false;
    }
    let m = p.len();
    for i in 0..m
        invariant
            m == p@.len(),
            m <= s@.len(),
            forall|j: int| 0 <= j < i ==> s@[j] == p@[j],
    {
        if s[i] != p[i] {
            assert(s@.subrange(0, m as int)[i as int] != p@[i as int]);
            return false;
        }
    }
    assert(s@.subrange(0, m as int) == p@);
    true
}

/// Tests two character sequences for equality.
pub fn chars_eq(a: &[char], b: &[char]) -> (r: bool)
    ensures
        r == (a@ == b@),
{
    if a.len() != b.len() {
        return false;
    }
    let r = starts_with(a, b);
    proof {
        assert(a@.subrange(0, b@.len() as int) == a@);
    }
    r
}

} // verus!
