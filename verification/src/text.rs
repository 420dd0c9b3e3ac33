//! Text as sequences of characters: the operations of `str` that the
//! parsers of this crate rely on, stated over `Seq<char>` and proved.
use vstd::prelude::*;

use crate::outside::push_char;

verus! {

// ---------------------------------------------------------------------------
// Specifications
// ---------------------------------------------------------------------------

/// Unicode `White_Space`, the property that `char::is_whitespace` tests.
pub open spec fn is_ws(c: char) -> bool {
    ||| ('\t' <= c && c <= '\r')
    ||| c == ' '
    ||| c == '\u{85}'
    ||| c == '\u{a0}'
    ||| c == '\u{1680}'
    ||| ('\u{2000}' <= c && c <= '\u{200a}')
    ||| c == '\u{2028}'
    ||| c == '\u{2029}'
    ||| c == '\u{202f}'
    ||| c == '\u{205f}'
    ||| c == '\u{3000}'
}

/// Position of the first `c` in `s`, or `s.len()` when `c` does not occur.
pub open spec fn index_of(s: Seq<char>, c: char) -> nat
    decreases s.len(),
{
    if s.len() == 0 {
        0
    } else if s[0] == c {
        0
    } else {
        1 + index_of(s.drop_first(), c)
    }
}

/// Position of the first whitespace character of `s`, or `s.len()`.
pub open spec fn index_of_ws(s: Seq<char>) -> nat
    decreases s.len(),
{
    if s.len() == 0 {
        0
    } else if is_ws(s[0]) {
        0
    } else {
        1 + index_of_ws(s.drop_first())
    }
}

/// `s` without its leading whitespace (`str::trim_start`).
pub open spec fn trim_start(s: Seq<char>) -> Seq<char>
    decreases s.len(),
{
    if s.len() > 0 && is_ws(s[0]) {
        trim_start(s.drop_first())
    } else {
        s
    }
}

/// `s` without its trailing whitespace (`str::trim_end`).
pub open spec fn trim_end(s: Seq<char>) -> Seq<char>
    decreases s.len(),
{
    if s.len() > 0 && is_ws(s.last()) {
        trim_end(s.drop_last())
    } else {
        s
    }
}

/// `s` without leading and trailing whitespace (`str::trim`).
pub open spec fn trim(s: Seq<char>) -> Seq<char> {
    trim_end(trim_start(s))
}

/// Whether `s` begins with `p`.
pub open spec fn starts_with(s: Seq<char>, p: Seq<char>) -> bool {
    p.len() <= s.len() && s.take(p.len() as int) == p
}

/// Whether `s` ends with `p`.
pub open spec fn ends_with(s: Seq<char>, p: Seq<char>) -> bool {
    p.len() <= s.len() && s.skip(s.len() - p.len()) == p
}

/// Whether `p` occurs somewhere in `s`.
pub open spec fn contains_seq(s: Seq<char>, p: Seq<char>) -> bool {
    exists|i: int| 0 <= i && i + p.len() <= s.len() && #[trigger] s.subrange(i, i + p.len()) == p
}

/// `s` without one trailing carriage return.
pub open spec fn strip_cr(s: Seq<char>) -> Seq<char> {
    if s.len() > 0 && s.last() == '\r' {
        s.drop_last()
    } else {
        s
    }
}

/// The lines of `s` as `str::lines` yields them: split at each `'\n'`, one
/// `'\r'` before a `'\n'` removed, no empty line after a final `'\n'`.
pub open spec fn lines(s: Seq<char>) -> Seq<Seq<char>>
    decreases s.len(),
{
    if s.len() == 0 {
        seq![]
    } else {
        let i = index_of(s, '\n');
        if i >= s.len() {
            seq![s]
        } else {
            seq![strip_cr(s.take(i as int))] + lines(s.skip(i as int + 1))
        }
    }
}

/// The pieces of `s` between occurrences of `c` (`str::split` with a char).
pub open spec fn split_on(s: Seq<char>, c: char) -> Seq<Seq<char>>
    decreases s.len(),
{
    let i = index_of(s, c);
    if i >= s.len() {
        seq![s]
    } else {
        seq![s.take(i as int)] + split_on(s.skip(i as int + 1), c)
    }
}

/// The maximal runs of non-whitespace characters of `s`
/// (`str::split_whitespace`).
pub open spec fn words(s: Seq<char>) -> Seq<Seq<char>>
    decreases s.len(),
{
    let t = trim_start(s);
    if t.len() == 0 {
        seq![]
    } else {
        let i = index_of_ws(t);
        if 0 < i <= t.len() && t.len() <= s.len() {
            seq![t.take(i as int)] + words(t.skip(i as int))
        } else {
            seq![t]
        }
    }
}

/// Whether `c` is an ASCII decimal digit.
pub open spec fn is_digit(c: char) -> bool {
    '0' <= c && c <= '9'
}

/// Value of the decimal digit `c`.
pub open spec fn digit_value(c: char) -> nat {
    (c as int - '0' as int) as nat
}

/// Value of the decimal numeral `s` (all of whose characters are digits).
pub open spec fn decimal_value(s: Seq<char>) -> nat
    decreases s.len(),
{
    if s.len() == 0 {
        0
    } else {
        decimal_value(s.drop_last()) * 10 + digit_value(s.last())
    }
}

/// Whether every character of `s` is a decimal digit.
pub open spec fn all_digits(s: Seq<char>) -> bool {
    forall|i: int| 0 <= i < s.len() ==> is_digit(#[trigger] s[i])
}

/// What `str::parse::<u64>` returns: an optional `'+'`, then one or more
/// decimal digits whose value fits in a `u64`.
pub open spec fn parse_u64_text(s: Seq<char>) -> Option<u64> {
    let d = if s.len() > 0 && s[0] == '+' { s.drop_first() } else { s };
    if d.len() > 0 && all_digits(d) && decimal_value(d) <= u64::MAX {
        Some(decimal_value(d) as u64)
    } else {
        None
    }
}

/// The character of the decimal digit `d` (< 10).
pub open spec fn digit_char(d: nat) -> char {
    ('0' as int + d) as char
}

/// The decimal numeral of `n`, as integers are displayed.
pub open spec fn decimal_text(n: nat) -> Seq<char>
    decreases n,
{
    if n < 10 {
        seq![digit_char(n)]
    } else {
        decimal_text(n / 10).push(digit_char(n % 10))
    }
}

// ---------------------------------------------------------------------------
// Lemmas
// ---------------------------------------------------------------------------

pub proof fn lemma_index_of_bounds(s: Seq<char>, c: char)
    ensures
        index_of(s, c) <= s.len(),
        index_of(s, c) < s.len() ==> s[index_of(s, c) as int] == c,
        forall|k: int| 0 <= k < index_of(s, c) ==> s[k] != c,
    decreases s.len(),
{
    if s.len() > 0 && s[0] != c {
        lemma_index_of_bounds(s.drop_first(), c);
        assert forall|k: int| 0 <= k < index_of(s, c) implies s[k] != c by {
            if k > 0 {
                assert(s[k] == s.drop_first()[k - 1]);
            }
        }
    }
}

/// The first `c` in `s` is at `m` when no earlier character is `c`.
pub proof fn lemma_index_of_at(s: Seq<char>, c: char, m: int)
    requires
        0 <= m <= s.len(),
        m < s.len() ==> s[m] == c,
        forall|k: int| 0 <= k < m ==> s[k] != c,
    ensures
        index_of(s, c) == m,
    decreases s.len(),
{
    if s.len() > 0 && m > 0 {
        lemma_index_of_at(s.drop_first(), c, m - 1);
    }
}

pub proof fn lemma_index_of_ws_bounds(s: Seq<char>)
    ensures
        index_of_ws(s) <= s.len(),
        index_of_ws(s) < s.len() ==> is_ws(s[index_of_ws(s) as int]),
        forall|k: int| 0 <= k < index_of_ws(s) ==> !is_ws(s[k]),
    decreases s.len(),
{
    if s.len() > 0 && !is_ws(s[0]) {
        lemma_index_of_ws_bounds(s.drop_first());
        assert forall|k: int| 0 <= k < index_of_ws(s) implies !is_ws(s[k]) by {
            if k > 0 {
                assert(s[k] == s.drop_first()[k - 1]);
            }
        }
    }
}

pub proof fn lemma_index_of_ws_at(s: Seq<char>, m: int)
    requires
        0 <= m <= s.len(),
        m < s.len() ==> is_ws(s[m]),
        forall|k: int| 0 <= k < m ==> !is_ws(s[k]),
    ensures
        index_of_ws(s) == m,
    decreases s.len(),
{
    if s.len() > 0 && m > 0 {
        lemma_index_of_ws_at(s.drop_first(), m - 1);
    }
}

/// `trim_start` drops exactly the leading whitespace.
pub proof fn lemma_trim_start_at(s: Seq<char>, m: int)
    requires
        0 <= m <= s.len(),
        m < s.len() ==> !is_ws(s[m]),
        forall|k: int| 0 <= k < m ==> is_ws(s[k]),
    ensures
        trim_start(s) == s.skip(m),
    decreases s.len(),
{
    if m > 0 {
        lemma_trim_start_at(s.drop_first(), m - 1);
        assert(s.drop_first().skip(m - 1) == s.skip(m));
    } else {
        assert(s.skip(0) == s);
    }
}

/// `trim_end` drops exactly the trailing whitespace.
pub proof fn lemma_trim_end_at(s: Seq<char>, m: int)
    requires
        0 <= m <= s.len(),
        m > 0 ==> !is_ws(s[m - 1]),
        forall|k: int| m <= k < s.len() ==> is_ws(s[k]),
    ensures
        trim_end(s) == s.take(m),
    decreases s.len(),
{
    if m < s.len() {
        lemma_trim_end_at(s.drop_last(), m);
        assert(s.drop_last().take(m) == s.take(m));
    } else {
        assert(s.take(m) == s);
    }
}

pub proof fn lemma_trim_start_shape(s: Seq<char>)
    ensures
        trim_start(s).len() <= s.len(),
        trim_start(s).len() > 0 ==> !is_ws(trim_start(s)[0]),
        trim_start(s) == s.skip(s.len() - trim_start(s).len()),
    decreases s.len(),
{
    if s.len() > 0 && is_ws(s[0]) {
        lemma_trim_start_shape(s.drop_first());
        assert(s.drop_first().skip(s.drop_first().len() - trim_start(s).len())
            == s.skip(s.len() - trim_start(s).len()));
    } else {
        assert(s.skip(0) == s);
    }
}

pub proof fn lemma_decimal_value_prefix(s: Seq<char>, k: int)
    requires
        0 <= k <= s.len(),
    ensures
        decimal_value(s.take(k)) <= decimal_value(s),
    decreases s.len() - k,
{
    if k < s.len() {
        lemma_decimal_value_prefix(s, k + 1);
        assert(s.take(k + 1).drop_last() == s.take(k));
    } else {
        assert(s.take(k) == s);
    }
}

// ---------------------------------------------------------------------------
// Executable operations
// ---------------------------------------------------------------------------

/// The characters of `s`, in order.
pub fn chars_of(s: &str) -> (r: Vec<char>)
    ensures
        r@ == s@,
{
    let mut r: Vec<char> = Vec::new();
    for c in it: s.chars()
        invariant
            r@ == it.seq().take(it.index() as int),
            it.seq() == s@,
    {
        r.push(c);
        assert(r@ == it.seq().take(it.index() as int + 1));
    }
    r
}

/// Appends the characters `v[lo..hi]` to `s`.
pub fn push_range(s: &mut String, v: &Vec<char>, lo: usize, hi: usize)
    requires
        lo <= hi <= v@.len(),
    ensures
        final(s)@ == old(s)@ + v@.subrange(lo as int, hi as int),
{
    let mut i = lo;
    while i < hi
        invariant
            lo <= i <= hi <= v@.len(),
            s@ == old(s)@ + v@.subrange(lo as int, i as int),
        decreases hi - i,
    {
        push_char(s, v[i]);
        assert(v@.subrange(lo as int, i + 1) == v@.subrange(lo as int, i as int).push(v@[i as int]));
        i = i + 1;
    }
}

/// The string made of the characters `v[lo..hi]`.
pub fn string_of_range(v: &Vec<char>, lo: usize, hi: usize) -> (r: String)
    requires
        lo <= hi <= v@.len(),
    ensures
        r@ == v@.subrange(lo as int, hi as int),
{
    let mut r = String::new();
    push_range(&mut r, v, lo, hi);
    r
}

/// The string made of the characters of `v`.
pub fn string_of(v: &Vec<char>) -> (r: String)
    ensures
        r@ == v@,
{
    let r = string_of_range(v, 0, v.len());
    assert(v@.subrange(0, v@.len() as int) == v@);
    r
}

/// A new vector holding `v[lo..hi]`.
pub fn copy_range(v: &Vec<char>, lo: usize, hi: usize) -> (r: Vec<char>)
    requires
        lo <= hi <= v@.len(),
    ensures
        r@ == v@.subrange(lo as int, hi as int),
{
    let mut r: Vec<char> = Vec::new();
    let mut i = lo;
    while i < hi
        invariant
            lo <= i <= hi <= v@.len(),
            r@ == v@.subrange(lo as int, i as int),
        decreases hi - i,
    {
        r.push(v[i]);
        assert(v@.subrange(lo as int, i + 1) == v@.subrange(lo as int, i as int).push(v@[i as int]));
        i = i + 1;
    }
    r
}

/// `s` followed by the characters of `t`.
pub fn append_str(s: &mut String, t: &str)
    ensures
        final(s)@ == old(s)@ + t@,
{
    s.append(t);
}

/// Whether `c` is whitespace (`char::is_whitespace`).
pub fn is_whitespace(c: char) -> (r: bool)
    ensures
        r == is_ws(c),
{
    ('\t' <= c && c <= '\r') || c == ' ' || c == '\u{85}' || c == '\u{a0}' || c == '\u{1680}'
        || ('\u{2000}' <= c && c <= '\u{200a}') || c == '\u{2028}' || c == '\u{2029}'
        || c == '\u{202f}' || c == '\u{205f}' || c == '\u{3000}'
}

/// First position `k >= lo` with `v[k] == c`, or `v.len()`.
pub fn find_char(v: &Vec<char>, lo: usize, c: char) -> (r: usize)
    requires
        lo <= v@.len(),
    ensures
        r == lo + index_of(v@.skip(lo as int), c),
        lo <= r <= v@.len(),
{
    let mut k = lo;
    while k < v.len() && v[k] != c
        invariant
            lo <= k <= v@.len(),
            forall|j: int| lo <= j < k ==> v@[j] != c,
        decreases v@.len() - k,
    {
        k = k + 1;
    }
    proof {
        lemma_index_of_at(v@.skip(lo as int), c, k - lo);
    }
    k
}

/// The bounds of `v[lo..hi]` without leading and trailing whitespace.
pub fn trim_bounds(v: &Vec<char>, lo: usize, hi: usize) -> (r: (usize, usize))
    requires
        lo <= hi <= v@.len(),
    ensures
        lo <= r.0 <= r.1 <= hi,
        v@.subrange(r.0 as int, r.1 as int) == trim(v@.subrange(lo as int, hi as int)),
{
    let ghost s = v@.subrange(lo as int, hi as int);
    let mut a = lo;
    while a < hi && is_whitespace(v[a])
        invariant
            lo <= a <= hi <= v@.len(),
            forall|j: int| lo <= j < a ==> is_ws(v@[j]),
        decreases hi - a,
    {
        a = a + 1;
    }
    proof {
        lemma_trim_start_at(s, a - lo);
        assert(s.skip(a - lo) == v@.subrange(a as int, hi as int));
    }
    let mut b = hi;
    while b > a && is_whitespace(v[b - 1])
        invariant
            lo <= a <= b <= hi <= v@.len(),
            forall|j: int| b <= j < hi ==> is_ws(v@[j]),
        decreases b - a,
    {
        b = b - 1;
    }
    proof {
        let t = v@.subrange(a as int, hi as int);
        lemma_trim_end_at(t, b - a);
        assert(t.take(b - a) == v@.subrange(a as int, b as int));
    }
    (a, b)
}

/// `s` without leading and trailing whitespace, as a new string.
pub fn trimmed(s: &str) -> (r: String)
    ensures
        r@ == trim(s@),
{
    let v = chars_of(s);
    let (a, b) = trim_bounds(&v, 0, v.len());
    assert(v@.subrange(0, v@.len() as int) == v@);
    string_of_range(&v, a, b)
}

/// Whether `trim(s)` is empty (`s.trim().is_empty()`).
pub fn is_blank(s: &str) -> (r: bool)
    ensures
        r == (trim(s@).len() == 0),
{
    let v = chars_of(s);
    let (a, b) = trim_bounds(&v, 0, v.len());
    assert(v@.subrange(0, v@.len() as int) == v@);
    a == b
}

/// Whether `v[lo..hi]` equals `p`.
pub fn range_eq(v: &Vec<char>, lo: usize, hi: usize, p: &Vec<char>) -> (r: bool)
    requires
        lo <= hi <= v@.len(),
    ensures
        r == (v@.subrange(lo as int, hi as int) == p@),
{
    if hi - lo != p.len() {
        return false;
    }
    let mut k: usize = 0;
    while k < p.len()
        invariant
            lo <= hi <= v@.len(),
            hi - lo == p@.len(),
            k <= p@.len(),
            forall|j: int| 0 <= j < k ==> v@[lo + j] == p@[j],
        decreases p@.len() - k,
    {
        if v[lo + k] != p[k] {
            assert(v@.subrange(lo as int, hi as int)[k as int] != p@[k as int]);
            return false;
        }
        k = k + 1;
    }
    assert(v@.subrange(lo as int, hi as int) =~= p@);
    true
}

/// Whether `a` and `b` hold the same characters.
pub fn chars_eq(a: &Vec<char>, b: &Vec<char>) -> (r: bool)
    ensures
        r == (a@ == b@),
{
    let r = range_eq(a, 0, a.len(), b);
    assert(a@.subrange(0, a@.len() as int) == a@);
    r
}

/// Whether `v[lo..hi]` begins with `p`.
pub fn range_starts_with(v: &Vec<char>, lo: usize, hi: usize, p: &Vec<char>) -> (r: bool)
    requires
        lo <= hi <= v@.len(),
    ensures
        r == starts_with(v@.subrange(lo as int, hi as int), p@),
{
    if p.len() > hi - lo {
        return false;
    }
    let r = range_eq(v, lo, lo + p.len(), p);
    assert(v@.subrange(lo as int, hi as int).take(p@.len() as int) == v@.subrange(
        lo as int,
        lo + p@.len(),
    ));
    r
}

/// Whether `v` ends with `p`.
pub fn chars_end_with(v: &Vec<char>, p: &Vec<char>) -> (r: bool)
    ensures
        r == ends_with(v@, p@),
{
    if p.len() > v.len() {
        return false;
    }
    let r = range_eq(v, v.len() - p.len(), v.len(), p);
    assert(v@.skip(v@.len() - p@.len()) == v@.subrange(v@.len() - p@.len(), v@.len() as int));
    r
}

/// Whether `p` occurs in `v`.
pub fn chars_contain(v: &Vec<char>, p: &Vec<char>) -> (r: bool)
    ensures
        r == contains_seq(v@, p@),
{
    if p.len() == 0 {
        assert(v@.subrange(0, 0 + p@.len() as int) =~= p@);
        return true;
    }
    if p.len() > v.len() {
        return false;
    }
    let plen = p.len();
    let count = v.len() - plen + 1;
    let mut i: usize = 0;
    while i < count
        invariant
            0 < p@.len() <= v@.len(),
            count == v@.len() - p@.len() + 1,
            plen == p@.len(),
            v@.len() <= usize::MAX,
            i <= count,
            forall|j: int| 0 <= j < i ==> #[trigger] v@.subrange(j, j + p@.len()) != p@,
        decreases count - i,
    {
        let end = i + plen;
        if range_eq(v, i, end, p) {
            return true;
        }
        i = i + 1;
    }
    false
}


/// The pieces of `v` between occurrences of `c` (`str::split`).
pub fn split_chars(v: &Vec<char>, c: char) -> (r: Vec<Vec<char>>)
    ensures
        r.deep_view() == split_on(v@, c),
{
    let mut r: Vec<Vec<char>> = Vec::new();
    let mut pos: usize = 0;
    assert(v@.skip(0) == v@);
    loop
        invariant
            pos <= v@.len(),
            r.deep_view() + split_on(v@.skip(pos as int), c) == split_on(v@, c),
        decreases v@.len() - pos,
    {
        let ghost rest = v@.skip(pos as int);
        let j = find_char(v, pos, c);
        let piece = copy_range(v, pos, j);
        let ghost before = r.deep_view();
        r.push(piece);
        proof {
            assert(piece.deep_view() =~= piece@);
            assert(r.deep_view() =~= before.push(piece@));
        }
        if j == v.len() {
            proof {
                assert(piece@ == rest);
                assert(split_on(rest, c) == seq![rest]);
                assert(before + seq![rest] == before.push(rest));
            }
            return r;
        }
        proof {
            let i = j - pos;
            assert(rest.take(i) == v@.subrange(pos as int, j as int));
            assert(rest.skip(i + 1) == v@.skip(j + 1));
            assert(split_on(rest, c) == seq![piece@] + split_on(v@.skip(j + 1), c));
            assert(before.push(piece@) + split_on(v@.skip(j + 1), c) == before + (seq![piece@]
                + split_on(v@.skip(j + 1), c)));
        }
        pos = j + 1;
    }
}

/// The whitespace-separated words of `v` (`str::split_whitespace`).
pub fn split_words(v: &Vec<char>) -> (r: Vec<Vec<char>>)
    ensures
        r.deep_view() == words(v@),
{
    let mut r: Vec<Vec<char>> = Vec::new();
    let mut pos: usize = 0;
    assert(v@.skip(0) == v@);
    loop
        invariant
            pos <= v@.len(),
            r.deep_view() + words(v@.skip(pos as int)) == words(v@),
        decreases v@.len() - pos,
    {
        let ghost rest = v@.skip(pos as int);
        let mut a = pos;
        while a < v.len() && is_whitespace(v[a])
            invariant
                pos <= a <= v@.len(),
                forall|j: int| pos <= j < a ==> is_ws(v@[j]),
            decreases v@.len() - a,
        {
            a = a + 1;
        }
        proof {
            lemma_trim_start_at(rest, a - pos);
            assert(rest.skip(a - pos) == v@.skip(a as int));
        }
        if a == v.len() {
            proof {
                assert(words(rest) =~= Seq::<Seq<char>>::empty());
                assert(r.deep_view() + Seq::<Seq<char>>::empty() == r.deep_view());
            }
            return r;
        }
        let mut b = a;
        while b < v.len() && !is_whitespace(v[b])
            invariant
                a <= b <= v@.len(),
                forall|j: int| a <= j < b ==> !is_ws(v@[j]),
            decreases v@.len() - b,
        {
            b = b + 1;
        }
        let word = copy_range(v, a, b);
        proof {
            let t = v@.skip(a as int);
            lemma_index_of_ws_at(t, b - a);
            assert(t.take(b - a) == word@);
            assert(t.skip(b - a) == v@.skip(b as int));
            assert(words(rest) == seq![word@] + words(v@.skip(b as int)));
        }
        let ghost before = r.deep_view();
        r.push(word);
        proof {
            assert(word.deep_view() =~= word@);
            assert(r.deep_view() =~= before.push(word@));
            assert(before.push(word@) + words(v@.skip(b as int)) == before + (seq![word@]
                + words(v@.skip(b as int))));
        }
        pos = b;
    }
}

/// The value of `v` as `str::parse::<u64>` reads it.
pub fn parse_u64_chars(v: &Vec<char>) -> (r: Option<u64>)
    ensures
        r == parse_u64_text(v@),
{
    let start: usize = if v.len() > 0 && v[0] == '+' { 1 } else { 0 };
    let ghost d = v@.skip(start as int);
    assert(d == (if v@.len() > 0 && v@[0] == '+' { v@.drop_first() } else { v@ }));
    if start == v.len() {
        return None;
    }
    let mut acc: u64 = 0;
    let mut overflow = false;
    let mut i = start;
    while i < v.len()
        invariant
            start <= i <= v@.len(),
            d == v@.skip(start as int),
            d == (if v@.len() > 0 && v@[0] == '+' { v@.drop_first() } else { v@ }),
            all_digits(d.take(i - start)),
            !overflow ==> acc == decimal_value(d.take(i - start)),
            overflow ==> decimal_value(d.take(i - start)) > u64::MAX,
        decreases v@.len() - i,
    {
        let c = v[i];
        if !('0' <= c && c <= '9') {
            proof {
                assert(d[i - start] == c);
                assert(!is_digit(d[i - start]));
                assert(!all_digits(d));
            }
            return None;
        }
        let ghost k = i - start;
        proof {
            assert(d.take(k + 1).drop_last() == d.take(k));
            assert(d.take(k + 1).last() == c);
            assert forall|j: int| 0 <= j < k + 1 implies is_digit(#[trigger] d.take(k + 1)[j]) by {
                if j < k {
                    assert(d.take(k + 1)[j] == d.take(k)[j]);
                }
            }
        }
        let dv = (c as u32 - '0' as u32) as u64;
        if !overflow {
            if acc > (u64::MAX - dv) / 10 {
                overflow = true;
            } else {
                acc = acc * 10 + dv;
            }
        }
        i = i + 1;
    }
    proof {
        assert(d.take(i - start) == d);
    }
    if overflow {
        None
    } else {
        Some(acc)
    }
}

/// The decimal numeral of `n` (`n.to_string()`).
pub fn u64_text(n: u64) -> (r: String)
    ensures
        r@ == decimal_text(n as nat),
    decreases n,
{
    if n < 10 {
        let mut r = String::new();
        push_char(&mut r, (('0' as u8) + (n as u8)) as char);
        proof {
            assert(r@ =~= seq![digit_char(n as nat)]);
        }
        r
    } else {
        let mut r = u64_text(n / 10);
        push_char(&mut r, (('0' as u8) + ((n % 10) as u8)) as char);
        r
    }
}

/// The lines of `v` (`str::lines`), each as a vector of characters.
pub fn split_lines(v: &Vec<char>) -> (r: Vec<Vec<char>>)
    ensures
        r.deep_view() == lines(v@),
{
    let mut r: Vec<Vec<char>> = Vec::new();
    let mut pos: usize = 0;
    assert(v@.skip(0) == v@);
    while pos < v.len()
        invariant
            pos <= v@.len(),
            r.deep_view() + lines(v@.skip(pos as int)) == lines(v@),
        decreases v@.len() - pos,
    {
        let ghost rest = v@.skip(pos as int);
        let j = find_char(v, pos, '\n');
        if j == v.len() {
            let line = copy_range(v, pos, j);
            proof {
                assert(line@ == rest);
                assert(lines(rest) == seq![rest]);
            }
            let ghost before = r.deep_view();
            r.push(line);
            proof {
                assert(line.deep_view() =~= line@);
                assert(r.deep_view() =~= before.push(line@));
                assert(v@.skip(j as int).len() == 0);
                assert(lines(v@.skip(j as int)) =~= Seq::<Seq<char>>::empty());
            }
            pos = j;
        } else {
            let mut end = j;
            if end > pos && v[end - 1] == '\r' {
                end = end - 1;
            }
            let line = copy_range(v, pos, end);
            proof {
                let i = j - pos;
                assert(rest.take(i) == v@.subrange(pos as int, j as int));
                assert(line@ == strip_cr(rest.take(i)));
                assert(rest.skip(i + 1) == v@.skip(j + 1));
                assert(lines(rest) == seq![line@] + lines(v@.skip(j + 1)));
            }
            let ghost before = r.deep_view();
            r.push(line);
            proof {
                assert(line.deep_view() =~= line@);
                assert(r.deep_view() =~= before.push(line@));
                assert(before.push(line@) + lines(v@.skip(j + 1)) == before + (seq![line@]
                    + lines(v@.skip(j + 1))));
            }
            pos = j + 1;
        }
    }
    proof {
        assert(v@.skip(pos as int).len() == 0);
        assert(lines(v@.skip(pos as int)) =~= Seq::<Seq<char>>::empty());
        assert(r.deep_view() + Seq::<Seq<char>>::empty() == r.deep_view());
    }
    r
}

} // verus!
