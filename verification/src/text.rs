//! Character-level helpers on strings: Unicode whitespace, trimming, ASCII
//! lowercasing, decimal rendering and building strings from characters.
use vstd::prelude::*;

verus! {

/// Unicode `White_Space` (what `char::is_whitespace` tests).
pub open spec fn is_ws(c: char) -> bool {
    ||| ('\u{9}' <= c && c <= '\u{d}')
    ||| c == ' '
    ||| c == '\u{85}'
    ||| c == '\u{a0}'
    ||| c == '\u{1680}'
    ||| ('\u{2000}' <= c && c <= '\u{200a}')
    ||| c == '\u{2028}'
    ||| c == '\u{2029}'
    ||| c == '\u{202f}'
    ||| c == '\u{205f}'
    ||| c == '\u{3000}'
}

/// Executable whitespace test.
pub fn is_whitespace(c: char) -> (r: bool)
    ensures
        r == is_ws(c),
{
    ('\u{9}' <= c && c <= '\u{d}') || c == ' ' || c == '\u{85}' || c == '\u{a0}' || c
        == '\u{1680}' || ('\u{2000}' <= c && c <= '\u{200a}') || c == '\u{2028}' || c
        == '\u{2029}' || c == '\u{202f}' || c == '\u{205f}' || c == '\u{3000}'
}

/// `s` without its leading whitespace.
pub open spec fn trim_start(s: Seq<char>) -> Seq<char>
    decreases s.len(),
{
    if s.len() > 0 && is_ws(s[0]) {
        trim_start(s.drop_first())
    } else {
        s
    }
}

/// `s` without its trailing whitespace.
pub open spec fn trim_end(s: Seq<char>) -> Seq<char>
    decreases s.len(),
{
    if s.len() > 0 && is_ws(s.last()) {
        trim_end(s.drop_last())
    } else {
        s
    }
}

/// `s` without leading and trailing whitespace (`str::trim`).
pub open spec fn trim(s: Seq<char>) -> Seq<char> {
    trim_end(trim_start(s))
}

/// Whether `s` begins with `p`.
pub open spec fn starts_with(s: Seq<char>, p: Seq<char>) -> bool {
    p.len() <= s.len() && s.take(p.len() as int) == p
}

/// ASCII lowercase of one character (`char::to_ascii_lowercase`).
pub open spec fn lower_char(c: char) -> char {
    if 'A' <= c && c <= 'Z' {
        ((c as u32) + 32) as char
    } else {
        c
    }
}

/// ASCII lowercase of a string (`str::to_ascii_lowercase`).
pub open spec fn lower(s: Seq<char>) -> Seq<char> {
    s.map_values(|c: char| lower_char(c))
}

/// Executable ASCII lowercase of one character.
pub fn to_lower_char(c: char) -> (r: char)
    ensures
        r == lower_char(c),
{
    if 'A' <= c && c <= 'Z' {
        let b: u8 = c as u8;
        assert(b as u32 == c as u32);
        ((b + 32) as char)
    } else {
        c
    }
}

/// The text of an optional string.
pub open spec fn opt_view(o: Option<String>) -> Option<Seq<char>> {
    match o {
        Some(s) => Some(s@),
        None => None,
    }
}

/// The characters of `s`, in order.
pub fn chars_of(s: &str) -> (v: Vec<char>)
    ensures
        v@ == s@,
{
    let mut v: Vec<char> = Vec::new();
    for c in it: s.chars()
        invariant
            v@ == it.seq().take(it.index()),
            it.seq() == s@,
    {
        v.push(c);
    }
    v
}

/// Appends one character to a string (`String::push`).
#[verifier::external_body]
pub fn push_char(s: &mut String, c: char)
    ensures
        final(s)@ == old(s)@.push(c),
{
    s.push(c);
}

/// The string made of `v[lo..hi]`.
pub fn string_of(v: &Vec<char>, lo: usize, hi: usize) -> (s: String)
    requires
        lo <= hi <= v.len(),
    ensures
        s@ == v@.subrange(lo as int, hi as int),
{
    let mut s = String::new();
    let mut i = lo;
    while i < hi
        invariant
            lo <= i <= hi <= v.len(),
            s@ == v@.subrange(lo as int, i as int),
        decreases hi - i,
    {
        push_char(&mut s, v[i]);
        assert(v@.subrange(lo as int, i + 1) == v@.subrange(lo as int, i as int).push(v@[i as int]));
        i = i + 1;
    }
    s
}

/// The ASCII-lowercased string made of `v[lo..hi]`.
pub fn lower_string_of(v: &Vec<char>, lo: usize, hi: usize) -> (s: String)
    requires
        lo <= hi <= v.len(),
    ensures
        s@ == lower(v@.subrange(lo as int, hi as int)),
{
    let mut s = String::new();
    let mut i = lo;
    while i < hi
        invariant
            lo <= i <= hi <= v.len(),
            s@ == lower(v@.subrange(lo as int, i as int)),
        decreases hi - i,
    {
        push_char(&mut s, to_lower_char(v[i]));
        assert(lower(v@.subrange(lo as int, i + 1)) == lower(v@.subrange(lo as int, i as int)).push(
            lower_char(v@[i as int]),
        ));
        i = i + 1;
    }
    s
}

/// Dropping one leading whitespace character does not change `trim_start`.
proof fn lemma_trim_start_step(v: Seq<char>, a: int, hi: int)
    requires
        0 <= a < hi <= v.len(),
        is_ws(v[a]),
    ensures
        trim_start(v.subrange(a, hi)) == trim_start(v.subrange(a + 1, hi)),
{
    assert(v.subrange(a, hi).drop_first() == v.subrange(a + 1, hi));
}

/// Dropping one trailing whitespace character does not change `trim_end`.
proof fn lemma_trim_end_step(v: Seq<char>, lo: int, b: int)
    requires
        0 <= lo < b <= v.len(),
        is_ws(v[b - 1]),
    ensures
        trim_end(v.subrange(lo, b)) == trim_end(v.subrange(lo, b - 1)),
{
    assert(v.subrange(lo, b).drop_last() == v.subrange(lo, b - 1));
}

/// The first index in `lo..hi` that is not whitespace (or `hi`).
pub fn skip_ws(v: &Vec<char>, lo: usize, hi: usize) -> (a: usize)
    requires
        lo <= hi <= v.len(),
    ensures
        lo <= a <= hi,
        v@.subrange(a as int, hi as int) == trim_start(v@.subrange(lo as int, hi as int)),
{
    let mut a = lo;
    while a < hi && is_whitespace(v[a])
        invariant
            lo <= a <= hi <= v.len(),
            trim_start(v@.subrange(lo as int, hi as int)) == trim_start(
                v@.subrange(a as int, hi as int),
            ),
        decreases hi - a,
    {
        proof {
            lemma_trim_start_step(v@, a as int, hi as int);
        }
        a = a + 1;
    }
    a
}

/// The end of `v[lo..hi]` once trailing whitespace is dropped.
pub fn skip_ws_back(v: &Vec<char>, lo: usize, hi: usize) -> (b: usize)
    requires
        lo <= hi <= v.len(),
    ensures
        lo <= b <= hi,
        v@.subrange(lo as int, b as int) == trim_end(v@.subrange(lo as int, hi as int)),
{
    let mut b = hi;
    while b > lo && is_whitespace(v[b - 1])
        invariant
            lo <= b <= hi <= v.len(),
            trim_end(v@.subrange(lo as int, hi as int)) == trim_end(
                v@.subrange(lo as int, b as int),
            ),
        decreases b - lo,
    {
        proof {
            lemma_trim_end_step(v@, lo as int, b as int);
        }
        b = b - 1;
    }
    b
}

/// The bounds of `trim(v[lo..hi])` inside `v`.
pub fn trim_bounds(v: &Vec<char>, lo: usize, hi: usize) -> (r: (usize, usize))
    requires
        lo <= hi <= v.len(),
    ensures
        lo <= r.0 <= r.1 <= hi,
        v@.subrange(r.0 as int, r.1 as int) == trim(v@.subrange(lo as int, hi as int)),
{
    let a = skip_ws(v, lo, hi);
    let b = skip_ws_back(v, a, hi);
    (a, b)
}

/// The decimal digit for `d < 10`.
pub open spec fn digit_char(d: nat) -> char {
    ((d + 48) as u32) as char
}

/// Decimal rendering of a natural number, without leading zeros.
pub open spec fn decimal(n: nat) -> Seq<char>
    decreases n,
{
    if n < 10 {
        seq![digit_char(n)]
    } else {
        decimal(n / 10).push(digit_char(n % 10))
    }
}

/// Decimal rendering of `n` (`u64::to_string`).
pub fn decimal_string(n: u64) -> (s: String)
    ensures
        s@ == decimal(n as nat),
    decreases n,
{
    let d: u8 = (n % 10) as u8;
    let c: char = (d + 48) as char;
    assert(c == digit_char((n % 10) as nat));
    if n < 10 {
        let mut s = String::new();
        push_char(&mut s, c);
        s
    } else {
        let mut s = decimal_string(n / 10);
        push_char(&mut s, c);
        s
    }
}

} // verus!

verus! {

/// `s` cut at each `sep` (`str::split`).
pub open spec fn split_on(s: Seq<char>, sep: char) -> Seq<Seq<char>>
    decreases s.len(),
{
    if s.len() == 0 {
        seq![Seq::<char>::empty()]
    } else {
        let p = split_on(s.drop_last(), sep);
        if s.last() == sep {
            p.push(Seq::<char>::empty())
        } else {
            p.update(p.len() - 1, p.last().push(s.last()))
        }
    }
}

pub proof fn lemma_split_nonempty(s: Seq<char>, sep: char)
    ensures
        split_on(s, sep).len() >= 1,
    decreases s.len(),
{
    if s.len() > 0 {
        lemma_split_nonempty(s.drop_last(), sep);
    }
}

/// A text without `sep` is one piece.
pub proof fn lemma_split_single(x: Seq<char>, sep: char)
    requires
        forall|i: int| 0 <= i < x.len() ==> x[i] != sep,
    ensures
        split_on(x, sep) == seq![x],
    decreases x.len(),
{
    if x.len() > 0 {
        let y = x.drop_last();
        lemma_split_single(y, sep);
        assert(x.last() == x[x.len() - 1]);
        assert(y.push(x.last()) == x);
        assert(seq![y].update(0, y.push(x.last())) == seq![x]);
    } else {
        assert(x == Seq::<char>::empty());
    }
}

/// A piece without `sep`, then `sep`, then `rest`: that piece, then the pieces
/// of `rest`.
pub proof fn lemma_split_piece(x: Seq<char>, sep: char, rest: Seq<char>)
    requires
        forall|i: int| 0 <= i < x.len() ==> x[i] != sep,
    ensures
        split_on(x + seq![sep] + rest, sep) == seq![x] + split_on(rest, sep),
    decreases rest.len(),
{
    let s = x + seq![sep] + rest;
    if rest.len() == 0 {
        lemma_split_single(x, sep);
        assert(s.drop_last() == x);
        assert(s.last() == sep);
        assert(seq![x].push(Seq::<char>::empty()) == seq![x] + split_on(rest, sep));
    } else {
        let r = rest.drop_last();
        let c = rest.last();
        lemma_split_piece(x, sep, r);
        lemma_split_nonempty(r, sep);
        assert(s.drop_last() == x + seq![sep] + r);
        assert(s.last() == c);
        let q = split_on(r, sep);
        if c == sep {
            assert((seq![x] + q).push(Seq::<char>::empty()) == seq![x] + q.push(
                Seq::<char>::empty(),
            ));
        } else {
            let p = seq![x] + q;
            assert(p.update(p.len() - 1, p.last().push(c)) == seq![x] + q.update(
                q.len() - 1,
                q.last().push(c),
            ));
        }
    }
}

/// Every piece of a prefix but the last is a piece of the whole.
pub proof fn lemma_split_prefix(s: Seq<char>, sep: char, k: int)
    requires
        0 <= k <= s.len(),
    ensures
        split_on(s, sep).len() >= split_on(s.take(k), sep).len(),
        forall|j: int|
            0 <= j < split_on(s.take(k), sep).len() - 1 ==> split_on(s, sep)[j] == split_on(
                s.take(k),
                sep,
            )[j],
    decreases s.len() - k,
{
    if k < s.len() {
        assert(s.take(k + 1).drop_last() == s.take(k));
        lemma_split_nonempty(s.take(k), sep);
        lemma_split_prefix(s, sep, k + 1);
    } else {
        assert(s.take(k) == s);
    }
}

/// The lines `  - <item>`, joined by line feeds.
pub open spec fn bullet_list(items: Seq<Seq<char>>) -> Seq<char>
    decreases items.len(),
{
    if items.len() == 0 {
        Seq::empty()
    } else if items.len() == 1 {
        "  - "@ + items[0]
    } else {
        bullet_list(items.drop_last()) + "\n  - "@ + items.last()
    }
}

/// The strings as sequences of characters.
pub open spec fn texts(v: Seq<String>) -> Seq<Seq<char>> {
    v.map_values(|s: String| s@)
}

/// The lines `  - <item>` for each item, joined by line feeds.
pub fn bullet_lines(items: &Vec<String>) -> (s: String)
    ensures
        s@ == bullet_list(texts(items@)),
{
    let mut s = String::new();
    let mut i: usize = 0;
    while i < items.len()
        invariant
            i <= items.len(),
            s@ == bullet_list(texts(items@).take(i as int)),
        decreases items.len() - i,
    {
        let ghost t = texts(items@).take(i + 1);
        assert(t.drop_last() == texts(items@).take(i as int));
        assert(t.last() == items@[i as int]@);
        if i == 0 {
            s.append("  - ");
        } else {
            s.append("\n  - ");
        }
        s.append(items[i].as_str());
        i = i + 1;
    }
    assert(texts(items@).take(items.len() as int) == texts(items@));
    s
}

} // verus!

verus! {

/// `s` without trailing carriage returns and line feeds (`trim_end_matches(['\r', '\n'])`).
pub open spec fn strip_line_breaks(s: Seq<char>) -> Seq<char>
    decreases s.len(),
{
    if s.len() > 0 && (s.last() == '\r' || s.last() == '\n') {
        strip_line_breaks(s.drop_last())
    } else {
        s
    }
}

/// A line read from a terminal, without its line break.
pub fn without_line_breaks(s: &str) -> (r: String)
    ensures
        r@ == strip_line_breaks(s@),
{
    let v = chars_of(s);
    let mut b = v.len();
    assert(v@.take(b as int) == v@);
    while b > 0 && (v[b - 1] == '\r' || v[b - 1] == '\n')
        invariant
            b <= v.len(),
            strip_line_breaks(v@) == strip_line_breaks(v@.take(b as int)),
        decreases b,
    {
        assert(v@.take(b as int).drop_last() == v@.take(b - 1));
        b = b - 1;
    }
    assert(v@ == s@);
    assert(v@.take(v.len() as int) == v@);
    assert(v@.subrange(0, b as int) == v@.take(b as int));
    string_of(&v, 0, b)
}

/// `s` without leading and trailing whitespace (`str::trim`).
pub fn trimmed(s: &str) -> (r: String)
    ensures
        r@ == trim(s@),
{
    let v = chars_of(s);
    let (a, b) = trim_bounds(&v, 0, v.len());
    assert(v@.subrange(0, v@.len() as int) == s@);
    string_of(&v, a, b)
}

} // verus!
