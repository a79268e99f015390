//! Character-level helpers: decimal numbers, whitespace, splitting and trimming,
//! each stated over the `Seq<char>` view of the text.
use vstd::prelude::*;
use std::num::ParseIntError;

verus! {

broadcast use vstd::string::group_string_axioms;

#[verifier::external_type_specification]
#[verifier::external_body]
pub struct ExParseIntError(std::num::ParseIntError);

/// The characters of `s`, in order.
pub fn chars_of(s: &str) -> (v: Vec<char>)
    ensures
        v@ == s@,
{
    let mut v: Vec<char> = Vec::new();
    for c in it: s.chars()
        invariant
            v@ == it.seq().take(it.index()),
            it.seq() == s@,
    {
        v.push(c);
    }
    v
}

/// Collects characters into a `String` (std's `FromIterator<&char> for String`).
/// Trusted: the string holds exactly the given characters, in order.
#[verifier::external_body]
pub(crate) fn string_from_chars(chars: &[char]) -> (s: String)
    ensures
        s@ == chars@,
{
    chars.iter().collect()
}

/// Whether two character sequences are equal.
pub fn chars_eq(a: &[char], b: &[char]) -> (r: bool)
    ensures
        r == (a@ == b@),
{
    if a.len() != b.len() {
        return false;
    }
    let mut i: usize = 0;
    while i < a.len()
        invariant
            a@.len() == b@.len(),
            0 <= i <= a@.len(),
            forall|j: int| 0 <= j < i ==> a@[j] == b@[j],
        decreases a@.len() - i,
    {
        if a[i] != b[i] {
            return false;
        }
        i = i + 1;
    }
    assert(a@ =~= b@);
    true
}

/// Appends all of `src` to `dst`.
pub fn push_all(dst: &mut Vec<char>, src: &[char])
    ensures
        final(dst)@ == old(dst)@ + src@,
{
    let mut i: usize = 0;
    while i < src.len()
        invariant
            0 <= i <= src@.len(),
            dst@ == old(dst)@ + src@.take(i as int),
        decreases src@.len() - i,
    {
        dst.push(src[i]);
        i = i + 1;
        assert(src@.take(i as int) =~= src@.take(i - 1).push(src@[i - 1]));
    }
    assert(src@.take(src@.len() as int) =~= src@);
}

// ---------------------------------------------------------------------------
// Decimal numbers
// ---------------------------------------------------------------------------

pub open spec fn digit_char(d: nat) -> char {
    if d == 0 { '0' } else if d == 1 { '1' } else if d == 2 { '2' } else if d == 3 { '3' }
    else if d == 4 { '4' } else if d == 5 { '5' } else if d == 6 { '6' } else if d == 7 { '7' }
    else if d == 8 { '8' } else { '9' }
}

pub open spec fn is_ascii_digit(c: char) -> bool {
    '0' <= c && c <= '9'
}

pub open spec fn digit_value(c: char) -> int {
    c as int - '0' as int
}

/// The decimal digits of `v`, most significant first, without leading zeros.
pub open spec fn decimal_digits(v: nat) -> Seq<char>
    decreases v,
{
    if v < 10 {
        seq![digit_char(v)]
    } else {
        decimal_digits(v / 10).push(digit_char(v % 10))
    }
}

pub open spec fn all_digits(s: Seq<char>) -> bool {
    forall|i: int| 0 <= i < s.len() ==> is_ascii_digit(#[trigger] s[i])
}

/// The number written by a sequence of decimal digits.
pub open spec fn digits_value(s: Seq<char>) -> int
    decreases s.len(),
{
    if s.len() == 0 {
        0
    } else {
        digits_value(s.drop_last()) * 10 + digit_value(s.last())
    }
}

/// The value std's `from_str` gives an unsigned integer type whose maximum is `max`:
/// an optional `+` followed by at least one ASCII digit, and a value that fits.
pub open spec fn parse_unsigned(s: Seq<char>, max: nat) -> Option<nat> {
    let body = if s.len() > 0 && s[0] == '+' { s.drop_first() } else { s };
    if body.len() > 0 && all_digits(body) && digits_value(body) <= max {
        Some(digits_value(body) as nat)
    } else {
        None
    }
}

pub proof fn lemma_decimal_digits(v: nat)
    ensures
        decimal_digits(v).len() > 0,
        all_digits(decimal_digits(v)),
        digits_value(decimal_digits(v)) == v,
        decimal_digits(v)[0] != '+',
    decreases v,
{
    if v >= 10 {
        lemma_decimal_digits(v / 10);
        let s = decimal_digits(v);
        assert(s.drop_last() =~= decimal_digits(v / 10));
        assert(digit_value(digit_char(v % 10)) == v % 10);
        assert(s.last() == digit_char(v % 10));
        assert(digits_value(s) == digits_value(s.drop_last()) * 10 + digit_value(s.last()));
        assert(v == (v / 10) * 10 + v % 10);
        assert(digits_value(s.drop_last()) == v / 10);
    } else {
        let s = decimal_digits(v);
        assert(s.drop_last() =~= Seq::<char>::empty());
        assert(digits_value(Seq::<char>::empty()) == 0);
        assert(digit_value(digit_char(v)) == v);
        assert(digits_value(s) == digits_value(s.drop_last()) * 10 + digit_value(s.last()));
    }
}

pub proof fn lemma_parse_decimal(v: nat, max: nat)
    requires
        v <= max,
    ensures
        parse_unsigned(decimal_digits(v), max) == Some(v),
{
    lemma_decimal_digits(v);
}

/// Appends the decimal digits of `v` to `out`.
pub fn push_decimal(out: &mut Vec<char>, v: u64)
    ensures
        final(out)@ == old(out)@ + decimal_digits(v as nat),
    decreases v,
{
    if v >= 10 {
        push_decimal(out, v / 10);
    }
    let d: u64 = v % 10;
    assert(d < 10);
    let c: char = if d == 0 { '0' } else if d == 1 { '1' } else if d == 2 { '2' } else if d == 3 { '3' }
        else if d == 4 { '4' } else if d == 5 { '5' } else if d == 6 { '6' } else if d == 7 { '7' }
        else if d == 8 { '8' } else { '9' };
    assert(c == digit_char(d as nat));
    out.push(c);
    assert(decimal_digits(v as nat) == if v < 10 { seq![digit_char(v as nat)] } else { decimal_digits((v / 10) as nat).push(digit_char((v % 10) as nat)) });
}

// ---------------------------------------------------------------------------
// Padding, as `format!` pads to a width counted in characters
// ---------------------------------------------------------------------------

/// `c` repeated `n` times.
pub open spec fn repeat(c: char, n: nat) -> Seq<char> {
    Seq::new(n, |i: int| c)
}

/// `s` followed by spaces up to `width` characters (`{:<width}`).
pub open spec fn pad_right(s: Seq<char>, width: nat) -> Seq<char> {
    if s.len() >= width {
        s
    } else {
        s + repeat(' ', (width - s.len()) as nat)
    }
}

/// `s` preceded by zeros up to `width` characters.
pub open spec fn zero_pad(s: Seq<char>, width: nat) -> Seq<char> {
    if s.len() >= width {
        s
    } else {
        repeat('0', (width - s.len()) as nat) + s
    }
}

/// An integer written with at least `width` characters, zeros after the sign (`{:0width}`).
pub open spec fn signed_zero_padded(v: int, width: nat) -> Seq<char> {
    if v < 0 {
        seq!['-'] + zero_pad(decimal_digits((-v) as nat), if width >= 1 { (width - 1) as nat } else { 0 })
    } else {
        zero_pad(decimal_digits(v as nat), width)
    }
}

/// Appends `n` copies of `c`.
pub fn push_repeated(out: &mut Vec<char>, c: char, n: usize)
    ensures
        final(out)@ == old(out)@ + repeat(c, n as nat),
{
    let mut i: usize = 0;
    while i < n
        invariant
            0 <= i <= n,
            out@ == old(out)@ + repeat(c, i as nat),
        decreases n - i,
    {
        out.push(c);
        i = i + 1;
        assert(old(out)@ + repeat(c, i as nat) =~= old(out)@ + repeat(c, (i - 1) as nat) + seq![c]);
    }
}

/// Appends `s` followed by spaces up to `width` characters.
pub fn push_padded_right(out: &mut Vec<char>, s: &[char], width: usize)
    ensures
        final(out)@ == old(out)@ + pad_right(s@, width as nat),
{
    push_all(out, s);
    if s.len() < width {
        push_repeated(out, ' ', width - s.len());
        assert(old(out)@ + s@ + repeat(' ', (width - s@.len()) as nat) =~= old(out)@ + pad_right(s@, width as nat));
    }
}

/// Appends `s` preceded by zeros up to `width` characters.
pub fn push_zero_padded(out: &mut Vec<char>, s: &[char], width: usize)
    ensures
        final(out)@ == old(out)@ + zero_pad(s@, width as nat),
{
    if s.len() < width {
        push_repeated(out, '0', width - s.len());
    }
    push_all(out, s);
    assert(out@ =~= old(out)@ + zero_pad(s@, width as nat)) by {
        if s@.len() < width {
            assert(out@ =~= old(out)@ + repeat('0', (width - s@.len()) as nat) + s@);
        }
    }
}

/// The decimal digits of `v`.
pub fn decimal_chars(v: u64) -> (r: Vec<char>)
    ensures
        r@ == decimal_digits(v as nat),
{
    let mut r: Vec<char> = Vec::new();
    push_decimal(&mut r, v);
    assert(r@ =~= decimal_digits(v as nat));
    r
}

/// Appends `v` with at least `width` characters, zeros after the sign.
pub fn push_signed_zero_padded(out: &mut Vec<char>, v: i64, width: usize)
    requires
        v > i64::MIN,
    ensures
        final(out)@ == old(out)@ + signed_zero_padded(v as int, width as nat),
{
    if v < 0 {
        out.push('-');
        let digits = decimal_chars((-v) as u64);
        let w: usize = if width >= 1 { width - 1 } else { 0 };
        push_zero_padded(out, &digits, w);
        assert(out@ =~= old(out)@ + signed_zero_padded(v as int, width as nat));
    } else {
        let digits = decimal_chars(v as u64);
        push_zero_padded(out, &digits, width);
    }
}

/// Parses an unsigned 64-bit integer with std's `str::parse::<u64>`.
/// Trusted: `Ok` exactly when the text is an optional `+` and decimal digits whose
/// value fits in a `u64`, and then that value. Which `ParseIntError` comes back is not stated.
#[verifier::external_body]
pub(crate) fn parse_u64(s: &str) -> (r: Result<u64, ParseIntError>)
    ensures
        match r {
            Ok(v) => parse_unsigned(s@, u64::MAX as nat) == Some(v as nat),
            Err(_) => parse_unsigned(s@, u64::MAX as nat) is None,
        },
{
    s.parse::<u64>()
}

/// Parses a `usize` with std's `str::parse::<usize>`.
/// Trusted: `Ok` exactly when the text is an optional `+` and decimal digits whose
/// value fits in a `usize`, and then that value. Which `ParseIntError` comes back is not stated.
#[verifier::external_body]
pub(crate) fn parse_usize(s: &str) -> (r: Result<usize, ParseIntError>)
    ensures
        match r {
            Ok(v) => parse_unsigned(s@, usize::MAX as nat) == Some(v as nat),
            Err(_) => parse_unsigned(s@, usize::MAX as nat) is None,
        },
{
    s.parse::<usize>()
}

/// Parses the characters as a `u64`.
pub fn parse_u64_chars(s: &[char]) -> (r: Result<u64, ParseIntError>)
    ensures
        match r {
            Ok(v) => parse_unsigned(s@, u64::MAX as nat) == Some(v as nat),
            Err(_) => parse_unsigned(s@, u64::MAX as nat) is None,
        },
{
    let text = string_from_chars(s);
    parse_u64(text.as_str())
}

/// Parses the characters as a `usize`.
pub fn parse_usize_chars(s: &[char]) -> (r: Result<usize, ParseIntError>)
    ensures
        match r {
            Ok(v) => parse_unsigned(s@, usize::MAX as nat) == Some(v as nat),
            Err(_) => parse_unsigned(s@, usize::MAX as nat) is None,
        },
{
    let text = string_from_chars(s);
    parse_usize(text.as_str())
}

// ---------------------------------------------------------------------------
// Whitespace and trimming
// ---------------------------------------------------------------------------

/// The Unicode `White_Space` property (PropList.txt).
pub open spec fn is_white_space(c: char) -> bool {
    ||| ('\u{9}' <= c && c <= '\u{d}')
    ||| c == ' '
    ||| c == '\u{85}'
    ||| c == '\u{a0}'
    ||| c == '\u{1680}'
    ||| ('\u{2000}' <= c && c <= '\u{200a}')
    ||| c == '\u{2028}'
    ||| c == '\u{2029}'
    ||| c == '\u{202f}'
    ||| c == '\u{205f}'
    ||| c == '\u{3000}'
}

/// Whether `c` has the Unicode `White_Space` property (as std's `char::is_whitespace`).
pub fn char_is_whitespace(c: char) -> (r: bool)
    ensures
        r == is_white_space(c),
{
    ('\u{9}' <= c && c <= '\u{d}') || c == ' ' || c == '\u{85}' || c == '\u{a0}' || c == '\u{1680}'
        || ('\u{2000}' <= c && c <= '\u{200a}') || c == '\u{2028}' || c == '\u{2029}' || c == '\u{202f}'
        || c == '\u{205f}' || c == '\u{3000}'
}

pub open spec fn trim_start(s: Seq<char>) -> Seq<char>
    decreases s.len(),
{
    if s.len() > 0 && is_white_space(s[0]) {
        trim_start(s.drop_first())
    } else {
        s
    }
}

pub open spec fn trim_end(s: Seq<char>) -> Seq<char>
    decreases s.len(),
{
    if s.len() > 0 && is_white_space(s.last()) {
        trim_end(s.drop_last())
    } else {
        s
    }
}

/// `s` without leading and trailing whitespace.
pub open spec fn trim(s: Seq<char>) -> Seq<char> {
    trim_end(trim_start(s))
}

/// The characters of `s` without leading and trailing whitespace.
pub fn trim_chars(s: &[char]) -> (r: Vec<char>)
    ensures
        r@ == trim(s@),
{
    let mut start: usize = 0;
    assert(s@.skip(0) =~= s@);
    while start < s.len() && char_is_whitespace(s[start])
        invariant
            0 <= start <= s@.len(),
            trim_start(s@) == trim_start(s@.skip(start as int)),
        decreases s@.len() - start,
    {
        assert(s@.skip(start as int).drop_first() =~= s@.skip(start + 1));
        start = start + 1;
    }
    let mut end: usize = s.len();
    assert(trim_start(s@) == s@.subrange(start as int, end as int));
    while end > start && char_is_whitespace(s[end - 1])
        invariant
            start <= end <= s@.len(),
            trim(s@) == trim_end(s@.subrange(start as int, end as int)),
        decreases end,
    {
        assert(s@.subrange(start as int, end as int).drop_last() =~= s@.subrange(start as int, end - 1));
        end = end - 1;
    }
    let mut r: Vec<char> = Vec::new();
    let mut i: usize = start;
    while i < end
        invariant
            start <= i <= end <= s@.len(),
            r@ == s@.subrange(start as int, i as int),
        decreases end - i,
    {
        r.push(s[i]);
        i = i + 1;
        assert(r@ =~= s@.subrange(start as int, i as int));
    }
    r
}

// ---------------------------------------------------------------------------
// Splitting
// ---------------------------------------------------------------------------

/// The pieces of `s` between occurrences of `sep` (as std's `str::split` with a
/// one-character pattern): always at least one piece.
pub open spec fn split_on(s: Seq<char>, sep: char) -> Seq<Seq<char>>
    decreases s.len(),
{
    if s.len() == 0 {
        seq![Seq::<char>::empty()]
    } else {
        let prev = split_on(s.drop_last(), sep);
        if s.last() == sep {
            prev.push(Seq::<char>::empty())
        } else {
            prev.update(prev.len() - 1, prev.last().push(s.last()))
        }
    }
}

pub proof fn lemma_split_len(s: Seq<char>, sep: char)
    ensures
        split_on(s, sep).len() >= 1,
    decreases s.len(),
{
    if s.len() > 0 {
        lemma_split_len(s.drop_last(), sep);
    }
}

/// Splitting around one separator splits each side.
pub proof fn lemma_split_concat(x: Seq<char>, y: Seq<char>, sep: char)
    ensures
        split_on(x + seq![sep] + y, sep) == split_on(x, sep) + split_on(y, sep),
    decreases y.len(),
{
    lemma_split_len(x, sep);
    lemma_split_len(y, sep);
    if y.len() == 0 {
        assert((x + seq![sep] + y).drop_last() =~= x);
        assert(split_on(y, sep) =~= seq![Seq::<char>::empty()]);
        assert(split_on(x, sep).push(Seq::<char>::empty()) =~= split_on(x, sep) + split_on(y, sep));
    } else {
        lemma_split_concat(x, y.drop_last(), sep);
        lemma_split_len(y.drop_last(), sep);
        assert((x + seq![sep] + y).drop_last() =~= x + seq![sep] + y.drop_last());
        let a = split_on(x, sep);
        let b = split_on(y.drop_last(), sep);
        if y.last() == sep {
            assert((a + b).push(Seq::<char>::empty()) =~= a + b.push(Seq::<char>::empty()));
        } else {
            assert((a + b).update((a + b).len() - 1, (a + b).last().push(y.last())) =~= a + b.update(
                b.len() - 1,
                b.last().push(y.last()),
            ));
        }
    }
}

/// A text without the separator is a single piece.
pub proof fn lemma_split_none(s: Seq<char>, sep: char)
    requires
        !s.contains(sep),
    ensures
        split_on(s, sep) == seq![s],
    decreases s.len(),
{
    if s.len() > 0 {
        assert(!s.drop_last().contains(sep)) by {
            if s.drop_last().contains(sep) {
                let k = choose|k: int| 0 <= k < s.drop_last().len() && s.drop_last()[k] == sep;
                assert(s[k] == sep);
            }
        }
        lemma_split_none(s.drop_last(), sep);
        assert(s.last() != sep) by {
            assert(s[s.len() - 1] == s.last());
        }
        assert(s.drop_last().push(s.last()) =~= s);
        assert(seq![s.drop_last()].update(0, s.drop_last().push(s.last())) =~= seq![s]);
    } else {
        assert(s =~= Seq::<char>::empty());
    }
}

/// The pieces of `s` between occurrences of `sep`.
pub fn split_chars(s: &[char], sep: char) -> (r: Vec<Vec<char>>)
    ensures
        r@.len() == split_on(s@, sep).len(),
        forall|i: int| 0 <= i < r@.len() ==> #[trigger] r@[i]@ == split_on(s@, sep)[i],
{
    let mut r: Vec<Vec<char>> = Vec::new();
    let mut cur: Vec<char> = Vec::new();
    let mut i: usize = 0;
    while i < s.len()
        invariant
            0 <= i <= s@.len(),
            r@.len() + 1 == split_on(s@.take(i as int), sep).len(),
            forall|k: int| 0 <= k < r@.len() ==> #[trigger] r@[k]@ == split_on(s@.take(i as int), sep)[k],
            cur@ == split_on(s@.take(i as int), sep).last(),
        decreases s@.len() - i,
    {
        assert(s@.take(i + 1).drop_last() =~= s@.take(i as int));
        assert(s@.take(i + 1).last() == s@[i as int]);
        proof {
            lemma_split_len(s@.take(i as int), sep);
        }
        if s[i] == sep {
            let done = cur;
            r.push(done);
            cur = Vec::new();
        } else {
            cur.push(s[i]);
        }
        i = i + 1;
    }
    assert(s@.take(s@.len() as int) =~= s@);
    r.push(cur);
    r
}

/// Index of the last occurrence of `c` in `s`, or `-1`.
pub open spec fn last_index_of(s: Seq<char>, c: char) -> int
    decreases s.len(),
{
    if s.len() == 0 {
        -1
    } else if s.last() == c {
        s.len() - 1
    } else {
        last_index_of(s.drop_last(), c)
    }
}

/// std's `rsplit_once` with a one-character pattern: the text before and after the last
/// occurrence of `c`.
pub open spec fn rsplit_once(s: Seq<char>, c: char) -> Option<(Seq<char>, Seq<char>)> {
    let i = last_index_of(s, c);
    if i < 0 {
        None
    } else {
        Some((s.take(i), s.skip(i + 1)))
    }
}

pub proof fn lemma_last_index_of(s: Seq<char>, c: char)
    ensures
        -1 <= last_index_of(s, c) < s.len(),
        last_index_of(s, c) >= 0 ==> s[last_index_of(s, c)] == c,
        forall|j: int| last_index_of(s, c) < j < s.len() ==> s[j] != c,
    decreases s.len(),
{
    if s.len() > 0 {
        lemma_last_index_of(s.drop_last(), c);
        if s.last() != c {
            assert forall|j: int| last_index_of(s, c) < j < s.len() implies s[j] != c by {
                if j < s.len() - 1 {
                    assert(s.drop_last()[j] == s[j]);
                }
            }
        }
    }
}

/// The last occurrence of `c` after a text without `c` is the one just before it.
pub proof fn lemma_last_index_after(x: Seq<char>, y: Seq<char>, c: char)
    requires
        !y.contains(c),
    ensures
        last_index_of(x + seq![c] + y, c) == x.len(),
    decreases y.len(),
{
    if y.len() == 0 {
        assert((x + seq![c] + y).last() == c);
    } else {
        assert(!y.drop_last().contains(c)) by {
            if y.drop_last().contains(c) {
                let k = choose|k: int| 0 <= k < y.drop_last().len() && y.drop_last()[k] == c;
                assert(y[k] == c);
            }
        }
        lemma_last_index_after(x, y.drop_last(), c);
        assert((x + seq![c] + y).drop_last() =~= x + seq![c] + y.drop_last());
        assert((x + seq![c] + y).last() == y.last());
        assert(y.last() != c) by {
            assert(y[y.len() - 1] == y.last());
        }
    }
}

/// The last occurrence of `c` in `s`, if any.
pub fn find_last(s: &[char], c: char) -> (r: Option<usize>)
    ensures
        match r {
            Some(i) => last_index_of(s@, c) == i as int,
            None => last_index_of(s@, c) == -1,
        },
{
    let mut i: usize = s.len();
    assert(s@.take(s@.len() as int) =~= s@);
    while i > 0
        invariant
            0 <= i <= s@.len(),
            last_index_of(s@, c) == last_index_of(s@.take(i as int), c),
        decreases i,
    {
        assert(s@.take(i as int).drop_last() =~= s@.take(i - 1));
        assert(s@.take(i as int).last() == s@[i - 1]);
        if s[i - 1] == c {
            return Some(i - 1);
        }
        i = i - 1;
    }
    None
}

/// The characters from `from` up to `to`.
pub fn slice_chars(s: &[char], from: usize, to: usize) -> (r: Vec<char>)
    requires
        from <= to <= s@.len(),
    ensures
        r@ == s@.subrange(from as int, to as int),
{
    let mut r: Vec<char> = Vec::new();
    let mut i: usize = from;
    while i < to
        invariant
            from <= i <= to <= s@.len(),
            r@ == s@.subrange(from as int, i as int),
        decreases to - i,
    {
        r.push(s[i]);
        i = i + 1;
        assert(r@ =~= s@.subrange(from as int, i as int));
    }
    r
}

} // verus!
