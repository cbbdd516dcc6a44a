//! Character-sequence helpers shared by the text protocols: conversion
//! between strings and character vectors, searching, splitting, trimming,
//! decimal and hex rendering, and Unicode whitespace.

use vstd::prelude::*;

verus! {

broadcast use vstd::string::group_string_axioms;

/// The characters of a string slice.
pub fn chars_of(s: &str) -> (v: Vec<char>)
    ensures
        v@ == s@,
{
    let mut v: Vec<char> = Vec::new();
    for c in it: s.chars()
        invariant
            v@ == it.seq().take(it.index()),
    {
        v.push(c);
    }
    v
}

/// A string holding exactly the given characters.
///
/// Trusted: `String::from_iter` over the characters; the contract claims the
/// string's characters are the vector's, in order, as its documentation states.
#[verifier::external_body]
pub(crate) fn string_of(v: &[char]) -> (s: String)
    ensures
        s@ == v@,
{
    String::from_iter(v.iter())
}

/// Append the characters of `s` to `v`.
pub fn push_str(v: &mut Vec<char>, s: &str)
    ensures
        final(v)@ == old(v)@ + s@,
{
    let mut c = chars_of(s);
    v.append(&mut c);
}

/// Append the characters of `src` to `v`.
pub fn push_chars(v: &mut Vec<char>, src: &[char])
    ensures
        final(v)@ == old(v)@ + src@,
{
    let ghost start = v@;
    let mut i: usize = 0;
    while i < src.len()
        invariant
            i <= src@.len(),
            v@ == start + src@.take(i as int),
        decreases src@.len() - i,
    {
        v.push(src[i]);
        i = i + 1;
        assert(v@ =~= start + src@.take(i as int));
    }
    assert(src@.take(src@.len() as int) =~= src@);
}

/// Copy of `src[from..to]`.
pub fn slice_chars(src: &[char], from: usize, to: usize) -> (out: Vec<char>)
    requires
        from <= to <= src@.len(),
    ensures
        out@ == src@.subrange(from as int, to as int),
{
    let mut out: Vec<char> = Vec::new();
    let mut i = from;
    while i < to
        invariant
            from <= i <= to <= src@.len(),
            out@ == src@.subrange(from as int, i as int),
        decreases to - i,
    {
        out.push(src[i]);
        i = i + 1;
        assert(out@ =~= src@.subrange(from as int, i as int));
    }
    out
}

/// Copy of `src[from..to]` for bytes.
pub fn slice_bytes(src: &[u8], from: usize, to: usize) -> (out: Vec<u8>)
    requires
        from <= to <= src@.len(),
    ensures
        out@ == src@.subrange(from as int, to as int),
{
    let mut out: Vec<u8> = Vec::new();
    let mut i = from;
    while i < to
        invariant
            from <= i <= to <= src@.len(),
            out@ == src@.subrange(from as int, i as int),
        decreases to - i,
    {
        out.push(src[i]);
        i = i + 1;
        assert(out@ =~= src@.subrange(from as int, i as int));
    }
    out
}

// ---------------------------------------------------------------------------
// Decimal and hex rendering
// ---------------------------------------------------------------------------

/// The ASCII digit for a value below 10.
pub open spec fn digit_char(d: int) -> char {
    if d == 0 { '0' }
    else if d == 1 { '1' }
    else if d == 2 { '2' }
    else if d == 3 { '3' }
    else if d == 4 { '4' }
    else if d == 5 { '5' }
    else if d == 6 { '6' }
    else if d == 7 { '7' }
    else if d == 8 { '8' }
    else { '9' }
}

/// Value of an ASCII decimal digit character.
pub open spec fn digit_value(c: char) -> int {
    c as int - '0' as int
}

pub open spec fn is_digit(c: char) -> bool {
    '0' <= c && c <= '9'
}

/// Decimal rendering of a natural number, without leading zeros.
pub open spec fn decimal(n: nat) -> Seq<char>
    decreases n,
{
    if n < 10 {
        seq![digit_char(n as int)]
    } else {
        decimal(n / 10).push(digit_char((n % 10) as int))
    }
}

proof fn lemma_digit_char(k: int)
    requires
        0 <= k < 10,
    ensures
        is_digit(digit_char(k)),
        digit_value(digit_char(k)) == k,
{
}

/// A decimal rendering is a nonempty string of digits whose value is the
/// number rendered.
pub proof fn lemma_decimal_digits(n: nat)
    ensures
        decimal(n).len() > 0,
        all_digits(decimal(n)),
        digits_value(decimal(n)) == n,
    decreases n,
{
    lemma_digit_char((n % 10) as int);
    if n >= 10 {
        lemma_decimal_digits(n / 10);
        let d = decimal(n);
        assert(digits_value(d) == digits_value(d.drop_last()) * 10 + digit_value(d.last()));
        assert(d.drop_last() =~= decimal(n / 10));
        assert forall|i: int| 0 <= i < d.len() implies is_digit(#[trigger] d[i]) by {
            if i < d.len() - 1 {
                assert(d[i] == decimal(n / 10)[i]);
            }
        }
        assert((n / 10) * 10 + n % 10 == n) by (nonlinear_arith);
        assert(d.last() == digit_char((n % 10) as int));
        assert(digits_value(d.drop_last()) == n / 10);
        assert(digit_value(d.last()) == n % 10);
    } else {
        let d = decimal(n);
        assert(d.drop_last() =~= Seq::<char>::empty());
        assert(n % 10 == n);
        assert(d.last() == digit_char(n as int));
        assert(digits_value(d) == digits_value(d.drop_last()) * 10 + digit_value(d.last()));
        assert(digits_value(Seq::<char>::empty()) == 0);
    }
}

fn digit_of(d: u64) -> (c: char)
    requires
        d < 10,
    ensures
        c == digit_char(d as int),
{
    if d == 0 { '0' }
    else if d == 1 { '1' }
    else if d == 2 { '2' }
    else if d == 3 { '3' }
    else if d == 4 { '4' }
    else if d == 5 { '5' }
    else if d == 6 { '6' }
    else if d == 7 { '7' }
    else if d == 8 { '8' }
    else { '9' }
}

/// Append the decimal rendering of `n` to `v`.
pub fn push_decimal(v: &mut Vec<char>, n: u64)
    ensures
        final(v)@ == old(v)@ + decimal(n as nat),
    decreases n,
{
    if n >= 10 {
        push_decimal(v, n / 10);
    }
    let c = digit_of(n % 10);
    v.push(c);
    proof {
        if n >= 10 {
            assert(old(v)@ + decimal((n / 10) as nat) + seq![c] =~= old(v)@ + decimal(n as nat));
        } else {
            assert(old(v)@ + seq![c] =~= old(v)@ + decimal(n as nat));
        }
    }
}

/// Lowercase hex digit.
pub open spec fn hex_lower_char(d: int) -> char {
    if d < 10 { digit_char(d) }
    else if d == 10 { 'a' }
    else if d == 11 { 'b' }
    else if d == 12 { 'c' }
    else if d == 13 { 'd' }
    else if d == 14 { 'e' }
    else { 'f' }
}

/// Uppercase hex digit.
pub open spec fn hex_upper_char(d: int) -> char {
    if d < 10 { digit_char(d) }
    else if d == 10 { 'A' }
    else if d == 11 { 'B' }
    else if d == 12 { 'C' }
    else if d == 13 { 'D' }
    else if d == 14 { 'E' }
    else { 'F' }
}

/// The texts of a list of strings.
pub open spec fn strings_view(v: Seq<String>) -> Seq<Seq<char>> {
    v.map_values(|s: String| s@)
}

/// The contents of a list of byte buffers.
pub open spec fn bytes_view(v: Seq<Vec<u8>>) -> Seq<Seq<u8>> {
    v.map_values(|f: Vec<u8>| f@)
}

/// Two-digit lowercase hex rendering of every byte, in order.
pub open spec fn hex_lower(bytes: Seq<u8>) -> Seq<char>
    decreases bytes.len(),
{
    if bytes.len() == 0 {
        Seq::empty()
    } else {
        hex_lower(bytes.drop_last()) + seq![
            hex_lower_char(bytes.last() as int / 16),
            hex_lower_char(bytes.last() as int % 16),
        ]
    }
}

pub fn hex_lower_digit(d: u8) -> (c: char)
    requires
        d < 16,
    ensures
        c == hex_lower_char(d as int),
{
    if d < 10 { digit_of(d as u64) }
    else if d == 10 { 'a' }
    else if d == 11 { 'b' }
    else if d == 12 { 'c' }
    else if d == 13 { 'd' }
    else if d == 14 { 'e' }
    else { 'f' }
}

pub fn hex_upper_digit(d: u8) -> (c: char)
    requires
        d < 16,
    ensures
        c == hex_upper_char(d as int),
{
    if d < 10 { digit_of(d as u64) }
    else if d == 10 { 'A' }
    else if d == 11 { 'B' }
    else if d == 12 { 'C' }
    else if d == 13 { 'D' }
    else if d == 14 { 'E' }
    else { 'F' }
}

/// Lowercase hex rendering of a byte string.
pub fn to_hex_lower(bytes: &[u8]) -> (out: Vec<char>)
    ensures
        out@ == hex_lower(bytes@),
{
    let mut out: Vec<char> = Vec::new();
    let mut i: usize = 0;
    while i < bytes.len()
        invariant
            i <= bytes@.len(),
            out@ == hex_lower(bytes@.take(i as int)),
        decreases bytes@.len() - i,
    {
        let b = bytes[i];
        out.push(hex_lower_digit(b / 16));
        out.push(hex_lower_digit(b % 16));
        i = i + 1;
        assert(bytes@.take(i as int).drop_last() =~= bytes@.take(i - 1));
    }
    assert(bytes@.take(bytes@.len() as int) =~= bytes@);
    out
}

// ---------------------------------------------------------------------------
// Searching
// ---------------------------------------------------------------------------

/// `needle` occurs in `hay` at position `i`.
pub open spec fn matches_at<T>(hay: Seq<T>, needle: Seq<T>, i: int) -> bool {
    0 <= i && i + needle.len() <= hay.len() && hay.subrange(i, i + needle.len()) == needle
}

/// First position at or after `i` where `needle` occurs in `hay`.
pub open spec fn find_from<T>(hay: Seq<T>, needle: Seq<T>, i: int) -> Option<int>
    decreases hay.len() + 1 - i,
{
    if i < 0 || i + needle.len() > hay.len() {
        None
    } else if matches_at(hay, needle, i) {
        Some(i)
    } else {
        find_from(hay, needle, i + 1)
    }
}

/// First position where `needle` occurs in `hay` (as `str::find` reports it).
pub open spec fn find<T>(hay: Seq<T>, needle: Seq<T>) -> Option<int> {
    find_from(hay, needle, 0)
}

pub open spec fn contains_seq<T>(hay: Seq<T>, needle: Seq<T>) -> bool {
    find(hay, needle) is Some
}

/// A found position is a real match inside the haystack, at or after the
/// starting point.
pub proof fn lemma_find_from_found<T>(hay: Seq<T>, needle: Seq<T>, i: int)
    ensures
        find_from(hay, needle, i) matches Some(k) ==> i <= k && matches_at(hay, needle, k),
    decreases hay.len() + 1 - i,
{
    if !(i < 0 || i + needle.len() > hay.len()) && !matches_at(hay, needle, i) {
        lemma_find_from_found(hay, needle, i + 1);
    }
}

fn chars_match_at(hay: &[char], needle: &[char], i: usize) -> (b: bool)
    requires
        i + needle@.len() <= hay@.len(),
    ensures
        b == matches_at(hay@, needle@, i as int),
{
    let n = hay.len();
    let mut j: usize = 0;
    while j < needle.len()
        invariant
            j <= needle@.len(),
            n == hay@.len(),
            i + needle@.len() <= n,
            forall|k: int| 0 <= k < j ==> hay@[i + k] == needle@[k],
        decreases needle@.len() - j,
    {
        if hay[i + j] != needle[j] {
            assert(hay@.subrange(i as int, i + needle@.len())[j as int] != needle@[j as int]);
            return false;
        }
        j = j + 1;
    }
    assert(hay@.subrange(i as int, i + needle@.len()) =~= needle@);
    true
}

/// First position at or after `from` where `needle` occurs in `hay`.
pub fn find_chars(hay: &[char], needle: &[char], from: usize) -> (res: Option<usize>)
    ensures
        match find_from(hay@, needle@, from as int) {
            Some(k) => res matches Some(i) && i == k,
            None => res is None,
        },
{
    if needle.len() > hay.len() || from > hay.len() - needle.len() {
        return None;
    }
    let last = hay.len() - needle.len();
    let mut i = from;
    while i <= last
        invariant
            from <= i,
            last + needle@.len() == hay@.len(),
            find_from(hay@, needle@, from as int) == find_from(hay@, needle@, i as int),
        decreases last + 1 - i,
    {
        if chars_match_at(hay, needle, i) {
            return Some(i);
        }
        if i == last {
            assert(find_from(hay@, needle@, i + 1) is None);
            return None;
        }
        i = i + 1;
    }
    None
}

fn bytes_match_at(hay: &[u8], needle: &[u8], i: usize) -> (b: bool)
    requires
        i + needle@.len() <= hay@.len(),
    ensures
        b == matches_at(hay@, needle@, i as int),
{
    let n = hay.len();
    let mut j: usize = 0;
    while j < needle.len()
        invariant
            j <= needle@.len(),
            n == hay@.len(),
            i + needle@.len() <= n,
            forall|k: int| 0 <= k < j ==> hay@[i + k] == needle@[k],
        decreases needle@.len() - j,
    {
        if hay[i + j] != needle[j] {
            assert(hay@.subrange(i as int, i + needle@.len())[j as int] != needle@[j as int]);
            return false;
        }
        j = j + 1;
    }
    assert(hay@.subrange(i as int, i + needle@.len()) =~= needle@);
    true
}

/// First position at or after `from` where `needle` occurs in `hay`.
pub fn find_bytes(hay: &[u8], needle: &[u8], from: usize) -> (res: Option<usize>)
    ensures
        match find_from(hay@, needle@, from as int) {
            Some(k) => res matches Some(i) && i == k,
            None => res is None,
        },
{
    if needle.len() > hay.len() || from > hay.len() - needle.len() {
        return None;
    }
    let last = hay.len() - needle.len();
    let mut i = from;
    while i <= last
        invariant
            from <= i,
            last + needle@.len() == hay@.len(),
            find_from(hay@, needle@, from as int) == find_from(hay@, needle@, i as int),
        decreases last + 1 - i,
    {
        if bytes_match_at(hay, needle, i) {
            return Some(i);
        }
        if i == last {
            assert(find_from(hay@, needle@, i + 1) is None);
            return None;
        }
        i = i + 1;
    }
    None
}

// ---------------------------------------------------------------------------
// Whitespace and trimming
// ---------------------------------------------------------------------------

/// Unicode `White_Space` characters, as `char::is_whitespace` tests them.
pub open spec fn is_whitespace(c: char) -> bool {
    ||| ('\u{9}' <= c && c <= '\u{d}')
    ||| c == ' '
    ||| c == '\u{85}'
    ||| c == '\u{a0}'
    ||| c == '\u{1680}'
    ||| ('\u{2000}' <= c && c <= '\u{200a}')
    ||| c == '\u{2028}'
    ||| c == '\u{2029}'
    ||| c == '\u{202f}'
    ||| c == '\u{205f}'
    ||| c == '\u{3000}'
}

pub fn is_whitespace_char(c: char) -> (b: bool)
    ensures
        b == is_whitespace(c),
{
    ('\u{9}' <= c && c <= '\u{d}')
        || c == ' '
        || c == '\u{85}'
        || c == '\u{a0}'
        || c == '\u{1680}'
        || ('\u{2000}' <= c && c <= '\u{200a}')
        || c == '\u{2028}'
        || c == '\u{2029}'
        || c == '\u{202f}'
        || c == '\u{205f}'
        || c == '\u{3000}'
}

/// Number of leading whitespace characters.
pub open spec fn leading_ws(s: Seq<char>) -> int
    decreases s.len(),
{
    if s.len() > 0 && is_whitespace(s[0]) {
        1 + leading_ws(s.skip(1))
    } else {
        0
    }
}

/// Number of trailing whitespace characters.
pub open spec fn trailing_ws(s: Seq<char>) -> int
    decreases s.len(),
{
    if s.len() > 0 && is_whitespace(s.last()) {
        1 + trailing_ws(s.drop_last())
    } else {
        0
    }
}

proof fn lemma_leading_ws_bounds(s: Seq<char>)
    ensures
        0 <= leading_ws(s) <= s.len(),
    decreases s.len(),
{
    if s.len() > 0 && is_whitespace(s[0]) {
        lemma_leading_ws_bounds(s.skip(1));
    }
}

proof fn lemma_trailing_ws_bounds(s: Seq<char>)
    ensures
        0 <= trailing_ws(s) <= s.len(),
    decreases s.len(),
{
    if s.len() > 0 && is_whitespace(s.last()) {
        lemma_trailing_ws_bounds(s.drop_last());
    }
}

/// `str::trim_start`.
pub open spec fn trim_start(s: Seq<char>) -> Seq<char> {
    s.skip(leading_ws(s))
}

/// `str::trim_end`.
pub open spec fn trim_end(s: Seq<char>) -> Seq<char> {
    s.take(s.len() - trailing_ws(s))
}

/// `str::trim`: both ends.
pub open spec fn trim(s: Seq<char>) -> Seq<char> {
    trim_end(trim_start(s))
}

/// `s.trim()` as a copy.
pub fn trim_chars(s: &[char]) -> (out: Vec<char>)
    ensures
        out@ == trim(s@),
{
    let mut start: usize = 0;
    proof { lemma_leading_ws_bounds(s@); }
    assert(s@.skip(0) =~= s@);
    while start < s.len() && is_whitespace_char(s[start])
        invariant
            start <= s@.len(),
            leading_ws(s@) == start + leading_ws(s@.skip(start as int)),
        decreases s@.len() - start,
    {
        assert(s@.skip(start as int).skip(1) =~= s@.skip(start + 1));
        start = start + 1;
    }
    let ghost t = s@.skip(start as int);
    assert(leading_ws(t) == 0);
    let mut end: usize = s.len();
    proof { lemma_trailing_ws_bounds(t); }
    while end > start && is_whitespace_char(s[end - 1])
        invariant
            start <= end <= s@.len(),
            t == s@.skip(start as int),
            trailing_ws(t) == (s@.len() - end) + trailing_ws(s@.subrange(start as int, end as int)),
        decreases end,
    {
        assert(s@.subrange(start as int, end as int).drop_last() =~= s@.subrange(start as int, end - 1));
        end = end - 1;
    }
    assert(trailing_ws(s@.subrange(start as int, end as int)) == 0);
    assert(t.take(t.len() - trailing_ws(t)) =~= s@.subrange(start as int, end as int));
    proof {
        assert(s@.subrange(start as int, s@.len() as int) =~= t);
    }
    slice_chars(s, start, end)
}

// ---------------------------------------------------------------------------
// Outside-computed text transformations
// ---------------------------------------------------------------------------

/// What `str::to_lowercase` returns for a character sequence (full Unicode
/// case mapping).
pub uninterp spec fn spec_to_lowercase(s: Seq<char>) -> Seq<char>;

/// The ASCII lowercase of an ASCII character (other characters unchanged).
pub open spec fn ascii_lower(c: char) -> char {
    if 'A' <= c && c <= 'Z' { ((c as u32) + 32) as char } else { c }
}

/// Every character is ASCII.
pub open spec fn all_ascii(s: Seq<char>) -> bool {
    forall|i: int| 0 <= i < s.len() ==> (#[trigger] s[i] as u32) < 128
}

/// Trusted: `str::to_lowercase`. The result is claimed to be the named
/// function of the input characters; for an all-ASCII input it is the
/// input with `A`..`Z` mapped to `a`..`z` (the Unicode lowercase mapping of
/// ASCII), position by position. Nothing more is claimed of other input.
#[verifier::external_body]
pub(crate) fn to_lowercase(s: &[char]) -> (out: Vec<char>)
    ensures
        out@ == spec_to_lowercase(s@),
        all_ascii(s@) ==> out@ == s@.map_values(|c: char| ascii_lower(c)),
{
    let t: String = s.iter().collect();
    t.to_lowercase().chars().collect()
}

/// What `String::from_utf8_lossy` returns for a byte sequence (invalid
/// sequences replaced by U+FFFD).
pub uninterp spec fn spec_utf8_lossy(b: Seq<u8>) -> Seq<char>;

/// Trusted: `String::from_utf8_lossy`; the result is claimed to be the named
/// function of the input bytes and nothing more.
#[verifier::external_body]
pub(crate) fn utf8_lossy(b: &[u8]) -> (out: Vec<char>)
    ensures
        out@ == spec_utf8_lossy(b@),
{
    String::from_utf8_lossy(b).chars().collect()
}


// ---------------------------------------------------------------------------
// Prefixes, suffixes, pieces and lines
// ---------------------------------------------------------------------------

pub open spec fn starts_with<T>(s: Seq<T>, prefix: Seq<T>) -> bool {
    s.len() >= prefix.len() && s.take(prefix.len() as int) == prefix
}

pub open spec fn ends_with<T>(s: Seq<T>, suffix: Seq<T>) -> bool {
    s.len() >= suffix.len() && s.skip(s.len() - suffix.len()) == suffix
}

pub fn chars_start_with(s: &[char], prefix: &[char]) -> (b: bool)
    ensures
        b == starts_with(s@, prefix@),
{
    if s.len() < prefix.len() {
        return false;
    }
    let r = chars_match_at(s, prefix, 0);
    assert(s@.subrange(0, prefix@.len() as int) =~= s@.take(prefix@.len() as int));
    r
}

pub fn bytes_end_with(s: &[u8], suffix: &[u8]) -> (b: bool)
    ensures
        b == ends_with(s@, suffix@),
{
    if s.len() < suffix.len() {
        return false;
    }
    let r = bytes_match_at(s, suffix, s.len() - suffix.len());
    assert(s@.subrange(s@.len() - suffix@.len(), s@.len() as int) =~= s@.skip(s@.len() - suffix@.len()));
    r
}

/// The first piece of `s` split at `sep` (everything before its first occurrence).
pub open spec fn before_first(s: Seq<char>, sep: char) -> Seq<char> {
    match find(s, seq![sep]) {
        Some(i) => s.take(i),
        None => s,
    }
}

pub fn before_first_chars(s: &[char], sep: char) -> (out: Vec<char>)
    ensures
        out@ == before_first(s@, sep),
{
    let mut needle: Vec<char> = Vec::new();
    needle.push(sep);
    assert(needle@ =~= seq![sep]);
    proof { lemma_find_from_found(s@, seq![sep], 0); }
    match find_chars(s, needle.as_slice(), 0) {
        Some(i) => {
            assert(s@.subrange(0, i as int) =~= s@.take(i as int));
            slice_chars(s, 0, i)
        },
        None => {
            assert(s@.subrange(0, s@.len() as int) =~= s@);
            slice_chars(s, 0, s.len())
        },
    }
}

/// The first `n` characters of `s` (all of them when shorter), as a `{:.n}`
/// format precision cuts a string.
pub open spec fn take_at_most(s: Seq<char>, n: int) -> Seq<char> {
    if s.len() <= n { s } else { s.take(n) }
}

pub fn take_at_most_chars(s: &[char], n: usize) -> (out: Vec<char>)
    ensures
        out@ == take_at_most(s@, n as int),
{
    if s.len() <= n {
        slice_chars(s, 0, s.len())
    } else {
        slice_chars(s, 0, n)
    }
}

/// A line with the `\r` of a `\r\n` ending removed.
pub open spec fn strip_cr(l: Seq<char>) -> Seq<char> {
    if l.len() > 0 && l.last() == '\r' { l.drop_last() } else { l }
}

/// `str::lines`: pieces ended by `\n` (with one `\r` before it dropped); a
/// final line without `\n` is kept as it is; no empty line after a final `\n`.
pub open spec fn spec_lines(s: Seq<char>) -> Seq<Seq<char>>
    decreases s.len(),
{
    if s.len() == 0 {
        Seq::empty()
    } else {
        match find(s, seq!['\n']) {
            Some(i) => {
                if 0 <= i < s.len() {
                    seq![strip_cr(s.take(i))] + spec_lines(s.skip(i + 1))
                } else {
                    Seq::empty()
                }
            },
            None => seq![s],
        }
    }
}

/// Searching a suffix is searching the whole sequence from the suffix's start.
pub proof fn lemma_find_skip<T>(s: Seq<T>, n: Seq<T>, p: int, i: int)
    requires
        0 <= p <= s.len(),
        0 <= i,
    ensures
        match find_from(s, n, p + i) {
            Some(k) => find_from(s.skip(p), n, i) == Some(k - p),
            None => find_from(s.skip(p), n, i) is None,
        },
    decreases s.len() + 1 - (p + i),
{
    let t = s.skip(p);
    if i + n.len() <= t.len() {
        assert(t.subrange(i, i + n.len()) =~= s.subrange(p + i, p + i + n.len()));
        if !matches_at(s, n, p + i) {
            lemma_find_skip(s, n, p, i + 1);
        }
    }
}

pub open spec fn lines_view(v: Seq<Vec<char>>) -> Seq<Seq<char>> {
    v.map_values(|l: Vec<char>| l@)
}

/// Split `s` into its lines (see `spec_lines`).
pub fn split_lines(s: &[char]) -> (lines: Vec<Vec<char>>)
    ensures
        lines_view(lines@) == spec_lines(s@),
{
    let mut lines: Vec<Vec<char>> = Vec::new();
    let mut nl: Vec<char> = Vec::new();
    nl.push('\n');
    assert(nl@ =~= seq!['\n']);
    let mut pos: usize = 0;
    assert(s@.skip(0) =~= s@);
    assert(lines_view(lines@) + spec_lines(s@) =~= spec_lines(s@));
    while pos < s.len()
        invariant
            pos <= s@.len(),
            nl@ == seq!['\n'],
            spec_lines(s@) == lines_view(lines@) + spec_lines(s@.skip(pos as int)),
        decreases s@.len() - pos,
    {
        let ghost rest = s@.skip(pos as int);
        proof {
            lemma_find_skip(s@, seq!['\n'], pos as int, 0);
            lemma_find_from_found(s@, seq!['\n'], pos as int);
        }
        let ghost before = lines_view(lines@);
        match find_chars(s, nl.as_slice(), pos) {
            Some(i) => {
                let mut line = slice_chars(s, pos, i);
                if line.len() > 0 && line[line.len() - 1] == '\r' {
                    line.pop();
                }
                assert(rest.take(i - pos) =~= s@.subrange(pos as int, i as int));
                assert(line@ == strip_cr(rest.take(i - pos)));
                lines.push(line);
                assert(lines_view(lines@) =~= before.push(strip_cr(rest.take(i - pos))));
                assert(rest.skip(i - pos + 1) =~= s@.skip(i + 1));
                pos = i + 1;
                assert(spec_lines(s@) =~= lines_view(lines@) + spec_lines(s@.skip(pos as int)));
            },
            None => {
                let line = slice_chars(s, pos, s.len());
                assert(line@ =~= rest);
                lines.push(line);
                assert(lines_view(lines@) =~= before.push(rest));
                pos = s.len();
                assert(s@.skip(pos as int) =~= Seq::<char>::empty());
                assert(spec_lines(s@) =~= lines_view(lines@) + spec_lines(s@.skip(pos as int)));
            },
        }
    }
    assert(s@.skip(pos as int) =~= Seq::<char>::empty());
    assert(lines_view(lines@) + Seq::<Seq<char>>::empty() =~= lines_view(lines@));
    lines
}

// ---------------------------------------------------------------------------
// Unsigned integer parsing
// ---------------------------------------------------------------------------

pub open spec fn all_digits(d: Seq<char>) -> bool {
    forall|i: int| 0 <= i < d.len() ==> is_digit(#[trigger] d[i])
}

/// Value of a string of decimal digits.
pub open spec fn digits_value(d: Seq<char>) -> nat
    decreases d.len(),
{
    if d.len() == 0 {
        0
    } else {
        digits_value(d.drop_last()) * 10 + (digit_value(d.last()) as nat)
    }
}

/// `str::parse::<usize>`: an optional `+` sign followed by at least one
/// ASCII digit, with a value that fits in `usize`.
pub open spec fn spec_parse_usize(s: Seq<char>) -> Option<nat> {
    let d = if s.len() > 0 && s[0] == '+' { s.skip(1) } else { s };
    if d.len() == 0 || !all_digits(d) || digits_value(d) > usize::MAX {
        None
    } else {
        Some(digits_value(d))
    }
}

proof fn lemma_digits_value_prefix(d: Seq<char>, i: int)
    requires
        0 <= i <= d.len(),
        all_digits(d),
    ensures
        digits_value(d.take(i)) <= digits_value(d),
    decreases d.len() - i,
{
    if i < d.len() {
        lemma_digits_value_prefix(d, i + 1);
        assert(d.take(i + 1).drop_last() =~= d.take(i));
        assert(is_digit(d[i]));
    } else {
        assert(d.take(i) =~= d);
    }
}

/// Parse a `usize` as `str::parse` does (see `spec_parse_usize`).
pub fn parse_usize(s: &[char]) -> (res: Option<usize>)
    ensures
        match spec_parse_usize(s@) {
            Some(v) => res matches Some(r) && r == v,
            None => res is None,
        },
{
    let start: usize = if s.len() > 0 && s[0] == '+' { 1 } else { 0 };
    let ghost d = if s@.len() > 0 && s@[0] == '+' { s@.skip(1) } else { s@ };
    assert(d =~= s@.skip(start as int));
    if start == s.len() {
        return None;
    }
    let mut value: usize = 0;
    let mut i = start;
    while i < s.len()
        invariant
            start <= i <= s@.len(),
            d == s@.skip(start as int),
            d == (if s@.len() > 0 && s@[0] == '+' { s@.skip(1) } else { s@ }),
            d.len() > 0,
            all_digits(d.take(i - start)),
            value == digits_value(d.take(i - start)),
        decreases s@.len() - i,
    {
        let c = s[i];
        assert(d[i - start] == c);
        if !('0' <= c && c <= '9') {
            assert(!is_digit(d[i - start]));
            assert(!all_digits(d));
            return None;
        }
        let dv = (c as u32 - '0' as u32) as usize;
        assert(d.take(i + 1 - start).drop_last() =~= d.take(i - start));
        assert(digits_value(d.take(i + 1 - start)) == value * 10 + dv);
        match value.checked_mul(10) {
            Some(m) => match m.checked_add(dv) {
                Some(v) => {
                    value = v;
                },
                None => {
                    proof {
                        assert(m == value * 10);
                        assert(digits_value(d.take(i + 1 - start)) > usize::MAX);
                        if all_digits(d) {
                            lemma_digits_value_prefix(d, i + 1 - start);
                            assert(digits_value(d) > usize::MAX);
                        }
                    }
                    return None;
                },
            },
            None => {
                proof {
                    if all_digits(d) {
                        lemma_digits_value_prefix(d, i + 1 - start);
                    }
                }
                return None;
            },
        }
        i = i + 1;
        assert(all_digits(d.take(i - start)));
    }
    assert(d.take(i - start) =~= d);
    Some(value)
}


/// First index at or after `i` whose element satisfies `p`.
pub open spec fn first_index_from<T>(s: Seq<T>, p: spec_fn(T) -> bool, i: int) -> Option<int>
    decreases s.len() - i,
{
    if i < 0 || i >= s.len() {
        None
    } else if p(s[i]) {
        Some(i)
    } else {
        first_index_from(s, p, i + 1)
    }
}

pub open spec fn first_index<T>(s: Seq<T>, p: spec_fn(T) -> bool) -> Option<int> {
    first_index_from(s, p, 0)
}

pub proof fn lemma_first_index_from<T>(s: Seq<T>, p: spec_fn(T) -> bool, i: int)
    requires
        0 <= i,
    ensures
        first_index_from(s, p, i) matches Some(k) ==> i <= k < s.len() && p(s[k]),
        first_index_from(s, p, i) is None ==> forall|k: int| i <= k < s.len() ==> !p(#[trigger] s[k]),
    decreases s.len() - i,
{
    if !(i < 0 || i >= s.len()) && !p(s[i]) {
        lemma_first_index_from(s, p, i + 1);
    }
}


// ---------------------------------------------------------------------------
// Whitespace-separated words
// ---------------------------------------------------------------------------

/// Number of leading non-whitespace characters.
pub open spec fn word_len(s: Seq<char>) -> int
    decreases s.len(),
{
    if s.len() > 0 && !is_whitespace(s[0]) {
        1 + word_len(s.skip(1))
    } else {
        0
    }
}

proof fn lemma_word_len_bounds(s: Seq<char>)
    ensures
        0 <= word_len(s) <= s.len(),
        s.len() > 0 && !is_whitespace(s[0]) ==> word_len(s) >= 1,
    decreases s.len(),
{
    if s.len() > 0 && !is_whitespace(s[0]) {
        lemma_word_len_bounds(s.skip(1));
    }
}

/// `str::split_whitespace`: the maximal runs of non-whitespace characters.
pub open spec fn words(s: Seq<char>) -> Seq<Seq<char>>
    decreases s.len(),
{
    let t = trim_start(s);
    if t.len() == 0 || s.len() == 0 {
        Seq::empty()
    } else {
        let n = word_len(t);
        if 1 <= n <= t.len() && t.len() <= s.len() {
            seq![t.take(n)] + words(t.skip(n))
        } else {
            Seq::empty()
        }
    }
}

proof fn lemma_trim_start_ws(s: Seq<char>, i: int)
    requires
        0 <= i < s.len(),
        is_whitespace(s[i]),
    ensures
        trim_start(s.skip(i)) == trim_start(s.skip(i + 1)),
{
    assert(s.skip(i).skip(1) =~= s.skip(i + 1));
    lemma_leading_ws_bounds(s.skip(i + 1));
    assert(s.skip(i).skip(leading_ws(s.skip(i))) =~= s.skip(i + 1).skip(leading_ws(s.skip(i + 1))));
}

proof fn lemma_words_nonempty_start(s: Seq<char>)
    requires
        s.len() > 0,
        !is_whitespace(s[0]),
    ensures
        words(s) == seq![s.take(word_len(s))] + words(s.skip(word_len(s))),
{
    assert(leading_ws(s) == 0);
    assert(trim_start(s) =~= s);
    lemma_word_len_bounds(s);
}

/// Split `s` into its whitespace-separated words.
pub fn split_words(s: &[char]) -> (ws: Vec<Vec<char>>)
    ensures
        lines_view(ws@) == words(s@),
{
    let mut ws: Vec<Vec<char>> = Vec::new();
    let n = s.len();
    let mut i: usize = 0;
    assert(s@.skip(0) =~= s@);
    assert(lines_view(ws@) + words(s@) =~= words(s@));
    while i < n
        invariant
            i <= n,
            n == s@.len(),
            words(s@) == lines_view(ws@) + words(s@.skip(i as int)),
        decreases n - i,
    {
        if is_whitespace_char(s[i]) {
            proof {
                lemma_trim_start_ws(s@, i as int);
                lemma_leading_ws_bounds(s@.skip(i as int));
                lemma_leading_ws_bounds(s@.skip(i + 1));
                let a = s@.skip(i as int);
                let b = s@.skip(i + 1);
                if trim_start(b).len() == 0 || b.len() == 0 {
                    assert(words(a) == Seq::<Seq<char>>::empty());
                } else {
                    assert(words(a) == words(b));
                }
            }
            i = i + 1;
        } else {
            let start = i;
            let ghost rest = s@.skip(start as int);
            while i < n && !is_whitespace_char(s[i])
                invariant
                    start <= i <= n,
                    n == s@.len(),
                    rest == s@.skip(start as int),
                    word_len(rest) == (i - start) + word_len(s@.skip(i as int)),
                decreases n - i,
            {
                assert(s@.skip(i as int).skip(1) =~= s@.skip(i + 1));
                i = i + 1;
            }
            assert(word_len(s@.skip(i as int)) == 0);
            proof { lemma_words_nonempty_start(rest); }
            let w = slice_chars(s, start, i);
            assert(w@ =~= rest.take(i - start));
            assert(rest.skip(i - start) =~= s@.skip(i as int));
            let ghost before = lines_view(ws@);
            ws.push(w);
            assert(lines_view(ws@) =~= before.push(w@));
            assert(words(s@) =~= lines_view(ws@) + words(s@.skip(i as int)));
        }
    }
    assert(s@.skip(n as int) =~= Seq::<char>::empty());
    assert(lines_view(ws@) + Seq::<Seq<char>>::empty() =~= lines_view(ws@));
    ws
}


// ---------------------------------------------------------------------------
// Splitting at separator characters
// ---------------------------------------------------------------------------

/// First index at or after `i` holding one of the separator characters.
pub open spec fn sep_index_from(s: Seq<char>, seps: Seq<char>, i: int) -> Option<int>
    decreases s.len() - i,
{
    if i < 0 || i >= s.len() {
        None
    } else if seps.contains(s[i]) {
        Some(i)
    } else {
        sep_index_from(s, seps, i + 1)
    }
}

proof fn lemma_sep_index_from(s: Seq<char>, seps: Seq<char>, i: int)
    ensures
        sep_index_from(s, seps, i) matches Some(k) ==> i <= k < s.len() && seps.contains(s[k]),
    decreases s.len() - i,
{
    if !(i < 0 || i >= s.len()) && !seps.contains(s[i]) {
        lemma_sep_index_from(s, seps, i + 1);
    }
}

/// `str::split` at any of the separator characters: every piece, empty ones
/// included (n separators give n + 1 pieces).
pub open spec fn split_set(s: Seq<char>, seps: Seq<char>) -> Seq<Seq<char>>
    decreases s.len(),
{
    match sep_index_from(s, seps, 0) {
        Some(i) => if 0 <= i < s.len() {
            seq![s.take(i)] + split_set(s.skip(i + 1), seps)
        } else {
            Seq::empty()
        },
        None => seq![s],
    }
}

proof fn lemma_sep_index_skip(s: Seq<char>, seps: Seq<char>, p: int, i: int)
    requires
        0 <= p <= s.len(),
        0 <= i,
    ensures
        match sep_index_from(s, seps, p + i) {
            Some(k) => sep_index_from(s.skip(p), seps, i) == Some(k - p),
            None => sep_index_from(s.skip(p), seps, i) is None,
        },
    decreases s.len() - (p + i),
{
    if p + i < s.len() && !seps.contains(s[p + i]) {
        lemma_sep_index_skip(s, seps, p, i + 1);
    }
}

fn is_sep(c: char, seps: &[char]) -> (b: bool)
    ensures
        b == seps@.contains(c),
{
    let mut i: usize = 0;
    while i < seps.len()
        invariant
            i <= seps@.len(),
            forall|k: int| 0 <= k < i ==> seps@[k] != c,
        decreases seps@.len() - i,
    {
        if seps[i] == c {
            assert(seps@[i as int] == c);
            return true;
        }
        i = i + 1;
    }
    false
}

/// Split `s` at any of the separator characters (see `split_set`).
pub fn split_set_of(s: &[char], seps: &[char]) -> (pieces: Vec<Vec<char>>)
    ensures
        lines_view(pieces@) == split_set(s@, seps@),
{
    let n = s.len();
    let mut pieces: Vec<Vec<char>> = Vec::new();
    let mut start: usize = 0;
    let mut i: usize = 0;
    assert(s@.skip(0) =~= s@);
    assert(lines_view(pieces@) + split_set(s@, seps@) =~= split_set(s@, seps@));
    while i < n
        invariant
            start <= i <= n,
            n == s@.len(),
            split_set(s@, seps@) == lines_view(pieces@) + split_set(s@.skip(start as int), seps@),
            sep_index_from(s@.skip(start as int), seps@, 0) == sep_index_from(s@.skip(start as int), seps@, i - start),
        decreases n - i,
    {
        let ghost rest = s@.skip(start as int);
        proof { lemma_sep_index_skip(s@, seps@, start as int, i - start); }
        assert(rest[i - start] == s@[i as int]);
        if is_sep(s[i], seps) {
            let piece = slice_chars(s, start, i);
            assert(piece@ =~= rest.take(i - start));
            assert(rest.skip(i - start + 1) =~= s@.skip(i + 1));
            let ghost before = lines_view(pieces@);
            pieces.push(piece);
            assert(lines_view(pieces@) =~= before.push(piece@));
            start = i + 1;
            i = i + 1;
            assert(s@.skip(start as int).skip(0) =~= s@.skip(start as int));
            assert(split_set(s@, seps@) =~= lines_view(pieces@) + split_set(s@.skip(start as int), seps@));
        } else {
            i = i + 1;
        }
    }
    let ghost rest = s@.skip(start as int);
    assert(sep_index_from(rest, seps@, (n - start) as int) is None);
    let piece = slice_chars(s, start, n);
    assert(piece@ =~= rest);
    let ghost before = lines_view(pieces@);
    pieces.push(piece);
    assert(lines_view(pieces@) =~= before.push(piece@));
    assert(split_set(s@, seps@) =~= lines_view(pieces@));
    pieces
}


// ---------------------------------------------------------------------------
// Dotted-quad IPv4 addresses
// ---------------------------------------------------------------------------

/// One octet of a dotted-quad address: one to three ASCII digits, no leading
/// zero unless it is the single digit `0`, at most 255.
pub open spec fn octet_ok(g: Seq<char>) -> bool {
    &&& 1 <= g.len() <= 3
    &&& all_digits(g)
    &&& !(g.len() > 1 && g[0] == '0')
    &&& digits_value(g) <= 255
}

/// Dotted-quad IPv4 parsing (as `Ipv4Addr`'s `FromStr` accepts it): exactly
/// four valid octets separated by `.`.
pub open spec fn spec_parse_ipv4(s: Seq<char>) -> Option<Seq<u8>> {
    let parts = split_set(s, seq!['.']);
    if parts.len() == 4 && octet_ok(parts[0]) && octet_ok(parts[1]) && octet_ok(parts[2]) && octet_ok(
        parts[3],
    ) {
        Some(
            seq![
                digits_value(parts[0]) as u8,
                digits_value(parts[1]) as u8,
                digits_value(parts[2]) as u8,
                digits_value(parts[3]) as u8,
            ],
        )
    } else {
        None
    }
}

fn parse_octet(g: &[char]) -> (res: Option<u8>)
    ensures
        octet_ok(g@) ==> res == Some(digits_value(g@) as u8),
        !octet_ok(g@) ==> res is None,
{
    if g.len() < 1 || g.len() > 3 {
        return None;
    }
    if g.len() > 1 && g[0] == '0' {
        return None;
    }
    let mut v: u32 = 0;
    let mut i: usize = 0;
    while i < g.len()
        invariant
            i <= g@.len() <= 3,
            all_digits(g@.take(i as int)),
            v == digits_value(g@.take(i as int)),
            v < (if i == 0 { 1int } else if i == 1 { 10int } else if i == 2 { 100int } else { 1000int }),
        decreases g@.len() - i,
    {
        let c = g[i];
        if !('0' <= c && c <= '9') {
            assert(!is_digit(g@[i as int]));
            return None;
        }
        assert(g@.take(i + 1).drop_last() =~= g@.take(i as int));
        v = v * 10 + (c as u32 - '0' as u32);
        i = i + 1;
        assert(all_digits(g@.take(i as int)));
    }
    assert(g@.take(g@.len() as int) =~= g@);
    if v > 255 {
        return None;
    }
    Some(v as u8)
}

/// Parse a dotted-quad IPv4 address into its octets.
pub fn parse_ipv4(s: &[char]) -> (res: Option<[u8; 4]>)
    ensures
        match spec_parse_ipv4(s@) {
            Some(o) => res matches Some(a) && a@ == o,
            None => res is None,
        },
{
    let dot: Vec<char> = vec!['.'];
    assert(dot@ =~= seq!['.']);
    let parts = split_set_of(s, dot.as_slice());
    if parts.len() != 4 {
        return None;
    }
    assert(parts@[0]@ == lines_view(parts@)[0]);
    assert(parts@[1]@ == lines_view(parts@)[1]);
    assert(parts@[2]@ == lines_view(parts@)[2]);
    assert(parts@[3]@ == lines_view(parts@)[3]);
    let a = match parse_octet(parts[0].as_slice()) { Some(x) => x, None => { return None; } };
    let b = match parse_octet(parts[1].as_slice()) { Some(x) => x, None => { return None; } };
    let c = match parse_octet(parts[2].as_slice()) { Some(x) => x, None => { return None; } };
    let d = match parse_octet(parts[3].as_slice()) { Some(x) => x, None => { return None; } };
    let r = [a, b, c, d];
    assert(r@ =~= spec_parse_ipv4(s@).unwrap());
    Some(r)
}

}
