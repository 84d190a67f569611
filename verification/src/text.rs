//! Character-level operations on strings.
//!
//! Every contract speaks of a string as the sequence of its characters.

use vstd::prelude::*;
use vstd::string::StringExecFns;
use vstd::string::StrSliceExecFns;
use vstd::utf8::{
    decode_utf8, encode_utf8, encode_utf8_decode_utf8, encode_utf8_valid_utf8, is_char_boundary,
    is_char_boundary_start_end_of_seq, valid_utf8,
};

verus! {

/// `String::push` appends one character.
pub assume_specification[ String::push ](s: &mut String, c: char)
    ensures
        final(s)@ == old(s)@.push(c),
;

/// The message of the error that `std::str::from_utf8` gives for bytes that are not
/// UTF-8.
pub uninterp spec fn utf8_error(bytes: Seq<u8>) -> Seq<char>;

/// `std::str::from_utf8` accepts exactly the well-formed UTF-8 byte strings and
/// yields the characters that they encode; an error is given by its message.
#[verifier::external_body]
pub(crate) fn decode_text(bytes: &[u8]) -> (r: Result<String, String>)
    ensures
        r is Ok <==> valid_utf8(bytes@),
        r matches Ok(s) ==> s@ == decode_utf8(bytes@),
        r matches Err(e) ==> e@ == utf8_error(bytes@),
{
    std::str::from_utf8(bytes).map(|s| s.to_owned()).map_err(|e| e.to_string())
}

/// Whether two strings hold the same characters.
pub fn same(a: &str, b: &str) -> (r: bool)
    ensures
        r == (a@ == b@),
{
    let x = a.as_bytes();
    let y = b.as_bytes();
    proof {
        encode_utf8_decode_utf8(a@);
        encode_utf8_decode_utf8(b@);
    }
    if x.len() != y.len() {
        return false;
    }
    let mut i: usize = 0;
    while i < x.len()
        invariant
            i <= x.len(),
            x.len() == y.len(),
            x@ == encode_utf8(a@),
            y@ == encode_utf8(b@),
            forall|j: int| 0 <= j < i ==> x[j] == y[j],
        decreases x.len() - i,
    {
        if x[i] != y[i] {
            return false;
        }
        i = i + 1;
    }
    assert(x@ =~= y@);
    true
}

/// The characters of a string.
pub fn chars_of(s: &str) -> (r: Vec<char>)
    ensures
        r@ == s@,
{
    let mut out: Vec<char> = Vec::new();
    for c in it: s.chars()
        invariant
            out@.len() == it.index(),
            it.seq() == s@,
            forall|j: int| 0 <= j < out@.len() ==> out@[j] == s@[j],
    {
        out.push(c);
    }
    assert(out@ =~= s@);
    out
}


/// A string made of the given characters.
pub fn string_of(chars: &[char]) -> (r: String)
    ensures
        r@ == chars@,
{
    let mut out = String::new();
    let mut i: usize = 0;
    while i < chars.len()
        invariant
            i <= chars.len(),
            out@ == chars@.take(i as int),
        decreases chars.len() - i,
    {
        out.push(chars[i]);
        i = i + 1;
        assert(chars@.take(i as int) =~= chars@.take(i - 1).push(chars@[i - 1]));
    }
    assert(chars@.take(chars@.len() as int) =~= chars@);
    out
}

/// Pairs of strings.
pub open spec fn pair_views(pairs: Seq<(String, String)>) -> Seq<(Seq<char>, Seq<char>)> {
    pairs.map_values(|p: (String, String)| (p.0@, p.1@))
}

/// The views of a sequence of strings.
pub open spec fn texts(v: Seq<String>) -> Seq<Seq<char>> {
    Seq::new(v.len(), |i: int| v[i]@)
}

/// Whether `needle` stands in `s` from character `i` on.
pub open spec fn occurs_at(needle: Seq<char>, s: Seq<char>, i: int) -> bool {
    &&& 0 <= i
    &&& i + needle.len() <= s.len()
    &&& s.subrange(i, i + needle.len()) == needle
}

/// Whether `needle` stands somewhere in `s`.
pub open spec fn occurs(needle: Seq<char>, s: Seq<char>) -> bool {
    exists|i: int| occurs_at(needle, s, i)
}

/// Whether `needle` stands in `s` from character `i` on.
pub fn chars_at(s: &[char], i: usize, needle: &[char]) -> (r: bool)
    requires
        i <= s@.len(),
    ensures
        r == occurs_at(needle@, s@, i as int),
{
    if needle.len() > s.len() - i {
        return false;
    }
    let mut j: usize = 0;
    while j < needle.len()
        invariant
            j <= needle@.len(),
            i + needle@.len() <= s@.len(),
            s.len() == s@.len(),
            forall|k: int| 0 <= k < j ==> s@[i + k] == needle@[k],
        decreases needle.len() - j,
    {
        if s[i + j] != needle[j] {
            assert(s@.subrange(i as int, i + needle@.len())[j as int] != needle@[j as int]);
            return false;
        }
        j = j + 1;
    }
    assert(s@.subrange(i as int, i + needle@.len()) =~= needle@);
    true
}

/// The first place at or after `from` where `needle` stands in `s`.
pub fn find_from(s: &[char], from: usize, needle: &[char]) -> (r: Option<usize>)
    requires
        from <= s@.len(),
    ensures
        r matches Some(i) ==> from <= i && occurs_at(needle@, s@, i as int) && (forall|j: int|
            from <= j < i ==> !occurs_at(needle@, s@, j)),
        r is None ==> (forall|j: int| from <= j ==> !occurs_at(needle@, s@, j)),
{
    let mut i: usize = from;
    while i < s.len()
        invariant
            from <= i <= s@.len(),
            forall|j: int| from <= j < i ==> !occurs_at(needle@, s@, j),
        decreases s.len() - i,
    {
        if chars_at(s, i, needle) {
            return Some(i);
        }
        i = i + 1;
    }
    if chars_at(s, i, needle) {
        return Some(i);
    }
    None
}

/// Whether `needle` stands somewhere in `s`.
pub fn contains(s: &str, needle: &str) -> (r: bool)
    ensures
        r == occurs(needle@, s@),
{
    let a = chars_of(s);
    let b = chars_of(needle);
    let found = find_from(a.as_slice(), 0, b.as_slice());
    match found {
        Some(i) => {
            assert(occurs_at(needle@, s@, i as int));
            true
        },
        None => false,
    }
}

/// Whether `s` begins with `prefix`.
pub fn starts_with(s: &str, prefix: &str) -> (r: bool)
    ensures
        r == prefix@.is_prefix_of(s@),
{
    let a = chars_of(s);
    let b = chars_of(prefix);
    let r = chars_at(a.as_slice(), 0, b.as_slice());
    assert(occurs_at(prefix@, s@, 0) == prefix@.is_prefix_of(s@));
    r
}

/// Whether `s` ends with `suffix`.
pub fn ends_with(s: &str, suffix: &str) -> (r: bool)
    ensures
        r == suffix@.is_suffix_of(s@),
{
    let a = chars_of(s);
    let b = chars_of(suffix);
    if b.len() > a.len() {
        return false;
    }
    let at: usize = a.len() - b.len();
    let r = chars_at(a.as_slice(), at, b.as_slice());
    assert(occurs_at(suffix@, s@, at as int) == suffix@.is_suffix_of(s@));
    r
}

/// What follows `prefix` in a string that begins with it.
pub fn strip_prefix<'a>(s: &'a str, prefix: &str) -> (r: Option<&'a str>)
    ensures
        r is Some <==> prefix@.is_prefix_of(s@),
        r matches Some(rest) ==> rest@ == s@.skip(prefix@.len() as int),
{
    if starts_with(s, prefix) {
        let n = s.unicode_len();
        let k = prefix.unicode_len();
        let rest = s.substring_char(k, n);
        assert(rest@ =~= s@.skip(prefix@.len() as int));
        Some(rest)
    } else {
        None
    }
}

/// The characters with the Unicode property White_Space.
pub open spec fn is_space(c: char) -> bool {
    ||| '\u{9}' <= c <= '\u{d}'
    ||| c == ' '
    ||| c == '\u{85}'
    ||| c == '\u{a0}'
    ||| c == '\u{1680}'
    ||| '\u{2000}' <= c <= '\u{200a}'
    ||| c == '\u{2028}'
    ||| c == '\u{2029}'
    ||| c == '\u{202f}'
    ||| c == '\u{205f}'
    ||| c == '\u{3000}'
}

/// Whether a character has the Unicode property White_Space.
pub fn is_whitespace(c: char) -> (r: bool)
    ensures
        r == is_space(c),
{
    ('\u{9}' <= c && c <= '\u{d}') || c == ' ' || c == '\u{85}' || c == '\u{a0}' || c == '\u{1680}'
        || ('\u{2000}' <= c && c <= '\u{200a}') || c == '\u{2028}' || c == '\u{2029}' || c
        == '\u{202f}' || c == '\u{205f}' || c == '\u{3000}'
}

/// `s` without the whitespace that it begins with.
pub open spec fn trimmed_start(s: Seq<char>) -> Seq<char>
    decreases s.len(),
{
    if s.len() > 0 && is_space(s[0]) {
        trimmed_start(s.drop_first())
    } else {
        s
    }
}

/// `s` without the whitespace that it ends with.
pub open spec fn trimmed_end(s: Seq<char>) -> Seq<char>
    decreases s.len(),
{
    if s.len() > 0 && is_space(s.last()) {
        trimmed_end(s.drop_last())
    } else {
        s
    }
}

/// `s` without the whitespace around it.
pub open spec fn trimmed(s: Seq<char>) -> Seq<char> {
    trimmed_end(trimmed_start(s))
}

/// The string without the whitespace that it begins with.
pub fn trim_start(s: &str) -> (r: &str)
    ensures
        r@ == trimmed_start(s@),
{
    let a = chars_of(s);
    let mut i: usize = 0;
    assert(a@.skip(0) =~= a@);
    while i < a.len() && is_whitespace(a[i])
        invariant
            i <= a@.len(),
            trimmed_start(a@.skip(i as int)) == trimmed_start(a@),
        decreases a.len() - i,
    {
        assert(a@.skip(i as int).drop_first() =~= a@.skip(i + 1));
        i = i + 1;
    }
    let r = s.substring_char(i, a.len());
    assert(r@ =~= a@.skip(i as int));
    r
}

/// The string without the whitespace that it ends with.
pub fn trim_end(s: &str) -> (r: &str)
    ensures
        r@ == trimmed_end(s@),
{
    let a = chars_of(s);
    let mut i: usize = a.len();
    assert(a@.take(a@.len() as int) =~= a@);
    while i > 0 && is_whitespace(a[i - 1])
        invariant
            i <= a@.len(),
            trimmed_end(a@.take(i as int)) == trimmed_end(a@),
        decreases i,
    {
        assert(a@.take(i as int).drop_last() =~= a@.take(i - 1));
        i = i - 1;
    }
    let r = s.substring_char(0, i);
    assert(r@ =~= a@.take(i as int));
    r
}

/// The string without the whitespace around it.
pub fn trim(s: &str) -> (r: &str)
    ensures
        r@ == trimmed(s@),
{
    trim_end(trim_start(s))
}

/// Whether a string holds nothing but whitespace.
pub open spec fn is_blank(s: Seq<char>) -> bool {
    trimmed(s).len() == 0
}

/// Whether a string holds nothing but whitespace.
pub fn blank(s: &str) -> (r: bool)
    ensures
        r == is_blank(s@),
{
    trim(s).unicode_len() == 0
}

/// The character of a decimal digit.
pub open spec fn digit(d: int) -> char {
    (('0' as int) + d) as char
}

/// The decimal numeral of a number.
pub open spec fn decimal(n: nat) -> Seq<char>
    decreases n,
{
    if n < 10 {
        seq![digit(n as int)]
    } else {
        decimal(n / 10).push(digit((n % 10) as int))
    }
}

fn digit_char(d: u64) -> (c: char)
    requires
        d < 10,
    ensures
        c == digit(d as int),
{
    let b: u8 = 48 + d as u8;
    b as char
}

/// Appends the decimal numeral of a number.
pub fn push_decimal(out: &mut String, n: u64)
    ensures
        final(out)@ == old(out)@ + decimal(n as nat),
    decreases n,
{
    if n < 10 {
        out.push(digit_char(n));
        assert(out@ =~= old(out)@ + decimal(n as nat));
    } else {
        push_decimal(out, n / 10);
        out.push(digit_char(n % 10));
        assert(out@ =~= old(out)@ + decimal(n as nat));
    }
}

/// Appends the decimal numeral of a number.
pub fn push_decimal_wide(out: &mut String, n: u128)
    ensures
        final(out)@ == old(out)@ + decimal(n as nat),
    decreases n,
{
    if n <= 0xffff_ffff_ffff_ffff {
        push_decimal(out, n as u64);
    } else {
        push_decimal_wide(out, n / 10);
        push_decimal(out, (n % 10) as u64);
        proof {
            let last = (n % 10) as nat;
            assert(decimal(last) == seq![digit(last as int)]);
            assert(out@ =~= old(out)@ + decimal(n as nat));
        }
    }
}

/// The decimal numeral of a number.
pub fn to_decimal(n: u64) -> (r: String)
    ensures
        r@ == decimal(n as nat),
{
    let mut out = String::new();
    push_decimal(&mut out, n);
    assert(out@ =~= decimal(n as nat));
    out
}

/// The parts with `separator` between each two of them.
pub open spec fn joined(parts: Seq<Seq<char>>, separator: Seq<char>) -> Seq<char>
    decreases parts.len(),
{
    if parts.len() == 0 {
        Seq::empty()
    } else if parts.len() == 1 {
        parts[0]
    } else {
        joined(parts.drop_last(), separator) + separator + parts.last()
    }
}

/// The parts with `separator` between each two of them.
pub fn join(parts: &[String], separator: &str) -> (r: String)
    ensures
        r@ == joined(texts(parts@), separator@),
{
    let mut out = String::new();
    let mut i: usize = 0;
    while i < parts.len()
        invariant
            i <= parts@.len(),
            out@ == joined(texts(parts@.take(i as int)), separator@),
        decreases parts.len() - i,
    {
        let ghost before = texts(parts@.take(i as int));
        let ghost after = texts(parts@.take(i + 1));
        assert(after.drop_last() =~= before);
        assert(after.last() == parts@[i as int]@);
        if i > 0 {
            out.append(separator);
        }
        out.append(parts[i].as_str());
        assert(out@ =~= joined(after, separator@));
        i = i + 1;
    }
    assert(parts@.take(parts@.len() as int) =~= parts@);
    out
}

/// Whether a string is all ASCII.
pub open spec fn is_ascii(s: Seq<char>) -> bool {
    forall|i: int| 0 <= i < s.len() ==> #[trigger] s[i] < '\u{80}'
}

/// The lower-case form of an ASCII capital; any other character as it is.
pub open spec fn ascii_lower(c: char) -> char {
    if 'A' <= c <= 'Z' {
        ((c as int) + 32) as char
    } else {
        c
    }
}

/// The string with its ASCII capitals in lower case.
pub open spec fn ascii_lowered(s: Seq<char>) -> Seq<char> {
    Seq::new(s.len(), |i: int| ascii_lower(s[i]))
}

/// The lower-case form of an ASCII capital; any other character as it is.
pub fn lower_char(c: char) -> (r: char)
    ensures
        r == ascii_lower(c),
{
    if 'A' <= c && c <= 'Z' {
        let b: u8 = c as u8;
        (b + 32) as char
    } else {
        c
    }
}

/// The string with its ASCII capitals in lower case.
pub fn to_ascii_lowercase(s: &str) -> (r: String)
    ensures
        r@ == ascii_lowered(s@),
{
    let a = chars_of(s);
    let mut out = String::new();
    let mut i: usize = 0;
    while i < a.len()
        invariant
            i <= a@.len(),
            out@ == ascii_lowered(a@.take(i as int)),
        decreases a.len() - i,
    {
        out.push(lower_char(a[i]));
        i = i + 1;
        assert(out@ =~= ascii_lowered(a@.take(i as int)));
    }
    assert(a@.take(a@.len() as int) =~= a@);
    out
}

/// Whether two strings are equal up to the case of ASCII letters.
pub fn same_ignoring_ascii_case(a: &str, b: &str) -> (r: bool)
    ensures
        r == (ascii_lowered(a@) == ascii_lowered(b@)),
{
    same(to_ascii_lowercase(a).as_str(), to_ascii_lowercase(b).as_str())
}

/// The lowercase of a string, by the rules of Unicode.
pub uninterp spec fn lowercased(s: Seq<char>) -> Seq<char>;

/// `str::to_lowercase` gives the lowercase of a string. For ASCII that is a letter for each
/// letter; what it is for other strings is left to Unicode.
#[verifier::external_body]
pub(crate) fn lowercase(s: &str) -> (r: String)
    ensures
        r@ == lowercased(s@),
        is_ascii(s@) ==> r@ == ascii_lowered(s@),
{
    s.to_lowercase()
}

/// A string in quotation marks, with what has to be escaped in a Rust literal escaped.
pub uninterp spec fn quoted(s: Seq<char>) -> Seq<char>;

/// The `Debug` form of `str` quotes a string. Which characters are escaped is left to
/// the standard library.
#[verifier::external_body]
pub(crate) fn quote(s: &str) -> (r: String)
    ensures
        r@ == quoted(s@),
{
    format!("{s:?}")
}

/// A hexadecimal digit.
pub open spec fn hex_digit(d: int) -> char {
    if d < 10 {
        digit(d)
    } else {
        (('a' as int) + d - 10) as char
    }
}

/// Bytes in hexadecimal, two digits for each.
pub open spec fn hex(bytes: Seq<u8>) -> Seq<char>
    decreases bytes.len(),
{
    if bytes.len() == 0 {
        Seq::empty()
    } else {
        hex(bytes.drop_last()).push(hex_digit(bytes.last() as int / 16)).push(
            hex_digit(bytes.last() as int % 16),
        )
    }
}

fn hex_char(d: u8) -> (c: char)
    requires
        d < 16,
    ensures
        c == hex_digit(d as int),
{
    if d < 10 {
        digit_char(d as u64)
    } else {
        let b: u8 = 97 + (d - 10);
        b as char
    }
}

/// Bytes in hexadecimal, two digits for each.
pub fn to_hex(bytes: &[u8]) -> (r: String)
    ensures
        r@ == hex(bytes@),
{
    let mut out = String::new();
    let mut i: usize = 0;
    assert(bytes@.take(0) =~= Seq::empty());
    while i < bytes.len()
        invariant
            i <= bytes@.len(),
            out@ == hex(bytes@.take(i as int)),
        decreases bytes.len() - i,
    {
        assert(bytes@.take(i + 1).drop_last() =~= bytes@.take(i as int));
        out.push(hex_char(bytes[i] / 16));
        out.push(hex_char(bytes[i] % 16));
        i = i + 1;
    }
    assert(bytes@.take(bytes@.len() as int) =~= bytes@);
    out
}

/// A number of spaces.
pub open spec fn spaces(n: nat) -> Seq<char> {
    Seq::new(n, |i: int| ' ')
}

/// A string with spaces behind it up to a width.
pub open spec fn padded(s: Seq<char>, width: nat) -> Seq<char> {
    if s.len() < width {
        s + spaces((width - s.len()) as nat)
    } else {
        s
    }
}

/// Appends a string with spaces behind it up to a width.
pub fn push_padded(out: &mut String, s: &str, width: usize)
    ensures
        final(out)@ == old(out)@ + padded(s@, width as nat),
{
    let len = s.unicode_len();
    out.append(s);
    if len < width {
        let ghost start = out@;
        let missing: usize = width - len;
        let mut i: usize = 0;
        assert(start + spaces(0) =~= start);
        while i < missing
            invariant
                i <= missing,
                out@ == start + spaces(i as nat),
            decreases missing - i,
        {
            out.push(' ');
            i = i + 1;
            assert(out@ =~= start + spaces(i as nat));
        }
        assert(out@ =~= old(out)@ + padded(s@, width as nat));
    }
}

/// A string with spaces before it up to a width.
pub open spec fn right_aligned(s: Seq<char>, width: nat) -> Seq<char> {
    if s.len() < width {
        spaces((width - s.len()) as nat) + s
    } else {
        s
    }
}

/// Appends a string with spaces before it up to a width.
pub fn push_right_aligned(out: &mut String, s: &str, width: usize)
    ensures
        final(out)@ == old(out)@ + right_aligned(s@, width as nat),
{
    let len = s.unicode_len();
    let ghost start = out@;
    if len < width {
        let missing: usize = width - len;
        let mut i: usize = 0;
        assert(start + spaces(0) =~= start);
        while i < missing
            invariant
                i <= missing,
                out@ == start + spaces(i as nat),
            decreases missing - i,
        {
            out.push(' ');
            i = i + 1;
            assert(out@ =~= start + spaces(i as nat));
        }
    }
    out.append(s);
    assert(out@ =~= start + right_aligned(s@, width as nat));
}

/// The decimal numeral of a number that may be negative.
pub open spec fn signed_decimal(n: int) -> Seq<char> {
    if n < 0 {
        seq!['-'] + decimal((-n) as nat)
    } else {
        decimal(n as nat)
    }
}

/// The decimal numeral of a number that may be negative.
pub fn to_signed_decimal(n: i64) -> (r: String)
    ensures
        r@ == signed_decimal(n as int),
{
    let mut out = String::new();
    if n < 0 {
        out.push('-');
        let size: u64 = (-(n as i128)) as u64;
        push_decimal(&mut out, size);
        assert(out@ =~= seq!['-'] + decimal((-n) as nat));
    } else {
        push_decimal(&mut out, n as u64);
        assert(out@ =~= decimal(n as nat));
    }
    out
}

/// The number of bytes that a string takes up.
pub open spec fn byte_len(s: Seq<char>) -> nat {
    encode_utf8(s).len()
}

/// The number of bytes that a string takes up.
pub fn len_bytes(s: &str) -> (r: usize)
    ensures
        r == byte_len(s@),
{
    s.as_bytes().len()
}

/// The last character boundary at or before byte `i`.
pub open spec fn floor_boundary(bytes: Seq<u8>, i: int) -> int
    decreases i,
{
    if i <= 0 {
        0
    } else if is_char_boundary(bytes, i) {
        i
    } else {
        floor_boundary(bytes, i - 1)
    }
}

/// The first character boundary at or after byte `i`.
pub open spec fn ceil_boundary(bytes: Seq<u8>, i: int) -> int
    decreases bytes.len() - i,
{
    if i >= bytes.len() {
        bytes.len() as int
    } else if is_char_boundary(bytes, i) {
        i
    } else {
        ceil_boundary(bytes, i + 1)
    }
}

/// The characters that the bytes from `from` up to `to` encode.
pub open spec fn byte_slice(s: Seq<char>, from: int, to: int) -> Seq<char> {
    decode_utf8(encode_utf8(s).subrange(from, to))
}

/// The string cut down to at most `max` bytes, between two characters.
pub open spec fn cut(s: Seq<char>, max: int) -> Seq<char> {
    if byte_len(s) <= max {
        s
    } else {
        byte_slice(s, 0, floor_boundary(encode_utf8(s), max))
    }
}

/// The end of the string, of at most `max` bytes, cut between two characters.
pub open spec fn tail_cut(s: Seq<char>, max: int) -> Seq<char> {
    if byte_len(s) <= max {
        s
    } else {
        byte_slice(s, ceil_boundary(encode_utf8(s), byte_len(s) - max), byte_len(s) as int)
    }
}

/// The last character boundary at or before byte `i`.
pub fn floor_char_boundary(s: &str, i: usize) -> (r: usize)
    requires
        i <= byte_len(s@),
    ensures
        r == floor_boundary(encode_utf8(s@), i as int),
        r <= i,
        is_char_boundary(encode_utf8(s@), r as int),
{
    let ghost bytes = encode_utf8(s@);
    proof {
        encode_utf8_valid_utf8(s@);
        is_char_boundary_start_end_of_seq(bytes);
    }
    let mut j: usize = i;
    while j > 0 && !s.is_char_boundary(j)
        invariant
            j <= i,
            bytes == encode_utf8(s@),
            floor_boundary(bytes, j as int) == floor_boundary(bytes, i as int),
        decreases j,
    {
        j = j - 1;
    }
    j
}

/// The first character boundary at or after byte `i`.
pub fn ceil_char_boundary(s: &str, i: usize) -> (r: usize)
    requires
        i <= byte_len(s@),
    ensures
        r == ceil_boundary(encode_utf8(s@), i as int),
        i <= r <= byte_len(s@),
        is_char_boundary(encode_utf8(s@), r as int),
{
    let ghost bytes = encode_utf8(s@);
    proof {
        encode_utf8_valid_utf8(s@);
        is_char_boundary_start_end_of_seq(bytes);
    }
    let n: usize = len_bytes(s);
    let mut j: usize = i;
    while j < n && !s.is_char_boundary(j)
        invariant
            i <= j <= n,
            n == bytes.len(),
            bytes == encode_utf8(s@),
            ceil_boundary(bytes, j as int) == ceil_boundary(bytes, i as int),
        decreases n - j,
    {
        j = j + 1;
    }
    j
}

/// The characters before byte `to`, which is a character boundary.
pub fn head(s: &str, to: usize) -> (r: &str)
    requires
        is_char_boundary(encode_utf8(s@), to as int),
    ensures
        r@ == byte_slice(s@, 0, to as int),
        encode_utf8(r@) == encode_utf8(s@).subrange(0, to as int),
{
    let (first, second) = s.split_at(to);
    proof {
        encode_utf8_decode_utf8(first@);
    }
    first
}

/// The characters from byte `from` on, which is a character boundary.
pub fn rest(s: &str, from: usize) -> (r: &str)
    requires
        is_char_boundary(encode_utf8(s@), from as int),
    ensures
        r@ == byte_slice(s@, from as int, byte_len(s@) as int),
        encode_utf8(r@) == encode_utf8(s@).subrange(from as int, byte_len(s@) as int),
{
    let (first, second) = s.split_at(from);
    proof {
        encode_utf8_decode_utf8(second@);
    }
    second
}

/// The string cut down to at most `max` bytes, between two characters.
pub fn truncate_str(s: &str, max: usize) -> (r: &str)
    ensures
        r@ == cut(s@, max as int),
        byte_len(r@) <= max,
        byte_len(r@) <= byte_len(s@),
{
    if len_bytes(s) <= max {
        s
    } else {
        head(s, floor_char_boundary(s, max))
    }
}

/// The end of the string, of at most `max` bytes, cut between two characters.
pub fn tail_str(s: &str, max: usize) -> (r: &str)
    ensures
        r@ == tail_cut(s@, max as int),
        byte_len(r@) <= max,
        byte_len(r@) <= byte_len(s@),
{
    let n = len_bytes(s);
    if n <= max {
        s
    } else {
        rest(s, ceil_char_boundary(s, n - max))
    }
}


/// The first place at or after `from` where `needle` stands in `s`.
pub open spec fn first_occurrence(s: Seq<char>, needle: Seq<char>, from: int) -> Option<int>
    decreases s.len() + 1 - from,
{
    if from < 0 || from + needle.len() > s.len() {
        None
    } else if occurs_at(needle, s, from) {
        Some(from)
    } else {
        first_occurrence(s, needle, from + 1)
    }
}

/// The parts of `s` between the places where `separator` stands, from the left.
pub open spec fn split_parts(s: Seq<char>, separator: Seq<char>) -> Seq<Seq<char>>
    decreases s.len(),
{
    match first_occurrence(s, separator, 0) {
        Some(i) => if separator.len() > 0 && 0 <= i && i + separator.len() <= s.len() {
            seq![s.take(i)] + split_parts(s.skip(i + separator.len()), separator)
        } else {
            seq![s]
        },
        None => seq![s],
    }
}

/// A place where the needle stands, with none before it, is the first one.
pub proof fn lemma_first_occurrence(s: Seq<char>, needle: Seq<char>, from: int, i: int)
    requires
        0 <= from <= i,
        occurs_at(needle, s, i),
        forall|j: int| from <= j < i ==> !occurs_at(needle, s, j),
    ensures
        first_occurrence(s, needle, from) == Some(i),
    decreases i - from,
{
    if from < i {
        lemma_first_occurrence(s, needle, from + 1, i);
    }
}

proof fn lemma_no_occurrence(s: Seq<char>, needle: Seq<char>, from: int)
    requires
        0 <= from,
        forall|j: int| from <= j ==> !occurs_at(needle, s, j),
    ensures
        first_occurrence(s, needle, from) is None,
    decreases s.len() + 1 - from,
{
    if from + needle.len() <= s.len() {
        lemma_no_occurrence(s, needle, from + 1);
    }
}

/// A text after a separator of one character that does not hold it is one more part.
pub proof fn lemma_split_join(a: Seq<char>, c: char, b: Seq<char>)
    requires
        !b.contains(c),
    ensures
        split_parts(a + seq![c] + b, seq![c]) == split_parts(a, seq![c]).push(b),
    decreases a.len(),
{
    let whole = a + seq![c] + b;
    let needle = seq![c];
    assert forall|s: Seq<char>, j: int| #[trigger] occurs_at(needle, s, j) <==> 0 <= j < s.len()
        && s[j] == c by {
        if 0 <= j < s.len() {
            assert(s.subrange(j, j + 1) =~= seq![s[j]]);
            assert(seq![s[j]][0] == s[j] && needle[0] == c);
        }
    }
    if a.contains(c) {
        let at = a.index_of_first(c)->Some_0;
        a.index_of_first_ensures(c);
        assert(occurs_at(needle, a, at));
        assert(occurs_at(needle, whole, at)) by {
            assert(whole[at] == a[at]);
        }
        assert forall|j: int| 0 <= j < at implies !occurs_at(needle, whole, j) by {
            assert(whole[j] == a[j]);
        }
        lemma_first_occurrence(a, needle, 0, at);
        lemma_first_occurrence(whole, needle, 0, at);
        lemma_split_join(a.skip(at + 1), c, b);
        assert(whole.skip(at + 1) =~= a.skip(at + 1) + seq![c] + b);
        assert(whole.take(at) =~= a.take(at));
        assert(split_parts(a, needle) == seq![a.take(at)] + split_parts(a.skip(at + 1), needle));
        assert(seq![a.take(at)] + split_parts(a.skip(at + 1), needle).push(b) =~= (seq![a.take(at)]
            + split_parts(a.skip(at + 1), needle)).push(b));
    } else {
        let at = a.len() as int;
        assert(occurs_at(needle, whole, at)) by {
            assert(whole[at] == c);
        }
        assert forall|j: int| 0 <= j < at implies !occurs_at(needle, whole, j) by {
            assert(whole[j] == a[j]);
            assert(a.contains(a[j]));
        }
        lemma_first_occurrence(whole, needle, 0, at);
        assert(whole.take(at) =~= a);
        assert(whole.skip(at + 1) =~= b);
        assert forall|j: int| 0 <= j implies !occurs_at(needle, a, j) by {
            if j < a.len() {
                assert(a.contains(a[j]));
            }
        }
        assert forall|j: int| 0 <= j implies !occurs_at(needle, b, j) by {
            if j < b.len() {
                assert(b.contains(b[j]));
            }
        }
        lemma_no_occurrence(a, needle, 0);
        lemma_no_occurrence(b, needle, 0);
        assert(split_parts(a, needle) == seq![a]);
        assert(split_parts(b, needle) == seq![b]);
        assert(seq![a] + seq![b] =~= seq![a].push(b));
    }
}

/// No part holds a separator of one character.
pub proof fn lemma_parts_without(s: Seq<char>, c: char, i: int)
    requires
        0 <= i < split_parts(s, seq![c]).len(),
    ensures
        !split_parts(s, seq![c])[i].contains(c),
    decreases s.len(),
{
    let needle = seq![c];
    assert forall|j: int| #[trigger] occurs_at(needle, s, j) <==> 0 <= j < s.len() && s[j] == c by {
        if 0 <= j < s.len() {
            assert(s.subrange(j, j + 1) =~= seq![s[j]]);
            assert(seq![s[j]][0] == s[j] && needle[0] == c);
        }
    }
    if s.contains(c) {
        let at = s.index_of_first(c)->Some_0;
        s.index_of_first_ensures(c);
        assert(occurs_at(needle, s, at));
        lemma_first_occurrence(s, needle, 0, at);
        if i > 0 {
            lemma_parts_without(s.skip(at + 1), c, i - 1);
        } else if s.take(at).contains(c) {
            let j = choose|j: int| 0 <= j < at && s.take(at)[j] == c;
            assert(s[j] == c);
        }
    } else {
        assert forall|j: int| 0 <= j implies !occurs_at(needle, s, j) by {
            if j < s.len() {
                assert(s.contains(s[j]));
            }
        }
        lemma_no_occurrence(s, needle, 0);
    }
}

/// The first place where `needle` stands in `s`, counted in characters.
pub fn find(s: &[char], needle: &[char]) -> (r: Option<usize>)
    ensures
        first_occurrence(s@, needle@, 0) == match r {
            Some(i) => Some(i as int),
            None => None,
        },
        r matches Some(i) ==> i + needle@.len() <= s@.len(),
{
    let r = find_from(s, 0, needle);
    proof {
        match r {
            Some(i) => lemma_first_occurrence(s@, needle@, 0, i as int),
            None => lemma_no_occurrence(s@, needle@, 0),
        }
    }
    r
}

/// What stands before and behind the first place where `separator` stands in `s`.
pub open spec fn parts_around(s: Seq<char>, separator: Seq<char>) -> Option<(Seq<char>, Seq<char>)> {
    match first_occurrence(s, separator, 0) {
        Some(i) => Some((s.take(i), s.skip(i + separator.len()))),
        None => None,
    }
}

/// What stands before and behind the first place where `separator` stands in `s`.
pub fn split_once(s: &str, separator: &str) -> (r: Option<(String, String)>)
    ensures
        parts_around(s@, separator@) == match r {
            Some(p) => Some((p.0@, p.1@)),
            None => None,
        },
{
    let a = chars_of(s);
    let sep = chars_of(separator);
    let n = a.len();
    match find(a.as_slice(), sep.as_slice()) {
        Some(i) => {
            assert(i + sep@.len() <= n);
            let before = string_of(vstd::slice::slice_subrange(a.as_slice(), 0, i));
            let behind = string_of(
                vstd::slice::slice_subrange(a.as_slice(), i + sep.len(), n),
            );
            assert(before@ =~= s@.take(i as int));
            assert(behind@ =~= s@.skip(i + separator@.len()));
            Some((before, behind))
        },
        None => None,
    }
}

/// The parts of `s` between the places where `separator` stands, from the left.
pub fn split(s: &str, separator: &str) -> (r: Vec<String>)
    requires
        separator@.len() > 0,
    ensures
        texts(r@) == split_parts(s@, separator@),
{
    let a = chars_of(s);
    let sep = chars_of(separator);
    let mut out: Vec<String> = Vec::new();
    let mut start: usize = 0;
    assert(a@.skip(0) =~= a@);
    assert(texts(out@) + split_parts(a@, separator@) =~= split_parts(a@, separator@));
    loop
        invariant
            start <= a@.len(),
            a@ == s@,
            sep@ == separator@,
            separator@.len() > 0,
            texts(out@) + split_parts(a@.skip(start as int), separator@) == split_parts(
                s@,
                separator@,
            ),
        decreases a@.len() - start,
    {
        let part = vstd::slice::slice_subrange(a.as_slice(), start, a.len());
        assert(part@ =~= a@.skip(start as int));
        let ghost before = texts(out@);
        match find(part, sep.as_slice()) {
            Some(i) => {
                let piece = string_of(vstd::slice::slice_subrange(part, 0, i));
                out.push(piece);
                proof {
                    let next = start + i + separator@.len();
                    assert(piece@ =~= part@.take(i as int));
                    assert(part@.skip(i + separator@.len()) =~= a@.skip(next as int));
                    assert(texts(out@) =~= before.push(piece@));
                    assert(before + (seq![piece@] + split_parts(a@.skip(next as int), separator@))
                        =~= before.push(piece@) + split_parts(a@.skip(next as int), separator@));
                }
                start = start + i + sep.len();
            },
            None => {
                let piece = string_of(part);
                out.push(piece);
                assert(texts(out@) =~= before + seq![piece@]);
                return out;
            },
        }
    }
}


/// A line without the carriage return that ends it.
pub open spec fn without_return(line: Seq<char>) -> Seq<char> {
    if line.len() > 0 && line.last() == '\r' {
        line.drop_last()
    } else {
        line
    }
}

/// The lines that parts between line feeds stand for: each but the last without a
/// carriage return at its end, and the last only where it is not empty.
pub open spec fn lines_of_parts(parts: Seq<Seq<char>>) -> Seq<Seq<char>> {
    let ended = parts.drop_last().map_values(|p: Seq<char>| without_return(p));
    if parts.last().len() == 0 {
        ended
    } else {
        ended.push(parts.last())
    }
}

/// The lines of a text.
pub open spec fn line_texts(s: Seq<char>) -> Seq<Seq<char>> {
    lines_of_parts(split_parts(s, "\n"@))
}

proof fn lemma_split_nonempty(s: Seq<char>, separator: Seq<char>)
    ensures
        split_parts(s, separator).len() > 0,
{
}

/// The lines of a text.
pub fn lines(s: &str) -> (r: Vec<String>)
    ensures
        texts(r@) == line_texts(s@),
{
    proof {
        reveal_strlit("\n");
        lemma_split_nonempty(s@, "\n"@);
    }
    let parts = split(s, "\n");
    let ghost all = texts(parts@);
    let ghost ended = all.drop_last().map_values(|p: Seq<char>| without_return(p));
    let n = parts.len();
    assert(n > 0) by {
        assert(all.len() == n);
    }
    let mut out: Vec<String> = Vec::new();
    assert(texts(out@) =~= ended.take(0));
    let mut i: usize = 0;
    while i < n - 1
        invariant
            i <= n - 1,
            n == parts@.len(),
            n > 0,
            all == texts(parts@),
            ended == all.drop_last().map_values(|p: Seq<char>| without_return(p)),
            texts(out@) == ended.take(i as int),
        decreases n - i,
    {
        let ghost before = texts(out@);
        let part = chars_of(parts[i].as_str());
        let len = part.len();
        let line = if len > 0 && part[len - 1] == '\r' {
            string_of(vstd::slice::slice_subrange(part.as_slice(), 0, len - 1))
        } else {
            string_of(part.as_slice())
        };
        assert(line@ =~= without_return(all[i as int]));
        out.push(line);
        assert(texts(out@) =~= before.push(ended[i as int]));
        i = i + 1;
        assert(texts(out@) =~= ended.take(i as int));
    }
    assert(ended.take(n - 1) =~= ended);
    assert(all.last() == parts@[n - 1]@);
    if parts[n - 1].as_str().unicode_len() > 0 {
        out.push(parts[n - 1].clone());
        assert(texts(out@) =~= ended.push(all.last()));
    }
    out
}

/// How many characters there are before the first whitespace.
pub open spec fn word_len(s: Seq<char>) -> nat
    decreases s.len(),
{
    if s.len() == 0 || is_space(s[0]) {
        0
    } else {
        1 + word_len(s.drop_first())
    }
}

proof fn lemma_word_len(s: Seq<char>)
    ensures
        word_len(s) <= s.len(),
    decreases s.len(),
{
    if s.len() > 0 && !is_space(s[0]) {
        lemma_word_len(s.drop_first());
    }
}

/// The words of a text: what stands between whitespace.
pub open spec fn words_of(s: Seq<char>) -> Seq<Seq<char>>
    decreases s.len(),
{
    if s.len() == 0 {
        Seq::empty()
    } else if is_space(s[0]) {
        words_of(s.drop_first())
    } else if word_len(s) <= s.len() {
        seq![s.take(word_len(s) as int)] + words_of(s.skip(word_len(s) as int))
    } else {
        Seq::empty()
    }
}

/// The words of a text.
pub fn words(s: &str) -> (r: Vec<String>)
    ensures
        texts(r@) == words_of(s@),
{
    let a = chars_of(s);
    let mut out: Vec<String> = Vec::new();
    let mut i: usize = 0;
    assert(a@.skip(0) =~= a@);
    assert(texts(out@) + words_of(a@) =~= words_of(a@));
    while i < a.len()
        invariant
            i <= a@.len(),
            a@ == s@,
            texts(out@) + words_of(a@.skip(i as int)) == words_of(s@),
        decreases a.len() - i,
    {
        let ghost left = a@.skip(i as int);
        let ghost before = texts(out@);
        proof {
            lemma_word_len(left);
        }
        if is_whitespace(a[i]) {
            assert(left.drop_first() =~= a@.skip(i + 1));
            i = i + 1;
        } else {
            let mut j: usize = i + 1;
            assert(left.drop_first() =~= a@.skip(i + 1));
            while j < a.len() && !is_whitespace(a[j])
                invariant
                    i < j <= a@.len(),
                    left == a@.skip(i as int),
                    word_len(left) == (j - i) + word_len(a@.skip(j as int)),
                decreases a.len() - j,
            {
                assert(a@.skip(j as int).drop_first() =~= a@.skip(j + 1));
                j = j + 1;
            }
            let word = string_of(vstd::slice::slice_subrange(a.as_slice(), i, j));
            proof {
                assert(word_len(left) == j - i);
                assert(word@ =~= left.take(j - i));
                assert(left.skip(j - i) =~= a@.skip(j as int));
            }
            out.push(word);
            assert(texts(out@) =~= before.push(word@));
            assert(before + (seq![word@] + words_of(a@.skip(j as int))) =~= before.push(word@)
                + words_of(a@.skip(j as int)));
            i = j;
        }
    }
    assert(a@.skip(i as int) =~= Seq::empty());
    assert(texts(out@) + Seq::empty() =~= texts(out@));
    out
}

/// Whether a character controls a terminal, other than a line feed and a tab.
pub open spec fn is_control(c: char) -> bool {
    (c as u32) < 0x20 && c != '\n' && c != '\t' || 0x7f <= (c as u32) <= 0x9f
}

/// A text without characters that control a terminal.
pub open spec fn sanitized(s: Seq<char>) -> Seq<char> {
    s.filter(|c: char| !is_control(c))
}

/// A text that is safe to show: without characters that control a terminal.
pub fn sanitize_terminal_text(s: &str) -> (r: String)
    ensures
        r@ == sanitized(s@),
{
    let chars = chars_of(s);
    let ghost keep = |c: char| !is_control(c);
    let mut out = String::new();
    proof {
        reveal(Seq::filter);
    }
    assert(out@ =~= chars@.take(0).filter(keep));
    let mut i: usize = 0;
    while i < chars.len()
        invariant
            i <= chars@.len(),
            keep == (|c: char| !is_control(c)),
            out@ == chars@.take(i as int).filter(keep),
        decreases chars.len() - i,
    {
        proof {
            reveal(Seq::filter);
            assert(chars@.take(i + 1).drop_last() =~= chars@.take(i as int));
        }
        let c = chars[i];
        let code = c as u32;
        let control = (code < 0x20 && c != '\n' && c != '\t') || (0x7f <= code && code <= 0x9f);
        if !control {
            out.push(c);
        }
        i = i + 1;
    }
    assert(chars@.take(chars@.len() as int) =~= chars@);
    out
}

/// The bytes of two strings in turn.
pub proof fn lemma_encode_concat(a: Seq<char>, b: Seq<char>)
    ensures
        encode_utf8(a + b) == encode_utf8(a) + encode_utf8(b),
    decreases a.len(),
{
    if a.len() == 0 {
        assert(a + b =~= b);
        assert(encode_utf8(a) + encode_utf8(b) =~= encode_utf8(b));
    } else {
        lemma_encode_concat(a.drop_first(), b);
        assert((a + b).drop_first() =~= a.drop_first() + b);
        assert((a + b)[0] == a[0]);
        assert(encode_utf8(a + b) =~= encode_utf8(a) + encode_utf8(b));
    }
}

/// A decimal numeral has as many digits as it takes, all of them ASCII.
pub proof fn lemma_decimal_len(n: nat, digits: nat, bound: nat)
    requires
        digits >= 1,
        bound == power_of_ten(digits),
        n < bound,
    ensures
        1 <= decimal(n).len() <= digits,
        byte_len(decimal(n)) == decimal(n).len(),
    decreases n,
{
    lemma_decimal_ascii(n);
    vstd::utf8::is_ascii_chars_encode_utf8(decimal(n));
    if n >= 10 {
        assert(digits > 1) by {
            reveal_with_fuel(power_of_ten, 2);
        }
        assert(bound == 10 * power_of_ten((digits - 1) as nat));
        lemma_decimal_len(n / 10, (digits - 1) as nat, power_of_ten((digits - 1) as nat));
    }
}

/// The power of ten.
pub open spec fn power_of_ten(digits: nat) -> nat
    decreases digits,
{
    if digits == 0 {
        1
    } else {
        10 * power_of_ten((digits - 1) as nat)
    }
}

proof fn lemma_decimal_ascii(n: nat)
    ensures
        vstd::utf8::is_ascii_chars(decimal(n)),
    decreases n,
{
    if n >= 10 {
        lemma_decimal_ascii(n / 10);
    }
}

/// What is shown holds no character that controls a terminal, and showing it again changes
/// nothing.
pub proof fn law_sanitized(s: Seq<char>)
    ensures
        forall|i: int| 0 <= i < sanitized(s).len() ==> !is_control(#[trigger] sanitized(s)[i]),
        sanitized(sanitized(s)) == sanitized(s),
    decreases s.len(),
{
    reveal(Seq::filter);
    if s.len() > 0 {
        law_sanitized(s.drop_last());
        let before = sanitized(s.drop_last());
        if !is_control(s.last()) {
            assert(sanitized(s) == before.push(s.last()));
            assert(sanitized(s).drop_last() =~= before);
        } else {
            assert(sanitized(s) == before);
        }
    }
}

} // verus!
