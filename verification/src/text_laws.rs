//! What cutting, splitting and writing out texts keep.

use vstd::prelude::*;
use vstd::utf8::{
    encode_utf8, encode_utf8_decode_utf8, encode_utf8_first_scalar, encode_utf8_valid_utf8,
    is_char_boundary, length_of_first_scalar, pop_first_scalar,
};
use crate::text::{
    byte_len, byte_slice, ceil_boundary, cut, decimal, first_occurrence, floor_boundary, joined,
    is_space, lemma_encode_concat, lemma_first_occurrence, line_texts, lines_of_parts, occurs,
    occurs_at, split_parts, tail_cut, trimmed, trimmed_end, trimmed_start, without_return, word_len,
    words_of,
};

verus! {

proof fn lemma_boundary_of(s: Seq<char>, k: int)
    requires
        0 <= k <= s.len(),
    ensures
        byte_len(s.take(k)) <= byte_len(s),
        is_char_boundary(encode_utf8(s), byte_len(s.take(k)) as int),
    decreases s.len(),
{
    let bytes = encode_utf8(s);
    encode_utf8_valid_utf8(s);
    lemma_encode_concat(s.take(k), s.skip(k));
    assert(s.take(k) + s.skip(k) =~= s);
    if k > 0 {
        let rest = s.drop_first();
        encode_utf8_first_scalar(s);
        assert(pop_first_scalar(bytes) =~= encode_utf8(rest));
        lemma_boundary_of(rest, k - 1);
        assert(s.take(k).drop_first() =~= rest.take(k - 1));
        assert(s.take(k)[0] == s[0]);
    } else {
        assert(s.take(k) =~= Seq::empty());
    }
}

proof fn lemma_place_of(s: Seq<char>, i: int) -> (k: int)
    requires
        is_char_boundary(encode_utf8(s), i),
    ensures
        0 <= k <= s.len(),
        byte_len(s.take(k)) == i,
    decreases s.len(),
{
    let bytes = encode_utf8(s);
    encode_utf8_valid_utf8(s);
    if i == 0 {
        assert(s.take(0) =~= Seq::empty());
        0
    } else {
        let rest = s.drop_first();
        encode_utf8_first_scalar(s);
        assert(pop_first_scalar(bytes) =~= encode_utf8(rest));
        let k = lemma_place_of(rest, i - length_of_first_scalar(bytes));
        assert(s.take(k + 1).drop_first() =~= rest.take(k));
        assert(s.take(k + 1)[0] == s[0]);
        k + 1
    }
}

proof fn lemma_slices(s: Seq<char>, k: int)
    requires
        0 <= k <= s.len(),
    ensures
        byte_slice(s, 0, byte_len(s.take(k)) as int) == s.take(k),
        byte_slice(s, byte_len(s.take(k)) as int, byte_len(s) as int) == s.skip(k),
        byte_len(s) == byte_len(s.take(k)) + byte_len(s.skip(k)),
{
    let bytes = encode_utf8(s);
    let n = byte_len(s.take(k)) as int;
    lemma_encode_concat(s.take(k), s.skip(k));
    assert(s.take(k) + s.skip(k) =~= s);
    assert(bytes.subrange(0, n) =~= encode_utf8(s.take(k)));
    assert(bytes.subrange(n, bytes.len() as int) =~= encode_utf8(s.skip(k)));
    encode_utf8_decode_utf8(s.take(k));
    encode_utf8_decode_utf8(s.skip(k));
}

proof fn lemma_floor(bytes: Seq<u8>, i: int)
    requires
        0 <= i,
        is_char_boundary(bytes, 0),
    ensures
        0 <= floor_boundary(bytes, i) <= i,
        is_char_boundary(bytes, floor_boundary(bytes, i)),
        forall|j: int|
            floor_boundary(bytes, i) < j <= i ==> !#[trigger] is_char_boundary(bytes, j),
    decreases i,
{
    if i > 0 && !is_char_boundary(bytes, i) {
        lemma_floor(bytes, i - 1);
    }
}

proof fn lemma_ceil(bytes: Seq<u8>, i: int)
    requires
        0 <= i <= bytes.len(),
        is_char_boundary(bytes, bytes.len() as int),
    ensures
        i <= ceil_boundary(bytes, i) <= bytes.len(),
        is_char_boundary(bytes, ceil_boundary(bytes, i)),
        forall|j: int| i <= j < ceil_boundary(bytes, i) ==> !#[trigger] is_char_boundary(bytes, j),
    decreases bytes.len() - i,
{
    if i < bytes.len() && !is_char_boundary(bytes, i) {
        lemma_ceil(bytes, i + 1);
    }
}

/// A text is cut down to its longest beginning that takes up no more bytes than allowed.
pub proof fn law_cut(s: Seq<char>, max: int)
    requires
        0 <= max,
    ensures
        cut(s, max).is_prefix_of(s),
        byte_len(cut(s, max)) <= max,
        cut(s, max).len() < s.len() ==> byte_len(s.take(cut(s, max).len() as int + 1)) > max,
{
    let bytes = encode_utf8(s);
    encode_utf8_valid_utf8(s);
    if byte_len(s) > max {
        lemma_boundary_of(s, 0);
        assert(s.take(0) =~= Seq::empty());
        lemma_floor(bytes, max);
        let at = floor_boundary(bytes, max);
        let k = lemma_place_of(s, at);
        lemma_slices(s, k);
        assert(cut(s, max) == s.take(k));
        if k < s.len() {
            lemma_boundary_of(s, k + 1);
            let next = byte_len(s.take(k + 1)) as int;
            assert(s.take(k + 1) =~= s.take(k) + seq![s[k]]);
            lemma_encode_concat(s.take(k), seq![s[k]]);
            encode_utf8_first_scalar(seq![s[k]]);
            assert(next > at);
        }
    }
}

/// The end of a text is its longest end that takes up no more bytes than allowed.
pub proof fn law_tail_cut(s: Seq<char>, max: int)
    requires
        0 <= max,
    ensures
        tail_cut(s, max).is_suffix_of(s),
        byte_len(tail_cut(s, max)) <= max,
        tail_cut(s, max).len() < s.len() ==> byte_len(
            s.skip(s.len() - tail_cut(s, max).len() - 1),
        ) > max,
{
    let bytes = encode_utf8(s);
    encode_utf8_valid_utf8(s);
    if byte_len(s) > max {
        lemma_boundary_of(s, s.len() as int);
        assert(s.take(s.len() as int) =~= s);
        let from = byte_len(s) - max;
        lemma_ceil(bytes, from);
        let at = ceil_boundary(bytes, from);
        let k = lemma_place_of(s, at);
        lemma_slices(s, k);
        assert(tail_cut(s, max) == s.skip(k));
        assert(s.subrange(s.len() - s.skip(k).len(), s.len() as int) =~= s.skip(k));
        if k > 0 {
            lemma_boundary_of(s, k - 1);
            lemma_slices(s, k - 1);
            let before = byte_len(s.take(k - 1)) as int;
            assert(s.take(k) =~= s.take(k - 1) + seq![s[k - 1]]);
            lemma_encode_concat(s.take(k - 1), seq![s[k - 1]]);
            encode_utf8_first_scalar(seq![s[k - 1]]);
            assert(before < at);
        }
    } else {
        assert(s.subrange(0, s.len() as int) =~= s);
    }
}

proof fn lemma_joined_first(parts: Seq<Seq<char>>, separator: Seq<char>)
    requires
        parts.len() > 1,
    ensures
        joined(parts, separator) == parts[0] + separator + joined(parts.drop_first(), separator),
    decreases parts.len(),
{
    let rest = parts.drop_first();
    if parts.len() == 2 {
        assert(joined(parts.drop_last(), separator) == parts[0]);
        assert(joined(rest, separator) == parts[1]);
    } else {
        lemma_joined_first(parts.drop_last(), separator);
        assert(parts.drop_last().drop_first() =~= rest.drop_last());
        assert(joined(rest, separator) == joined(rest.drop_last(), separator) + separator
            + rest.last());
        assert(joined(parts, separator) =~= parts[0] + separator + joined(rest, separator));
    }
}

proof fn lemma_found(s: Seq<char>, needle: Seq<char>, from: int)
    requires
        first_occurrence(s, needle, from) is Some,
    ensures
        occurs_at(needle, s, first_occurrence(s, needle, from)->Some_0),
    decreases s.len() + 1 - from,
{
    if !occurs_at(needle, s, from) {
        lemma_found(s, needle, from + 1);
    }
}

proof fn lemma_not_before(s: Seq<char>, needle: Seq<char>, from: int, j: int)
    requires
        0 <= from <= j,
        occurs_at(needle, s, j),
    ensures
        first_occurrence(s, needle, from) matches Some(i) && i <= j,
    decreases j - from,
{
    if !occurs_at(needle, s, from) {
        lemma_not_before(s, needle, from + 1, j);
    }
}

/// The parts that a text is split into, with the separator between each two of them, are
/// the text again; and no part holds the separator.
pub proof fn law_split(s: Seq<char>, separator: Seq<char>)
    requires
        separator.len() > 0,
    ensures
        split_parts(s, separator).len() > 0,
        joined(split_parts(s, separator), separator) == s,
        forall|i: int, j: int|
            0 <= i < split_parts(s, separator).len() ==> !#[trigger] occurs_at(
                separator,
                split_parts(s, separator)[i],
                j,
            ),
    decreases s.len(),
{
    let parts = split_parts(s, separator);
    match first_occurrence(s, separator, 0) {
        Some(at) => {
            lemma_found(s, separator, 0);
            let rest = s.skip(at + separator.len());
            law_split(rest, separator);
            let others = split_parts(rest, separator);
            assert(parts == seq![s.take(at)] + others);
            assert(parts.drop_first() =~= others);
            lemma_joined_first(parts, separator);
            assert(s.subrange(at, at + separator.len()) == separator);
            assert(s.take(at) + separator + rest =~= s);
            assert forall|i: int, j: int| 0 <= i < parts.len() implies !#[trigger] occurs_at(
                separator,
                parts[i],
                j,
            ) by {
                if i > 0 {
                    assert(parts[i] == others[i - 1]);
                    assert(!occurs_at(separator, others[i - 1], j));
                } else if occurs_at(separator, parts[i], j) {
                    assert(s.subrange(j, j + separator.len()) =~= s.take(at).subrange(
                        j,
                        j + separator.len(),
                    ));
                    lemma_not_before(s, separator, 0, j);
                }
            }
        },
        None => {
            assert forall|i: int, j: int| 0 <= i < parts.len() implies !#[trigger] occurs_at(
                separator,
                parts[i],
                j,
            ) by {
                if occurs_at(separator, s, j) {
                    lemma_not_before(s, separator, 0, j);
                }
            }
        },
    }
}

/// The number that a decimal numeral stands for.
pub open spec fn number_of(digits: Seq<char>) -> int
    decreases digits.len(),
{
    if digits.len() == 0 {
        0
    } else {
        10 * number_of(digits.drop_last()) + (digits.last() as int - '0' as int)
    }
}

/// The decimal numeral of a number stands for it, is made of digits, and has no zero in
/// front unless it is the numeral of zero.
pub proof fn law_decimal(n: nat)
    ensures
        number_of(decimal(n)) == n,
        decimal(n).len() > 0,
        forall|i: int| 0 <= i < decimal(n).len() ==> '0' <= #[trigger] decimal(n)[i] <= '9',
        n > 0 ==> decimal(n)[0] != '0',
    decreases n,
{
    reveal_with_fuel(number_of, 2);
    if n < 10 {
        assert(decimal(n).drop_last() =~= Seq::empty());
    } else {
        law_decimal(n / 10);
        assert(decimal(n).drop_last() =~= decimal(n / 10));
        assert(decimal(n)[0] == decimal(n / 10)[0]);
    }
}

/// A text stands between others.
pub proof fn lemma_between(a: Seq<char>, b: Seq<char>, c: Seq<char>)
    ensures
        occurs(b, a + b + c),
{
    assert((a + b + c).subrange(a.len() as int, (a.len() + b.len()) as int) =~= b);
    assert(occurs_at(b, a + b + c, a.len() as int));
}

/// A text stands at the end of another.
pub proof fn lemma_at_end(a: Seq<char>, b: Seq<char>)
    ensures
        occurs(b, a + b),
{
    lemma_between(a, b, Seq::empty());
    assert(a + b + Seq::<char>::empty() =~= a + b);
}

/// What stands in a text stands wherever that text does.
pub proof fn lemma_occurs_in(a: Seq<char>, b: Seq<char>, c: Seq<char>)
    requires
        occurs(a, b),
        occurs(b, c),
    ensures
        occurs(a, c),
{
    let i = choose|i: int| occurs_at(a, b, i);
    let j = choose|j: int| occurs_at(b, c, j);
    let inside = c.subrange(j, j + b.len());
    assert(inside == b);
    assert(c.subrange(i + j, i + j + a.len()) =~= inside.subrange(i, i + a.len()));
    assert(occurs_at(a, c, i + j));
}

/// What stands in the front part of a text stands in the text.
pub proof fn lemma_in_front(x: Seq<char>, front: Seq<char>, more: Seq<char>)
    requires
        occurs(x, front),
    ensures
        occurs(x, front + more),
{
    lemma_between(Seq::empty(), front, more);
    assert(Seq::<char>::empty() + front + more =~= front + more);
    lemma_occurs_in(x, front, front + more);
}

/// What stands in the rear part of a text stands in the text.
pub proof fn lemma_in_rear(x: Seq<char>, before: Seq<char>, rear: Seq<char>)
    requires
        occurs(x, rear),
    ensures
        occurs(x, before + rear),
{
    lemma_at_end(before, rear);
    lemma_occurs_in(x, rear, before + rear);
}

/// Each part stands in the text that parts make up.
pub proof fn law_joined(parts: Seq<Seq<char>>, separator: Seq<char>, i: int)
    requires
        0 <= i < parts.len(),
    ensures
        occurs(parts[i], joined(parts, separator)),
    decreases parts.len(),
{
    if parts.len() == 1 {
        lemma_at_end(Seq::empty(), parts[0]);
        assert(Seq::<char>::empty() + parts[0] =~= parts[0]);
    } else {
        let init = parts.drop_last();
        let before = joined(init, separator);
        if i < init.len() {
            law_joined(init, separator, i);
            assert(init[i] == parts[i]);
            lemma_between(Seq::empty(), before, separator + parts.last());
            assert(Seq::<char>::empty() + before + (separator + parts.last()) =~= before + separator
                + parts.last());
            lemma_occurs_in(parts[i], before, joined(parts, separator));
        } else {
            lemma_at_end(before + separator, parts.last());
        }
    }
}

/// Whether a text is whitespace only.
pub open spec fn all_spaces(s: Seq<char>) -> bool {
    forall|i: int| 0 <= i < s.len() ==> is_space(#[trigger] s[i])
}

proof fn lemma_trimmed_start(s: Seq<char>) -> (n: int)
    ensures
        0 <= n <= s.len(),
        all_spaces(s.take(n)),
        trimmed_start(s) == s.skip(n),
        n < s.len() ==> !is_space(s[n]),
    decreases s.len(),
{
    if s.len() > 0 && is_space(s[0]) {
        let m = lemma_trimmed_start(s.drop_first());
        let n = m + 1;
        assert forall|i: int| 0 <= i < s.take(n).len() implies is_space(
            #[trigger] s.take(n)[i],
        ) by {
            if i > 0 {
                assert(s.drop_first().take(m)[i - 1] == s[i]);
            }
        }
        assert(s.skip(n) =~= s.drop_first().skip(m));
        n
    } else {
        assert(s.skip(0) =~= s);
        0
    }
}

proof fn lemma_trimmed_end(s: Seq<char>) -> (n: int)
    ensures
        0 <= n <= s.len(),
        all_spaces(s.skip(n)),
        trimmed_end(s) == s.take(n),
        n > 0 ==> !is_space(s[n - 1]),
    decreases s.len(),
{
    if s.len() > 0 && is_space(s.last()) {
        let n = lemma_trimmed_end(s.drop_last());
        assert forall|i: int| 0 <= i < s.skip(n).len() implies is_space(
            #[trigger] s.skip(n)[i],
        ) by {
            if i < s.skip(n).len() - 1 {
                assert(s.drop_last().skip(n)[i] == s[n + i]);
            }
        }
        assert(s.take(n) =~= s.drop_last().take(n));
        n
    } else {
        assert(s.take(s.len() as int) =~= s);
        s.len() as int
    }
}

/// A text is what is left of it when it is trimmed, with whitespace and nothing else around
/// that; what is left neither begins nor ends with whitespace.
pub proof fn law_trimmed(s: Seq<char>) -> (around: (Seq<char>, Seq<char>))
    ensures
        s == around.0 + trimmed(s) + around.1,
        all_spaces(around.0),
        all_spaces(around.1),
        trimmed(s).len() > 0 ==> !is_space(trimmed(s)[0]) && !is_space(trimmed(s).last()),
{
    let n = lemma_trimmed_start(s);
    let rest = s.skip(n);
    let m = lemma_trimmed_end(rest);
    assert(s =~= s.take(n) + rest.take(m) + rest.skip(m));
    if m > 0 {
        assert(rest.take(m)[0] == s[n]);
        assert(rest.take(m).last() == rest[m - 1]);
    }
    (s.take(n), rest.skip(m))
}

/// The lines of a text are what stands between its line breaks, of either form; a line break at
/// its end opens no further line.
pub proof fn law_lines_of_text(line: Seq<char>, more: Seq<char>)
    requires
        !line.contains('\n'),
        line.len() == 0 || line.last() != '\r',
    ensures
        line_texts(line + "\n"@ + more) == seq![line] + line_texts(more),
        line_texts(line + "\r\n"@ + more) == seq![line] + line_texts(more),
        line.len() > 0 ==> line_texts(line) == seq![line],
        line_texts(Seq::empty()).len() == 0,
{
    reveal_strlit("\n");
    reveal_strlit("\r\n");
    let ending = "\n"@;
    assert(ending =~= seq!['\n']);
    let returned = line.push('\r');
    assert(line + "\r\n"@ + more =~= returned + ending + more);
    assert(!returned.contains('\n')) by {
        if returned.contains('\n') {
            let k = choose|k: int| 0 <= k < returned.len() && returned[k] == '\n';
            assert(line[k] == '\n');
        }
    }
    lemma_line_splits(line, more);
    lemma_line_splits(returned, more);
    assert(without_return(line) =~= line);
    assert(without_return(returned) =~= line);
    lemma_parts_lines(line, split_parts(more, ending));
    lemma_parts_lines(returned, split_parts(more, ending));
    lemma_one_part(line);
    lemma_one_part(Seq::empty());
    let single = seq![line];
    assert(single.drop_last() =~= Seq::empty());
    if line.len() > 0 {
        assert(lines_of_parts(single) =~= seq![line]);
    }
    let none = seq![Seq::<char>::empty()];
    assert(none.drop_last() =~= Seq::empty());
}

proof fn lemma_parts_lines(first: Seq<char>, parts: Seq<Seq<char>>)
    requires
        parts.len() > 0,
    ensures
        lines_of_parts(seq![first] + parts) == seq![without_return(first)] + lines_of_parts(parts),
{
    let all = seq![first] + parts;
    assert(all.last() == parts.last());
    assert(all.drop_last() =~= seq![first] + parts.drop_last());
    let mapped = all.drop_last().map_values(|p: Seq<char>| without_return(p));
    let others = parts.drop_last().map_values(|p: Seq<char>| without_return(p));
    assert(mapped =~= seq![without_return(first)] + others);
    assert((seq![without_return(first)] + others).push(parts.last()) =~= seq![
        without_return(first),
    ] + others.push(parts.last()));
}

proof fn lemma_one_part(line: Seq<char>)
    requires
        !line.contains('\n'),
    ensures
        split_parts(line, "\n"@) == seq![line],
{
    reveal_strlit("\n");
    law_split(line, "\n"@);
    match first_occurrence(line, "\n"@, 0) {
        Some(i) => {
            lemma_found(line, "\n"@, 0);
            assert(line.subrange(i, i + 1)[0] == line[i]);
            assert(line.contains(line[i]));
        },
        None => {},
    }
}

proof fn lemma_line_splits(line: Seq<char>, more: Seq<char>)
    requires
        !line.contains('\n'),
    ensures
        split_parts(line + "\n"@ + more, "\n"@) == seq![line] + split_parts(more, "\n"@),
        split_parts(more, "\n"@).len() > 0,
{
    reveal_strlit("\n");
    let separator = "\n"@;
    let whole = line + separator + more;
    let n = line.len() as int;
    law_split(more, separator);
    assert(whole.subrange(n, n + 1) =~= separator);
    assert(occurs_at(separator, whole, n));
    assert forall|j: int| 0 <= j < n implies !occurs_at(separator, whole, j) by {
        if occurs_at(separator, whole, j) {
            assert(whole.subrange(j, j + 1)[0] == whole[j]);
            assert(line.contains(line[j]));
        }
    }
    lemma_first_occurrence(whole, separator, 0, n);
    assert(whole.take(n) =~= line);
    assert(whole.skip(n + 1) =~= more);
}

/// The words of a text are what stands between its whitespace, in order; whitespace in front of
/// it makes no difference.
pub proof fn law_words(word: Seq<char>, space: char, more: Seq<char>)
    requires
        word.len() > 0,
        forall|i: int| 0 <= i < word.len() ==> !is_space(#[trigger] word[i]),
        is_space(space),
    ensures
        words_of(word.push(space) + more) == seq![word] + words_of(more),
        words_of(seq![space] + more) == words_of(more),
        words_of(word) == seq![word],
{
    let whole = word.push(space) + more;
    lemma_word_ends(word, whole);
    lemma_word_ends(word, word);
    let n = word.len() as int;
    assert(whole.take(n) =~= word);
    let rest = whole.skip(n);
    assert(rest =~= seq![space] + more);
    assert(rest.drop_first() =~= more);
    assert((seq![space] + more).drop_first() =~= more);
    assert(word.take(n) =~= word);
    assert(word.skip(n) =~= Seq::empty());
    assert(seq![word] + Seq::<Seq<char>>::empty() =~= seq![word]);
    assert(whole[0] == word[0]);
    assert(!is_space(word[0]));
    assert(words_of(rest) == words_of(more));
    assert(words_of(whole) == seq![whole.take(n)] + words_of(rest));
    assert(words_of(Seq::<char>::empty()) =~= Seq::empty());
    assert(words_of(word) == seq![word.take(n)] + words_of(word.skip(n)));
}

proof fn lemma_word_ends(word: Seq<char>, s: Seq<char>)
    requires
        word.is_prefix_of(s),
        forall|i: int| 0 <= i < word.len() ==> !is_space(#[trigger] word[i]),
        s.len() > word.len() ==> is_space(s[word.len() as int]),
    ensures
        word_len(s) == word.len(),
    decreases word.len(),
{
    assert(s.subrange(0, word.len() as int) == word);
    if word.len() > 0 {
        let rest = word.drop_first();
        assert(s.subrange(0, word.len() as int)[0] == s[0]);
        assert(s.drop_first().subrange(0, rest.len() as int) =~= rest) by {
            assert forall|i: int| 0 <= i < rest.len() implies s.drop_first()[i] == rest[i] by {
                assert(s.subrange(0, word.len() as int)[i + 1] == s[i + 1]);
            }
        }
        assert forall|i: int| 0 <= i < rest.len() implies !is_space(#[trigger] rest[i]) by {
            assert(rest[i] == word[i + 1]);
        }
        lemma_word_ends(rest, s.drop_first());
    }
}

} // verus!
