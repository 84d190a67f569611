//! Splitting a byte stream into UTF-8 lines.

use vstd::prelude::*;
use vstd::slice::slice_subrange;
use vstd::utf8::{decode_utf8, valid_utf8};
use crate::text;
use crate::text::{texts, utf8_error};

verus! {

/// A line without the carriage return that it may end with.
pub open spec fn without_return(line: Seq<u8>) -> Seq<u8> {
    if line.len() > 0 && line.last() == 13 {
        line.drop_last()
    } else {
        line
    }
}

/// The complete lines of a byte string, and the bytes after the last of them.
pub open spec fn split_lines(bytes: Seq<u8>) -> (Seq<Seq<u8>>, Seq<u8>)
    decreases bytes.len(),
{
    if bytes.len() == 0 {
        (Seq::empty(), Seq::empty())
    } else {
        let (lines, open_line) = split_lines(bytes.drop_last());
        if bytes.last() == 10 {
            (lines.push(without_return(open_line)), Seq::empty())
        } else {
            (lines, open_line.push(bytes.last()))
        }
    }
}

/// Whether every line is UTF-8.
pub open spec fn all_text(lines: Seq<Seq<u8>>) -> bool {
    forall|i: int| 0 <= i < lines.len() ==> valid_utf8(#[trigger] lines[i])
}

/// The characters of lines that are UTF-8.
pub open spec fn line_texts(lines: Seq<Seq<u8>>) -> Seq<Seq<char>> {
    Seq::new(lines.len(), |i: int| decode_utf8(lines[i]))
}

/// The first line that is not UTF-8.
pub open spec fn first_bad_line(lines: Seq<Seq<u8>>) -> Seq<u8>
    decreases lines.len(),
{
    if lines.len() == 0 {
        Seq::empty()
    } else if valid_utf8(lines[0]) {
        first_bad_line(lines.drop_first())
    } else {
        lines[0]
    }
}

proof fn lemma_first_bad_line(lines: Seq<Seq<u8>>, i: int)
    requires
        0 <= i < lines.len(),
        forall|k: int| 0 <= k < i ==> valid_utf8(#[trigger] lines[k]),
        !valid_utf8(lines[i]),
    ensures
        first_bad_line(lines) == lines[i],
    decreases i,
{
    if i > 0 {
        assert(valid_utf8(lines[0]));
        let tail = lines.drop_first();
        assert forall|k: int| 0 <= k < i - 1 implies valid_utf8(#[trigger] tail[k]) by {
            assert(tail[k] == lines[k + 1]);
        }
        lemma_first_bad_line(tail, i - 1);
    }
}

/// The views of a list of byte strings.
pub open spec fn byte_views(lines: Seq<Vec<u8>>) -> Seq<Seq<u8>> {
    Seq::new(lines.len(), |i: int| lines[i]@)
}

/// Appends a chunk to a buffer and takes the complete lines out of it.
pub fn take_lines(buffer: &mut Vec<u8>, chunk: &[u8]) -> (r: Vec<Vec<u8>>)
    ensures
        byte_views(r@) == split_lines(old(buffer)@ + chunk@).0,
        final(buffer)@ == split_lines(old(buffer)@ + chunk@).1,
{
    let mut lines: Vec<Vec<u8>> = Vec::new();
    let mut open_line: Vec<u8> = Vec::new();
    let ghost bytes = old(buffer)@ + chunk@;
    assert(byte_views(lines@) =~= Seq::empty());
    assert(bytes.take(0) =~= Seq::<u8>::empty());
    let first: usize = buffer.len();
    let mut i: usize = 0;
    while i < first
        invariant
            i <= first,
            first == buffer@.len(),
            *buffer == *old(buffer),
            bytes == old(buffer)@ + chunk@,
            split_lines(bytes.take(i as int)) == (byte_views(lines@), open_line@),
        decreases first - i,
    {
        let ghost next = bytes.take(i + 1);
        assert(next.drop_last() =~= bytes.take(i as int));
        assert(next.last() == buffer@[i as int]);
        take_byte(&mut lines, &mut open_line, buffer[i]);
        i = i + 1;
    }
    let mut j: usize = 0;
    while j < chunk.len()
        invariant
            j <= chunk@.len(),
            first == old(buffer)@.len(),
            bytes == old(buffer)@ + chunk@,
            split_lines(bytes.take(first + j)) == (byte_views(lines@), open_line@),
        decreases chunk.len() - j,
    {
        let ghost next = bytes.take(first + j + 1);
        assert(next.drop_last() =~= bytes.take(first + j));
        assert(next.last() == chunk@[j as int]);
        take_byte(&mut lines, &mut open_line, chunk[j]);
        j = j + 1;
    }
    assert(bytes.take(bytes.len() as int) =~= bytes);
    *buffer = open_line;
    lines
}

fn take_byte(lines: &mut Vec<Vec<u8>>, open_line: &mut Vec<u8>, byte: u8)
    ensures
        if byte == 10 {
            byte_views(final(lines)@) == byte_views(old(lines)@).push(
                without_return(old(open_line)@),
            ) && final(open_line)@ == Seq::<u8>::empty()
        } else {
            *final(lines) == *old(lines) && final(open_line)@ == old(open_line)@.push(byte)
        },
{
    if byte == 10 {
        let mut line: Vec<u8> = Vec::new();
        line.append(open_line);
        if line.len() > 0 && line[line.len() - 1] == 13 {
            let dropped = line.pop();
        }
        assert(line@ =~= without_return(old(open_line)@));
        lines.push(line);
        assert(byte_views(lines@) =~= byte_views(old(lines)@).push(
            without_return(old(open_line)@),
        ));
    } else {
        open_line.push(byte);
    }
}

/// Splits a byte stream into UTF-8 lines. Chunks may end in the middle of a
/// character, so only whole lines are decoded.
pub struct Utf8LineDecoder {
    buffer: Vec<u8>,
}

impl View for Utf8LineDecoder {
    type V = Seq<u8>;

    closed spec fn view(&self) -> Seq<u8> {
        self.buffer@
    }
}

impl Default for Utf8LineDecoder {
    fn default() -> (r: Utf8LineDecoder)
        ensures
            r@ == Seq::<u8>::empty(),
    {
        Utf8LineDecoder { buffer: Vec::new() }
    }
}

impl Utf8LineDecoder {
    /// Takes in a chunk and hands out the lines that it completes. If one of them is
    /// not UTF-8, none is handed out and all bytes stay.
    pub fn push(&mut self, chunk: &[u8]) -> (r: Result<Vec<String>, String>)
        ensures
            ({
                let bytes = old(self)@ + chunk@;
                let (lines, open_line) = split_lines(bytes);
                match r {
                    Ok(out) => all_text(lines) && texts(out@) == line_texts(lines) && final(self)@
                        == open_line,
                    Err(e) => !all_text(lines) && e@ == utf8_error(first_bad_line(lines))
                        && final(self)@ == bytes,
                }
            }),
    {
        let mut i: usize = 0;
        while i < chunk.len()
            invariant
                i <= chunk@.len(),
                self.buffer@ == old(self)@ + chunk@.take(i as int),
            decreases chunk.len() - i,
        {
            self.buffer.push(chunk[i]);
            i = i + 1;
            assert(chunk@.take(i as int) =~= chunk@.take(i - 1).push(chunk@[i - 1]));
        }
        let ghost bytes = old(self)@ + chunk@;
        assert(self.buffer@ =~= bytes) by {
            assert(chunk@.take(chunk@.len() as int) =~= chunk@);
        }
        let mut lines: Vec<String> = Vec::new();
        let mut start: usize = 0;
        let mut index: usize = 0;
        let ghost mut raw: Seq<Seq<u8>> = Seq::empty();
        assert(bytes.take(0) =~= Seq::<u8>::empty());
        assert(bytes.subrange(0, 0) =~= Seq::<u8>::empty());
        while index < self.buffer.len()
            invariant
                self.buffer@ == bytes,
                bytes == old(self)@ + chunk@,
                start <= index <= bytes.len(),
                split_lines(bytes.take(index as int)) == (raw, bytes.subrange(start as int, index as int)),
                raw.len() == lines@.len(),
                all_text(raw),
                forall|k: int| 0 <= k < raw.len() ==> lines@[k]@ == decode_utf8(#[trigger] raw[k]),
            decreases bytes.len() - index,
        {
            let ghost next = bytes.take(index + 1);
            assert(next.drop_last() =~= bytes.take(index as int));
            assert(next.last() == bytes[index as int]);
            if self.buffer[index] == 10 {
                let mut end: usize = index;
                if end > start && self.buffer[end - 1] == 13 {
                    end = end - 1;
                }
                let raw_line = slice_subrange(self.buffer.as_slice(), start, end);
                assert(raw_line@ =~= without_return(bytes.subrange(start as int, index as int)));
                match text::decode_text(raw_line) {
                    Ok(line) => {
                        lines.push(line);
                        proof {
                            raw = raw.push(raw_line@);
                        }
                    },
                    Err(e) => {
                        proof {
                            let bad = raw.push(raw_line@);
                            assert(split_lines(next).0 == bad);
                            let rest = bytes.skip(index + 1);
                            assert(next + rest =~= bytes);
                            lemma_split_lines_extends(next, rest);
                            let all = split_lines(bytes).0;
                            assert(bad.is_prefix_of(all));
                            assert forall|k: int| 0 <= k <= raw.len() implies all[k] == bad[k] by {
                                assert(all.subrange(0, bad.len() as int)[k] == bad[k]);
                            }
                            assert(!valid_utf8(all[raw.len() as int]));
                            assert forall|k: int| 0 <= k < raw.len() implies valid_utf8(
                                #[trigger] all[k],
                            ) by {
                                assert(all[k] == raw[k]);
                            }
                            lemma_first_bad_line(all, raw.len() as int);
                            assert(all[raw.len() as int] == raw_line@);
                        }
                        return Err(e);
                    },
                }
                start = index + 1;
                assert(bytes.subrange(start as int, index + 1) =~= Seq::<u8>::empty());
            } else {
                assert(bytes.subrange(start as int, index + 1) =~= bytes.subrange(
                    start as int,
                    index as int,
                ).push(bytes[index as int]));
            }
            index = index + 1;
        }
        assert(bytes.take(bytes.len() as int) =~= bytes);
        assert(texts(lines@) =~= line_texts(raw));
        if start > 0 {
            let left = self.buffer.split_off(start);
            self.buffer = left;
        }
        assert(self.buffer@ =~= bytes.subrange(start as int, bytes.len() as int));
        Ok(lines)
    }

    /// Whether the bytes of the last, incomplete line are UTF-8 so far. An incomplete
    /// line is for the protocol to judge.
    pub fn finish(&self) -> (r: Result<(), String>)
        ensures
            r is Ok <==> valid_utf8(self@),
            r matches Err(e) ==> e@ == utf8_error(self@),
    {
        match text::decode_text(self.buffer.as_slice()) {
            Ok(_) => Ok(()),
            Err(e) => Err(e),
        }
    }

    /// The bytes received after the last complete line.
    pub fn pending_bytes(&self) -> (r: &[u8])
        ensures
            r@ == self@,
    {
        self.buffer.as_slice()
    }
}

/// More bytes leave the lines that were complete as they are.
pub proof fn lemma_split_lines_extends(a: Seq<u8>, b: Seq<u8>)
    ensures
        split_lines(a).0.is_prefix_of(split_lines(a + b).0),
    decreases b.len(),
{
    if b.len() == 0 {
        assert(a + b =~= a);
        assert(split_lines(a).0.subrange(0, split_lines(a).0.len() as int) =~= split_lines(a).0);
    } else {
        lemma_split_lines_extends(a, b.drop_last());
        assert((a + b).drop_last() =~= a + b.drop_last());
        let before = split_lines(a + b.drop_last()).0;
        let after = split_lines(a + b).0;
        let n = split_lines(a).0.len() as int;
        assert(after.subrange(0, n) =~= before.subrange(0, n));
    }
}

proof fn lemma_open_line(bytes: Seq<u8>)
    ensures
        split_lines(split_lines(bytes).1) == (Seq::<Seq<u8>>::empty(), split_lines(bytes).1),
    decreases bytes.len(),
{
    if bytes.len() > 0 {
        lemma_open_line(bytes.drop_last());
        let before = split_lines(bytes.drop_last()).1;
        if bytes.last() != 10 {
            assert(before.push(bytes.last()).drop_last() =~= before);
        }
    }
}

/// Where a byte stream is cut into chunks makes no difference: the lines of two
/// chunks in turn are the lines of the two at once, and so is what stays behind.
pub proof fn law_chunks(a: Seq<u8>, b: Seq<u8>)
    ensures
        split_lines(a + b).0 == split_lines(a).0 + split_lines(split_lines(a).1 + b).0,
        split_lines(a + b).1 == split_lines(split_lines(a).1 + b).1,
    decreases b.len(),
{
    let left = split_lines(a).1;
    if b.len() == 0 {
        assert(a + b =~= a);
        assert(left + b =~= left);
        lemma_open_line(a);
    } else {
        law_chunks(a, b.drop_last());
        assert((a + b).drop_last() =~= a + b.drop_last());
        assert((left + b).drop_last() =~= left + b.drop_last());
        assert((a + b).last() == b.last());
        assert((left + b).last() == b.last());
    }
}

} // verus!
