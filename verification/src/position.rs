//! Places in the source text: byte offsets, spans, and values that carry
//! the span and line they were read from.

use vstd::prelude::*;

verus! {

/// Number of bytes that `ch` takes in UTF-8.
pub open spec fn utf8_width(ch: char) -> nat {
    if (ch as u32) < 0x80 {
        1
    } else if (ch as u32) < 0x800 {
        2
    } else if (ch as u32) < 0x10000 {
        3
    } else {
        4
    }
}

/// Number of bytes that the first `count` characters of `chars` take in
/// UTF-8: the byte offset of the character at index `count`.
pub open spec fn byte_offset(chars: Seq<char>, count: int) -> nat
    decreases count,
{
    if count <= 0 || count > chars.len() {
        0
    } else {
        byte_offset(chars, count - 1) + utf8_width(chars[count - 1])
    }
}

/// Byte offsets grow with the index, by at least one byte and at most four
/// bytes for each character.
pub proof fn lemma_byte_offset_monotonic(chars: Seq<char>, i: int, j: int)
    requires
        0 <= i <= j <= chars.len(),
    ensures
        byte_offset(chars, i) + (j - i) <= byte_offset(chars, j),
        byte_offset(chars, j) <= byte_offset(chars, i) + 4 * (j - i),
    decreases j - i,
{
    if i < j {
        lemma_byte_offset_monotonic(chars, i, j - 1);
    }
}

proof fn lemma_byte_offset_front(chars: Seq<char>, count: int)
    requires
        1 <= count <= chars.len(),
    ensures
        byte_offset(chars, count) == utf8_width(chars[0]) + byte_offset(chars.drop_first(), count - 1),
    decreases count,
{
    let rest = chars.drop_first();
    assert(rest.len() == chars.len() - 1);
    if count > 1 {
        lemma_byte_offset_front(chars, count - 1);
        assert(rest[count - 2] == chars[count - 1]);
        assert(byte_offset(rest, count - 1) == byte_offset(rest, count - 2) + utf8_width(rest[count - 2]));
    } else {
        assert(byte_offset(chars, 0) == 0);
        assert(byte_offset(rest, 0) == 0);
    }
}

/// The byte offset of the end of a text is the length of its UTF-8
/// encoding.
pub proof fn lemma_byte_offset_is_encoded_length(chars: Seq<char>)
    ensures
        byte_offset(chars, chars.len() as int) == vstd::utf8::encode_utf8(chars).len(),
    decreases chars.len(),
{
    if chars.len() > 0 {
        lemma_byte_offset_is_encoded_length(chars.drop_first());
        lemma_byte_offset_front(chars, chars.len() as int);
        vstd::utf8::char_is_scalar(chars[0]);
    }
}

/// Number of bytes that `ch` takes in UTF-8.
pub fn char_width(ch: char) -> (width: usize)
    ensures
        width == utf8_width(ch),
{
    let code: u32 = ch as u32;
    if code < 0x80 {
        1
    } else if code < 0x800 {
        2
    } else if code < 0x10000 {
        3
    } else {
        4
    }
}

#[derive(Debug, Default, Clone, Copy, PartialEq, Eq, Structural)]
pub struct BytePos(pub usize);

impl BytePos {
    /// Moves the position forward over `ch`.
    pub fn shift(&mut self, ch: char)
        requires
            old(self).0 + utf8_width(ch) <= usize::MAX,
        ensures
            final(self).0 == old(self).0 + utf8_width(ch),
    {
        self.0 += char_width(ch)
    }

    /// Moves the position back over `ch`.
    pub fn backwards(&mut self, ch: char)
        requires
            old(self).0 >= utf8_width(ch),
        ensures
            final(self).0 == old(self).0 - utf8_width(ch),
    {
        self.0 -= char_width(ch)
    }
}

#[derive(Debug, Clone, Copy, PartialEq, Eq, Structural)]
pub struct Span {
    pub start: BytePos,
    pub end: BytePos,
}

impl Span {
    pub fn new(start: usize, end: usize) -> (span: Span)
        ensures
            span.start.0 == start,
            span.end.0 == end,
    {
        Self { start: BytePos(start), end: BytePos(end) }
    }

    pub fn from(start: BytePos, end: BytePos) -> (span: Span)
        ensures
            span.start == start,
            span.end == end,
    {
        Self { start, end }
    }
}

/// A value with the bytes `[start, end)` of the source that it was read
/// from and the 1-based line on which it ends.
#[derive(Debug)]
pub struct WithSpan<T> {
    value: T,
    span: Span,
    line: usize,
}

impl<T> WithSpan<T> {
    pub closed spec fn value(&self) -> T {
        self.value
    }

    pub closed spec fn span(&self) -> Span {
        self.span
    }

    pub closed spec fn line(&self) -> usize {
        self.line
    }

    pub fn new(value: T, span: Span, line: usize) -> (item: Self)
        ensures
            item.value() == value,
            item.span() == span,
            item.line() == line,
    {
        WithSpan { value, span, line }
    }

    pub fn get_value(&self) -> (value: &T)
        ensures
            *value == self.value(),
    {
        &self.value
    }

    pub fn get_line(&self) -> (line: usize)
        ensures
            line == self.line(),
    {
        self.line
    }

    pub fn get_start(&self) -> (start: usize)
        ensures
            start == self.span().start.0,
    {
        self.span.start.0
    }

    pub fn get_end(&self) -> (end: usize)
        ensures
            end == self.span().end.0,
    {
        self.span.end.0
    }
}

} // verus!
