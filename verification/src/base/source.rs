//! Source text and locations in it. Offsets and lengths count the bytes of
//! the text's UTF-8 encoding.

use std::rc::Rc;
use vstd::prelude::*;
use vstd::utf8::{
    decode_utf8, decode_utf8_encode_utf8, decode_utf8_split, encode_scalar, encode_utf8,
    encode_utf8_decode_utf8, encode_utf8_first_scalar, encode_utf8_valid_utf8, is_char_boundary,
    is_char_boundary_iff_not_is_continuation_byte, is_char_boundary_start_end_of_seq,
    length_of_first_scalar, pop_first_scalar, valid_utf8, valid_utf8_split,
};
use vstd::string::StringSliceAdditionalSpecFns;

verus! {

/// The number of bytes in the UTF-8 encoding of `chars`.
pub open spec fn utf8_len(chars: Seq<char>) -> nat {
    encode_utf8(chars).len()
}

/// The encoding of a text is the encoding of its first part followed by that of its second.
pub proof fn lemma_encode_concat(first: Seq<char>, second: Seq<char>)
    ensures
        encode_utf8(first + second) == encode_utf8(first) + encode_utf8(second),
    decreases first.len(),
{
    if first.len() == 0 {
        assert(first + second =~= second);
        assert(encode_utf8(first) + encode_utf8(second) =~= encode_utf8(second));
    } else {
        assert((first + second).drop_first() =~= first.drop_first() + second);
        lemma_encode_concat(first.drop_first(), second);
        assert(encode_utf8(first + second) =~= encode_utf8(first) + encode_utf8(second));
    }
}

/// The encoding of a single character.
pub proof fn lemma_encode_single(c: char)
    ensures
        encode_utf8(seq![c]) == encode_scalar(c as u32),
{
    let single = seq![c];
    assert(single.len() == 1);
    assert(single[0] == c);
    assert(single.drop_first() =~= Seq::<char>::empty());
    assert(encode_utf8(single.drop_first()) =~= Seq::<u8>::empty());
    assert(encode_utf8(single) =~= encode_scalar(c as u32));
}

/// Every character takes at least one byte.
pub proof fn lemma_utf8_len_bounds(chars: Seq<char>)
    ensures
        chars.len() <= utf8_len(chars),
    decreases chars.len(),
{
    if chars.len() > 0 {
        lemma_utf8_len_bounds(chars.drop_first());
    }
}

/// The encoding of the first `count` characters of a text ends on a
/// character boundary of the text's encoding, and splits it into the
/// encodings of those characters and of the others.
pub proof fn lemma_prefix_boundary(chars: Seq<char>, count: int)
    requires
        0 <= count <= chars.len(),
    ensures
        utf8_len(chars.take(count)) + utf8_len(chars.skip(count)) == utf8_len(chars),
        is_char_boundary(encode_utf8(chars), utf8_len(chars.take(count)) as int),
        encode_utf8(chars).subrange(0, utf8_len(chars.take(count)) as int) == encode_utf8(
            chars.take(count),
        ),
        encode_utf8(chars).subrange(
            utf8_len(chars.take(count)) as int,
            encode_utf8(chars).len() as int,
        ) == encode_utf8(chars.skip(count)),
    decreases count,
{
    let bytes = encode_utf8(chars);
    let head = encode_utf8(chars.take(count));
    let tail = encode_utf8(chars.skip(count));
    lemma_encode_concat(chars.take(count), chars.skip(count));
    assert(chars.take(count) + chars.skip(count) =~= chars);
    assert(bytes == head + tail);
    assert(bytes.subrange(0, head.len() as int) =~= head);
    assert(bytes.subrange(head.len() as int, bytes.len() as int) =~= tail);
    encode_utf8_valid_utf8(chars);
    if count > 0 {
        let others = chars.drop_first();
        encode_utf8_first_scalar(chars);
        assert(pop_first_scalar(bytes) =~= encode_utf8(others));
        lemma_prefix_boundary(others, count - 1);
        assert(chars.take(count).drop_first() =~= others.take(count - 1));
        assert(head.len() == encode_scalar(chars[0] as u32).len() + utf8_len(others.take(count - 1)));
        assert(head.len() - length_of_first_scalar(bytes) == utf8_len(others.take(count - 1)));
    }
}

/// A character boundary splits the encoding of a text into the encodings
/// of the characters before it and of those after it.
pub proof fn lemma_boundary_splits(chars: Seq<char>, offset: int)
    requires
        is_char_boundary(encode_utf8(chars), offset),
    ensures
        0 <= offset <= utf8_len(chars),
        valid_utf8(encode_utf8(chars).subrange(0, offset)),
        valid_utf8(encode_utf8(chars).subrange(offset, utf8_len(chars) as int)),
        chars == decode_utf8(encode_utf8(chars).subrange(0, offset)) + decode_utf8(
            encode_utf8(chars).subrange(offset, utf8_len(chars) as int),
        ),
        encode_utf8(decode_utf8(encode_utf8(chars).subrange(0, offset))) == encode_utf8(
            chars,
        ).subrange(0, offset),
        encode_utf8(decode_utf8(encode_utf8(chars).subrange(offset, utf8_len(chars) as int)))
            == encode_utf8(chars).subrange(offset, utf8_len(chars) as int),
{
    let bytes = encode_utf8(chars);
    encode_utf8_valid_utf8(chars);
    valid_utf8_split(bytes, offset);
    decode_utf8_split(bytes, offset);
    encode_utf8_decode_utf8(chars);
    decode_utf8_encode_utf8(bytes.subrange(0, offset));
    decode_utf8_encode_utf8(bytes.subrange(offset, bytes.len() as int));
}

/// Behind a character boundary of a text, the character boundaries of the
/// rest are those of the text.
pub proof fn lemma_boundary_in_rest(bytes: Seq<u8>, offset: int, further: int)
    requires
        valid_utf8(bytes),
        is_char_boundary(bytes, offset),
        0 <= offset,
        0 <= further,
        offset + further <= bytes.len(),
    ensures
        is_char_boundary(bytes.subrange(offset, bytes.len() as int), further) == is_char_boundary(
            bytes,
            offset + further,
        ),
{
    let rest = bytes.subrange(offset, bytes.len() as int);
    valid_utf8_split(bytes, offset);
    is_char_boundary_start_end_of_seq(bytes);
    is_char_boundary_start_end_of_seq(rest);
    if further < rest.len() {
        is_char_boundary_iff_not_is_continuation_byte(rest, further);
        is_char_boundary_iff_not_is_continuation_byte(bytes, offset + further);
        assert(rest[further] == bytes[offset + further]);
    }
}

/// A text to be read.
#[derive(Debug, PartialEq, Eq)]
pub struct SourceText {
    text: String,
}

impl View for SourceText {
    type V = Seq<char>;

    closed spec fn view(&self) -> Seq<char> {
        self.text@
    }
}

impl SourceText {
    /// The UTF-8 encoding of the text.
    pub open spec fn bytes(&self) -> Seq<u8> {
        encode_utf8(self@)
    }

    /// Whether a character begins or the text ends at byte `offset`.
    pub open spec fn boundary(&self, offset: int) -> bool {
        is_char_boundary(self.bytes(), offset)
    }

    /// The characters encoded by the `length` bytes from byte `offset` on.
    pub open spec fn slice(&self, offset: int, length: int) -> Seq<char> {
        decode_utf8(self.bytes().subrange(offset, offset + length))
    }

    /// The characters from byte `offset` on.
    pub open spec fn rest(&self, offset: int) -> Seq<char> {
        self.slice(offset, self.bytes().len() - offset)
    }

    pub fn new(text: String) -> (source: SourceText)
        ensures
            source@ == text@,
    {
        SourceText { text }
    }

    pub fn text(&self) -> (text: &str)
        ensures
            text@ == self@,
    {
        self.text.as_str()
    }

    /// The number of bytes of the text.
    pub fn len(&self) -> (length: usize)
        ensures
            length == self.bytes().len(),
    {
        self.text.as_str().as_bytes().len()
    }

    pub fn is_empty(&self) -> (empty: bool)
        ensures
            empty == (self@.len() == 0),
    {
        self.text.as_str().is_empty()
    }
}

/// A token of `count` characters that begins on a character boundary ends
/// on one: its bytes lie in the text, they encode its characters, and the
/// rest of the text behind it is the rest behind those characters.
pub proof fn lemma_token_range(source: &SourceText, offset: int, count: int)
    requires
        source.boundary(offset),
        0 <= count <= source.rest(offset).len(),
    ensures
        0 <= offset,
        offset + utf8_len(source.rest(offset)) == source.bytes().len(),
        offset + utf8_len(source.rest(offset).take(count)) <= source.bytes().len(),
        count <= utf8_len(source.rest(offset).take(count)),
        source.boundary(offset + utf8_len(source.rest(offset).take(count))),
        source.slice(offset, utf8_len(source.rest(offset).take(count)) as int) == source.rest(
            offset,
        ).take(count),
        source.rest(offset + utf8_len(source.rest(offset).take(count))) == source.rest(offset).skip(
            count,
        ),
{
    let bytes = source.bytes();
    let behind = bytes.subrange(offset, bytes.len() as int);
    let rest = source.rest(offset);
    let length = utf8_len(rest.take(count)) as int;
    lemma_boundary_splits(source@, offset);
    assert(encode_utf8(rest) == behind);
    lemma_prefix_boundary(rest, count);
    encode_utf8_valid_utf8(source@);
    lemma_boundary_in_rest(bytes, offset, length);
    lemma_utf8_len_bounds(rest.take(count));
    assert(bytes.subrange(offset, offset + length) =~= behind.subrange(0, length));
    assert(bytes.subrange(offset + length, bytes.len() as int) =~= behind.subrange(
        length,
        behind.len() as int,
    ));
    encode_utf8_decode_utf8(rest.take(count));
    encode_utf8_decode_utf8(rest.skip(count));
}

/// The text of a location, encoded again, is the bytes of its range: a
/// location that lies in its text loses nothing and adds nothing.
pub proof fn lemma_location_round_trip(location: SourceLocation)
    requires
        location.valid(),
    ensures
        encode_utf8(location.chars()) == location.source.bytes().subrange(
            location.offset as int,
            location.offset + location.length,
        ),
        utf8_len(location.chars()) == location.length,
{
    let bytes = location.source.bytes();
    encode_utf8_valid_utf8(location.source@);
    valid_utf8_split(bytes, location.offset as int);
    lemma_boundary_in_rest(bytes, location.offset as int, location.length as int);
    let behind = bytes.subrange(location.offset as int, bytes.len() as int);
    valid_utf8_split(behind, location.length as int);
    assert(behind.subrange(0, location.length as int) =~= bytes.subrange(
        location.offset as int,
        location.offset + location.length,
    ));
    decode_utf8_encode_utf8(behind.subrange(0, location.length as int));
}

/// Shares a source text: `Rc::clone` gives another handle on the same text.
#[verifier::external_body]
pub(crate) fn share(source: &Rc<SourceText>) -> (shared: Rc<SourceText>)
    ensures
        shared == *source,
{
    Rc::clone(source)
}

/// A range of bytes in a source text.
#[derive(Debug, PartialEq, Eq)]
pub struct SourceLocation {
    pub source: Rc<SourceText>,
    pub offset: usize,
    pub length: usize,
}

impl Clone for SourceLocation {
    fn clone(&self) -> (copy: SourceLocation)
        ensures
            copy == *self,
    {
        SourceLocation { source: share(&self.source), offset: self.offset, length: self.length }
    }
}

impl SourceLocation {
    /// The range lies in the text, and begins and ends where a character
    /// begins or the text ends.
    pub open spec fn valid(&self) -> bool {
        &&& self.offset + self.length <= self.source.bytes().len()
        &&& self.source.boundary(self.offset as int)
        &&& self.source.boundary(self.offset + self.length)
    }

    /// The characters in the range.
    pub open spec fn chars(&self) -> Seq<char> {
        self.source.slice(self.offset as int, self.length as int)
    }

    pub fn new(source: Rc<SourceText>, offset: usize, length: usize) -> (location: SourceLocation)
        ensures
            location == (SourceLocation { source, offset, length }),
    {
        SourceLocation { source, offset, length }
    }

    /// The offset of the first byte behind the range.
    pub fn end(&self) -> (end: usize)
        requires
            self.offset + self.length <= usize::MAX,
        ensures
            end == self.offset + self.length,
    {
        self.offset + self.length
    }

    /// The location that covers both `loc1` and `loc2`, which lie in the same text.
    pub fn span(loc1: &SourceLocation, loc2: &SourceLocation) -> (covering: SourceLocation)
        requires
            loc1.source == loc2.source,
            loc1.offset + loc1.length <= usize::MAX,
            loc2.offset + loc2.length <= usize::MAX,
            loc1.offset <= loc2.offset + loc2.length,
        ensures
            covering.source == loc1.source,
            covering.offset == vstd::math::min(loc1.offset as int, loc2.offset as int),
            covering.offset + covering.length == vstd::math::max(
                loc1.offset + loc1.length,
                loc2.offset + loc2.length,
            ),
            loc1.valid() && loc2.valid() ==> covering.valid(),
    {
        let offset = if loc1.offset <= loc2.offset {
            loc1.offset
        } else {
            loc2.offset
        };
        let end = if loc1.end() >= loc2.end() {
            loc1.end()
        } else {
            loc2.end()
        };
        SourceLocation { source: share(&loc1.source), offset, length: end - offset }
    }

    /// The text in the range.
    pub fn text(&self) -> (text: &str)
        requires
            self.valid(),
        ensures
            text@ == self.chars(),
    {
        let whole = self.source.text();
        proof {
            encode_utf8_valid_utf8(self.source@);
            lemma_boundary_in_rest(self.source.bytes(), self.offset as int, self.length as int);
        }
        let (_, rest) = whole.split_at(self.offset);
        let (text, _) = rest.split_at(self.length);
        proof {
            let bytes = self.source.bytes();
            assert(text.spec_bytes() =~= bytes.subrange(
                self.offset as int,
                self.offset + self.length,
            ));
            encode_utf8_decode_utf8(text@);
        }
        text
    }
}

} // verus!
