//! Reading a source byte by byte, with a look ahead and a way back.

use vstd::prelude::*;
use vstd::utf8::codepoint_width_2;
use vstd::utf8::codepoint_width_3;
use vstd::utf8::codepoint_width_4;
use vstd::utf8::decode_first_scalar;
use vstd::utf8::is_continuation_byte;
use vstd::utf8::is_leading_byte_width_1;
use vstd::utf8::is_leading_byte_width_2;
use vstd::utf8::is_leading_byte_width_3;
use vstd::utf8::is_leading_byte_width_4;
use vstd::utf8::valid_first_scalar;
use crate::strings::char_of_scalar;

verus! {

/// Why the bytes at the cursor are no character.
#[derive(Clone, Copy, PartialEq, Eq, Structural, Debug)]
pub enum CharError {
    /// The source ends inside the character.
    Eof,
    /// The bytes are not well-formed UTF-8.
    Unicode,
}

/// How many bytes a character that starts with `first` takes, or 0 where no character
/// starts with it.
pub open spec fn char_width(first: u8) -> int {
    if is_leading_byte_width_1(first) {
        1
    } else if is_leading_byte_width_2(first) {
        2
    } else if is_leading_byte_width_3(first) {
        3
    } else if is_leading_byte_width_4(first) {
        4
    } else {
        0
    }
}

/// The first byte among the `width - 1` bytes behind the first that is missing or does not
/// continue a character: the fault, and how many bytes were read up to and including it.
pub open spec fn continuation_fault(bytes: Seq<u8>, width: int) -> Option<(CharError, int)> {
    if width >= 2 && bytes.len() < 2 {
        Some((CharError::Eof, 0))
    } else if width >= 2 && !is_continuation_byte(bytes[1]) {
        Some((CharError::Unicode, 1))
    } else if width >= 3 && bytes.len() < 3 {
        Some((CharError::Eof, 1))
    } else if width >= 3 && !is_continuation_byte(bytes[2]) {
        Some((CharError::Unicode, 2))
    } else if width >= 4 && bytes.len() < 4 {
        Some((CharError::Eof, 2))
    } else if width >= 4 && !is_continuation_byte(bytes[3]) {
        Some((CharError::Unicode, 3))
    } else {
        None
    }
}

/// The character that `bytes` start with, or why they start with none.
pub open spec fn first_char(bytes: Seq<u8>) -> Result<char, CharError>
    recommends
        bytes.len() > 0,
{
    let width = char_width(bytes[0]);
    if width == 0 {
        Err(CharError::Unicode)
    } else {
        match continuation_fault(bytes, width) {
            Some((fault, _)) => Err(fault),
            None => if valid_first_scalar(bytes) {
                Ok(decode_first_scalar(bytes) as char)
            } else {
                Err(CharError::Unicode)
            },
        }
    }
}

/// How many bytes behind the first are read to find `first_char`.
pub open spec fn first_char_read(bytes: Seq<u8>) -> int
    recommends
        bytes.len() > 0,
{
    let width = char_width(bytes[0]);
    if width == 0 {
        0
    } else {
        match continuation_fault(bytes, width) {
            Some((_, read)) => read,
            None => width - 1,
        }
    }
}

/// A cursor over the bytes of a source.
pub struct BytesReader<'a> {
    data: &'a [u8],
    current: usize,
}

impl<'a> BytesReader<'a> {
    /// All bytes of the source.
    pub closed spec fn source(&self) -> Seq<u8> {
        self.data@
    }

    /// How many bytes were read.
    pub closed spec fn position(&self) -> int {
        self.current as int
    }

    /// The cursor stands within the source or at its end.
    pub closed spec fn wf(&self) -> bool {
        self.current <= self.data@.len()
    }

    /// The bytes not yet read.
    pub open spec fn rest(&self) -> Seq<u8> {
        self.source().skip(self.position())
    }

    /// The cursor stands within the source, which fits the machine.
    pub proof fn lemma_bounds(&self)
        requires
            self.wf(),
        ensures
            0 <= self.position() <= self.source().len() <= usize::MAX,
    {
        let n = self.data.len();
    }

    pub fn new(slice: &'a [u8]) -> (reader: Self)
        ensures
            reader.wf(),
            reader.source() == slice@,
            reader.position() == 0,
    {
        BytesReader { data: slice, current: 0 }
    }

    pub fn full(&self) -> (data: &'a [u8])
        ensures
            data@ == self.source(),
    {
        self.data
    }

    pub fn offset(&self) -> (offset: usize)
        ensures
            offset == self.position(),
    {
        self.current
    }

    /// How many bytes are left to read.
    pub fn len(&self) -> (len: usize)
        requires
            self.wf(),
        ensures
            len == self.source().len() - self.position(),
    {
        self.data.len() - self.current
    }

    pub fn is_empty(&self) -> (empty: bool)
        requires
            self.wf(),
        ensures
            empty == (self.position() == self.source().len()),
    {
        self.current == self.data.len()
    }

    /// Moves the cursor back to `offset`.
    pub fn backup(&mut self, offset: usize)
        requires
            old(self).wf(),
            offset <= old(self).position(),
        ensures
            final(self).wf(),
            final(self).source() == old(self).source(),
            final(self).position() == offset,
    {
        self.current = offset;
    }

    /// Moves the cursor forward over `count` bytes.
    pub fn advance(&mut self, count: usize)
        requires
            old(self).wf(),
            old(self).position() + count <= old(self).source().len(),
        ensures
            final(self).wf(),
            final(self).source() == old(self).source(),
            final(self).position() == old(self).position() + count,
    {
        let len = self.data.len();
        self.current = self.current + count;
    }

    /// The next byte, which stays unread.
    pub fn peek(&self) -> (byte: Option<u8>)
        requires
            self.wf(),
        ensures
            match byte {
                Some(b) => self.position() < self.source().len() && b == self.source()[
                    self.position()
                ],
                None => self.position() == self.source().len(),
            },
    {
        if self.current < self.data.len() {
            Some(self.data[self.current])
        } else {
            None
        }
    }

    /// Reads the next byte.
    pub fn next(&mut self) -> (byte: Option<u8>)
        requires
            old(self).wf(),
        ensures
            final(self).wf(),
            final(self).source() == old(self).source(),
            match byte {
                Some(b) => old(self).position() < old(self).source().len() && b == old(self).source()[old(self).position()] && final(self).position() == old(self).position() + 1,
                None => old(self).position() == old(self).source().len() && final(self).position() == old(self).position(),
            },
    {
        if self.current < self.data.len() {
            let byte = self.data[self.current];
            self.current += 1;
            Some(byte)
        } else {
            None
        }
    }

    /// Reads the next byte, which must continue a character.
    pub fn next_continue_byte(&mut self) -> (byte: Result<u8, CharError>)
        requires
            old(self).wf(),
        ensures
            final(self).wf(),
            final(self).source() == old(self).source(),
            match byte {
                Ok(b) => old(self).position() < old(self).source().len() && b == old(self).source()[old(self).position()] && is_continuation_byte(b) && final(self).position() == old(self).position() + 1,
                Err(CharError::Eof) => old(self).position() == old(self).source().len()
                    && final(self).position() == old(self).position(),
                Err(CharError::Unicode) => old(self).position() < old(self).source().len()
                    && !is_continuation_byte(old(self).source()[old(self).position()]) && final(self).position() == old(self).position() + 1,
            },
    {
        match self.next() {
            None => Err(CharError::Eof),
            Some(byte) => {
                if 0x80 <= byte && byte <= 0xbf {
                    Ok(byte)
                } else {
                    Err(CharError::Unicode)
                }
            },
        }
    }

    /// Reads the rest of the character whose first byte, `start`, was read last.
    pub fn complete_char(&mut self, start: u8) -> (c: Result<char, CharError>)
        requires
            old(self).wf(),
        ensures
            final(self).wf(),
            final(self).source() == old(self).source(),
            c == first_char(seq![start] + old(self).rest()),
            final(self).position() == old(self).position() + first_char_read(
                seq![start] + old(self).rest(),
            ),
    {
        let ghost bytes = seq![start] + self.rest();
        let ghost from = self.position();
        proof {
            self.lemma_bounds();
            assert(bytes[0] == start);
            assert forall|k: int| 1 <= k < bytes.len() implies bytes[k] == self.source()[from + k
                - 1] by {}
            assert(bytes.len() == 1 + self.source().len() - from);
        }
        if start < 0x80 {
            proof {
                assert((start & 0x7f) as u32 == start as u32) by (bit_vector)
                    requires
                        start < 0x80,
                ;
                assert(valid_first_scalar(bytes));
                assert(decode_first_scalar(bytes) == start as u32);
                vstd::utf8::char_u32_cast(start as char, start as u32);
            }
            Ok(start as char)
        } else if 0xc0 <= start && start <= 0xdf {
            let b1 = self.next_continue_byte()?;
            let scalar = (((start & 0x1f) as u32) << 6) | ((b1 & 0x3f) as u32);
            proof {
                assert(continuation_fault(bytes, 2) is None);
                assert(scalar == codepoint_width_2(start, b1));
                assert(scalar <= 0x7ff) by (bit_vector)
                    requires
                        scalar == (((start & 0x1f) as u32) << 6) | ((b1 & 0x3f) as u32),
                ;
            }
            self.finish_char(scalar, scalar >= 0x80, Ghost(bytes))
        } else if 0xe0 <= start && start <= 0xef {
            let b1 = self.next_continue_byte()?;
            let b2 = self.next_continue_byte()?;
            let scalar = (((start & 0x0f) as u32) << 12) | (((b1 & 0x3f) as u32) << 6) | ((b2
                & 0x3f) as u32);
            proof {
                assert(continuation_fault(bytes, 3) is None);
                assert(scalar == codepoint_width_3(start, b1, b2));
                assert(scalar <= 0xffff) by (bit_vector)
                    requires
                        scalar == (((start & 0x0f) as u32) << 12) | (((b1 & 0x3f) as u32) << 6) | ((
                        b2 & 0x3f) as u32),
                ;
            }
            self.finish_char(scalar, scalar >= 0x800, Ghost(bytes))
        } else if 0xf0 <= start && start <= 0xf7 {
            let b1 = self.next_continue_byte()?;
            let b2 = self.next_continue_byte()?;
            let b3 = self.next_continue_byte()?;
            let scalar = (((start & 0x07) as u32) << 18) | (((b1 & 0x3f) as u32) << 12) | (((b2
                & 0x3f) as u32) << 6) | ((b3 & 0x3f) as u32);
            proof {
                assert(continuation_fault(bytes, 4) is None);
                assert(scalar == codepoint_width_4(start, b1, b2, b3));
            }
            self.finish_char(scalar, 0x10000 <= scalar && scalar <= 0x10ffff, Ghost(bytes))
        } else {
            Err(CharError::Unicode)
        }
    }

    /// The character with the scalar value that the bytes spell, unless they spell it in
    /// more bytes than it needs or it is no scalar value.
    fn finish_char(&self, scalar: u32, shortest: bool, Ghost(bytes): Ghost<Seq<u8>>) -> (c: Result<
        char,
        CharError,
    >)
        requires
            bytes.len() > 0,
            char_width(bytes[0]) >= 2,
            continuation_fault(bytes, char_width(bytes[0])) is None,
            scalar == decode_first_scalar(bytes),
            shortest == vstd::utf8::not_overlong_encoding(scalar, char_width(bytes[0])),
            char_width(bytes[0]) == 2 ==> scalar <= 0x7ff,
            char_width(bytes[0]) == 3 ==> scalar <= 0xffff,
        ensures
            c == first_char(bytes),
    {
        if !shortest {
            return Err(CharError::Unicode);
        }
        match char_of_scalar(scalar) {
            Some(c) => {
                proof {
                    vstd::utf8::char_u32_cast(c, scalar);
                }
                Ok(c)
            },
            None => Err(CharError::Unicode),
        }
    }
}

} // verus!
