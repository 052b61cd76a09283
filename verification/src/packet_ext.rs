//! The byte codec of the protocol: a read cursor over one datagram, and the
//! writers that frame a request.

use crate::error::QueryError;
use crate::wire::{
    decode_utf8_lossy, read_u16_be_from, read_u8_from, utf8_lossy, write_u16_be_to, write_u8_to,
};
use vstd::prelude::*;
use vstd::slice::slice_subrange;
use vstd::utf8::{
    char_is_scalar, decode_utf8, encode_scalar, encode_utf8, encode_utf8_decode_utf8,
    encode_utf8_valid_utf8, is_ascii_chars, is_ascii_chars_encode_utf8, valid_utf8,
};

verus! {

/// The value of two bytes in network byte order.
pub open spec fn be_u16(hi: u8, lo: u8) -> u16 {
    (hi as int * 256 + lo as int) as u16
}

/// The more significant byte of a 16 bit value.
pub open spec fn hi_byte(value: u16) -> u8 {
    (value as int / 256) as u8
}

/// The less significant byte of a 16 bit value.
pub open spec fn lo_byte(value: u16) -> u8 {
    (value as int % 256) as u8
}

/// A 16 bit value is found again from its two bytes.
pub proof fn lemma_be_u16_of_bytes(value: u16)
    ensures
        be_u16(hi_byte(value), lo_byte(value)) == value,
{
}

/// Two bytes are found again from the 16 bit value they make.
pub proof fn lemma_bytes_of_be_u16(hi: u8, lo: u8)
    ensures
        hi_byte(be_u16(hi, lo)) == hi,
        lo_byte(be_u16(hi, lo)) == lo,
{
}

/// The byte that a character is written as: the first byte of its UTF-8
/// encoding. An ASCII character is written as itself. Any other character
/// has a longer encoding, of which only the leading byte is written: such a
/// character is cut short and cannot be read back.
pub open spec fn char_byte(c: char) -> u8 {
    encode_scalar(c as u32)[0]
}

/// An ASCII character is written as its own code.
pub proof fn lemma_char_byte_ascii(c: char)
    requires
        c as u32 <= 0x7F,
    ensures
        char_byte(c) == c as u8,
{
    let v = c as u32;
    assert((v & 0x7F) as u8 == v as u8) by (bit_vector)
        requires
            v <= 0x7F,
    ;
}

/// The first byte of the UTF-8 encoding of a character.
fn leading_byte(c: char) -> (byte: u8)
    ensures
        byte == char_byte(c),
{
    let v: u32 = c as u32;
    proof {
        char_is_scalar(c);
    }
    if v < 0x80 {
        assert((v & 0x7F) as u8 == v as u8) by (bit_vector)
            requires
                v < 0x80,
        ;
        v as u8
    } else if v < 0x800 {
        assert((0xC0u32 | (v >> 6)) < 0x100 && 0xC0u8 | ((v >> 6) & 0x1F) as u8 == (0xC0u32 | (v
            >> 6)) as u8) by (bit_vector)
            requires
                v < 0x800,
        ;
        (0xC0 | (v >> 6)) as u8
    } else if v < 0x10000 {
        assert((0xE0u32 | (v >> 12)) < 0x100 && 0xE0u8 | ((v >> 12) & 0x0F) as u8 == (0xE0u32 | (v
            >> 12)) as u8) by (bit_vector)
            requires
                v < 0x10000,
        ;
        (0xE0 | (v >> 12)) as u8
    } else {
        assert((0xF0u32 | (v >> 18)) < 0x100 && 0xF0u8 | ((v >> 18) & 0x7) as u8 == (0xF0u32 | (v
            >> 18)) as u8) by (bit_vector)
            requires
                v <= 0x10FFFF,
        ;
        (0xF0 | (v >> 18)) as u8
    }
}

/// The bytes of a NUL-terminated string: one byte for each character, then
/// the terminator.
pub open spec fn cstring_bytes(text: Seq<char>) -> Seq<u8> {
    text.map_values(|c: char| char_byte(c)).push(0u8)
}

/// The number of bytes before the first NUL byte, or the number of all bytes
/// where there is none.
pub open spec fn nul_index(bytes: Seq<u8>) -> int
    decreases bytes.len(),
{
    if bytes.len() == 0 || bytes[0] == 0u8 {
        0
    } else {
        1 + nul_index(bytes.skip(1))
    }
}

/// The number of bytes that reading a NUL-terminated string takes: the
/// string's bytes and, where there is one, the terminator.
pub open spec fn cstring_span(bytes: Seq<u8>) -> int {
    if nul_index(bytes) < bytes.len() {
        nul_index(bytes) + 1
    } else {
        nul_index(bytes)
    }
}

/// `nul_index` is the one position at which the bytes before it hold no NUL
/// and the bytes either end or go on with a NUL.
pub proof fn lemma_nul_index(bytes: Seq<u8>)
    ensures
        0 <= nul_index(bytes) <= bytes.len(),
        forall|i: int| 0 <= i < nul_index(bytes) ==> bytes[i] != 0u8,
        nul_index(bytes) < bytes.len() ==> bytes[nul_index(bytes)] == 0u8,
    decreases bytes.len(),
{
    if bytes.len() == 0 || bytes[0] == 0u8 {
    } else {
        let rest = bytes.skip(1);
        lemma_nul_index(rest);
        assert forall|i: int| 0 <= i < nul_index(bytes) implies bytes[i] != 0u8 by {
            if i > 0 {
                assert(bytes[i] == rest[i - 1]);
            }
        }
        assert(nul_index(bytes) < bytes.len() ==> bytes[nul_index(bytes)] == rest[nul_index(
            rest,
        )]);
    }
}

/// A position that has the two properties of `nul_index` is `nul_index`.
pub proof fn lemma_nul_index_unique(bytes: Seq<u8>, n: int)
    requires
        0 <= n <= bytes.len(),
        forall|i: int| 0 <= i < n ==> bytes[i] != 0u8,
        n < bytes.len() ==> bytes[n] == 0u8,
    ensures
        nul_index(bytes) == n,
{
    lemma_nul_index(bytes);
    let m = nul_index(bytes);
    if m < n {
        assert(bytes[m] != 0u8);
    } else if n < m {
        assert(bytes[n] != 0u8);
    }
}

/// A text of ASCII characters other than NUL is read back from the bytes it
/// was written as: the string ends at its terminator, the bytes before the
/// terminator decode to the text, and what follows the terminator is left.
pub proof fn lemma_cstring_round_trip(text: Seq<char>, rest: Seq<u8>)
    requires
        is_ascii_chars(text),
        forall|i: int| 0 <= i < text.len() ==> text[i] != '\0',
    ensures
        nul_index(cstring_bytes(text) + rest) == text.len(),
        cstring_span(cstring_bytes(text) + rest) == text.len() + 1,
        (cstring_bytes(text) + rest).skip(text.len() as int + 1) == rest,
        valid_utf8((cstring_bytes(text) + rest).take(text.len() as int)),
        decode_utf8((cstring_bytes(text) + rest).take(text.len() as int)) == text,
{
    let bytes = cstring_bytes(text) + rest;
    let n = text.len() as int;
    is_ascii_chars_encode_utf8(text);
    assert(bytes.take(n) =~= encode_utf8(text)) by {
        assert forall|i: int| 0 <= i < n implies bytes.take(n)[i] == encode_utf8(text)[i] by {
            let c = text[i];
            assert(bytes[i] == char_byte(c));
            lemma_char_byte_ascii(c);
        }
    }
    encode_utf8_valid_utf8(text);
    encode_utf8_decode_utf8(text);
    assert forall|i: int| 0 <= i < n implies bytes[i] != 0u8 by {
        let c = text[i];
        assert(bytes[i] == char_byte(c));
        lemma_char_byte_ascii(c);
        assert(c != '\0');
    }
    assert(bytes[n] == 0u8);
    lemma_nul_index_unique(bytes, n);
    assert(bytes.skip(n + 1) =~= rest);
}

/// A read cursor over the bytes of one datagram.
///
/// The cursor owns the bytes and a position in them. What it has not read yet
/// is its view; reading takes bytes from the front of the view.
pub struct ByteCursor {
    data: Vec<u8>,
    pos: usize,
}

impl View for ByteCursor {
    type V = Seq<u8>;

    /// The bytes that have not been read yet.
    closed spec fn view(&self) -> Seq<u8> {
        if self.pos <= self.data@.len() {
            self.data@.skip(self.pos as int)
        } else {
            Seq::empty()
        }
    }
}

impl ByteCursor {
    #[verifier::type_invariant]
    spec fn within_bounds(self) -> bool {
        self.pos <= self.data@.len()
    }

    /// All the bytes of the cursor, read or not.
    pub closed spec fn bytes(self) -> Seq<u8> {
        self.data@
    }

    /// A cursor at the start of `data`.
    pub fn new(data: Vec<u8>) -> (cursor: ByteCursor)
        ensures
            cursor@ == data@,
            cursor.bytes() == data@,
    {
        let cursor = ByteCursor { data, pos: 0 };
        assert(cursor.data@.skip(0) =~= cursor.data@);
        cursor
    }

    /// The number of bytes that have not been read yet.
    pub fn remaining(&self) -> (count: usize)
        ensures
            count == self@.len(),
    {
        proof {
            use_type_invariant(self);
        }
        self.data.len() - self.pos
    }

    /// The bytes that have not been read yet, as a slice.
    fn rest(&self) -> (rest: &[u8])
        ensures
            rest@ == self@,
    {
        proof {
            use_type_invariant(self);
        }
        let rest = slice_subrange(self.data.as_slice(), self.pos, self.data.len());
        assert(rest@ =~= self@);
        rest
    }

    /// Move the position `count` bytes on.
    fn advance(&mut self, count: usize)
        requires
            count <= old(self)@.len(),
        ensures
            final(self)@ == old(self)@.skip(count as int),
            final(self).bytes() == old(self).bytes(),
    {
        proof {
            use_type_invariant(&*self);
        }
        assert(self.data@.len() <= usize::MAX) by {
            vstd::std_specs::vec::axiom_spec_len(&self.data);
        }
        self.pos = self.pos + count;
        assert(self@ =~= old(self)@.skip(count as int));
    }

    /// Read one byte. Fails with `TruncatedInput`, and reads nothing, where
    /// no byte is left.
    pub fn read_u8(&mut self) -> (read: Result<u8, QueryError>)
        ensures
            final(self).bytes() == old(self).bytes(),
            old(self)@.len() >= 1 ==> read == Ok::<u8, QueryError>(old(self)@[0]) && final(self)@
                == old(self)@.skip(1),
            old(self)@.len() < 1 ==> read == Err::<u8, QueryError>(QueryError::TruncatedInput)
                && final(self)@ == old(self)@,
    {
        match read_u8_from(self.rest()) {
            Ok(value) => {
                self.advance(1);
                Ok(value)
            },
            Err(_) => Err(QueryError::TruncatedInput),
        }
    }

    /// Read a 16 bit value in network byte order. Fails with
    /// `TruncatedInput`, and reads nothing, where fewer than two bytes are
    /// left.
    pub fn read_u16_be(&mut self) -> (read: Result<u16, QueryError>)
        ensures
            final(self).bytes() == old(self).bytes(),
            old(self)@.len() >= 2 ==> read == Ok::<u16, QueryError>(
                be_u16(old(self)@[0], old(self)@[1]),
            ) && final(self)@ == old(self)@.skip(2),
            old(self)@.len() < 2 ==> read == Err::<u16, QueryError>(QueryError::TruncatedInput)
                && final(self)@ == old(self)@,
    {
        match read_u16_be_from(self.rest()) {
            Ok(value) => {
                self.advance(2);
                Ok(value)
            },
            Err(_) => Err(QueryError::TruncatedInput),
        }
    }
}

/// Reading the protocol's composite values from a packet.
pub trait ReadPacketExt {
    /// Read a NUL-terminated string: the bytes up to the first NUL byte, or
    /// up to the end where there is none, decoded as UTF-8 with each invalid
    /// sequence replaced. The terminator is read but is no part of the
    /// string.
    fn read_cstring(&mut self) -> Result<String, QueryError>;

    /// Read as many bytes as `src` holds and tell whether they are the bytes
    /// of `src`.
    fn read_u8_veccheck(&mut self, src: &Vec<u8>) -> Result<bool, QueryError>;
}

/// Writing the protocol's composite values to a packet.
pub trait WritePacketExt {
    /// Write a string with one byte for each character, then a NUL byte.
    fn write_cstring(&mut self, src: &str) -> Result<(), QueryError>;
}

impl ReadPacketExt for ByteCursor {
    /// Never fails: a string that no NUL byte ends goes on to the end of the
    /// packet.
    fn read_cstring(&mut self) -> (read: Result<String, QueryError>)
        ensures
            read is Ok,
            read->Ok_0@ == utf8_lossy(old(self)@.take(nul_index(old(self)@))),
            valid_utf8(old(self)@.take(nul_index(old(self)@))) ==> read->Ok_0@ == decode_utf8(
                old(self)@.take(nul_index(old(self)@)),
            ),
            final(self)@ == old(self)@.skip(cstring_span(old(self)@)),
            final(self).bytes() == old(self).bytes(),
    {
        let ghost start = self@;
        let mut svec: Vec<u8> = Vec::with_capacity(256);
        let mut terminated = false;
        while !terminated && self.remaining() > 0
            invariant
                svec@.len() + (if terminated { 1int } else { 0int }) <= start.len(),
                svec@ == start.take(svec@.len() as int),
                forall|i: int| 0 <= i < svec@.len() ==> start[i] != 0u8,
                terminated ==> start[svec@.len() as int] == 0u8,
                self@ == start.skip(svec@.len() + (if terminated { 1int } else { 0int })),
                self.bytes() == old(self).bytes(),
            decreases self@.len() + (if terminated { 0int } else { 1int }),
        {
            let ch = match self.read_u8() {
                Ok(byte) => byte,
                Err(e) => {
                    return Err(e);
                },
            };
            assert(ch == start[svec@.len() as int]);
            if ch == 0 {
                terminated = true;
            } else {
                svec.push(ch);
                assert(svec@ =~= start.take(svec@.len() as int));
            }
        }
        proof {
            lemma_nul_index_unique(start, svec@.len() as int);
        }
        Ok(decode_utf8_lossy(&svec))
    }

    /// Fails with `TruncatedInput`, and reads nothing, where fewer bytes are
    /// left than `src` holds. Otherwise it reads exactly that many bytes,
    /// also where one of them differs.
    fn read_u8_veccheck(&mut self, src: &Vec<u8>) -> (read: Result<bool, QueryError>)
        ensures
            final(self).bytes() == old(self).bytes(),
            old(self)@.len() >= src@.len() ==> read == Ok::<bool, QueryError>(
                old(self)@.take(src@.len() as int) == src@,
            ) && final(self)@ == old(self)@.skip(src@.len() as int),
            old(self)@.len() < src@.len() ==> read == Err::<bool, QueryError>(
                QueryError::TruncatedInput,
            ) && final(self)@ == old(self)@,
    {
        if self.remaining() < src.len() {
            return Err(QueryError::TruncatedInput);
        }
        let ghost start = self@;
        let mut same = true;
        let mut i: usize = 0;
        assert(start.take(0) =~= src@.take(0));
        assert(self@ =~= start.skip(0));
        while i < src.len()
            invariant
                i <= src@.len() <= start.len(),
                self@ == start.skip(i as int),
                same == (start.take(i as int) == src@.take(i as int)),
                self.bytes() == old(self).bytes(),
            decreases src@.len() - i,
        {
            let byte = match self.read_u8() {
                Ok(byte) => byte,
                Err(e) => {
                    return Err(e);
                },
            };
            assert(byte == start[i as int]);
            let ghost before = same;
            if byte != src[i] {
                same = false;
            }
            i = i + 1;
            proof {
                let a = start.take(i as int);
                let b = src@.take(i as int);
                assert(start.take(i - 1) =~= a.take(i - 1));
                assert(src@.take(i - 1) =~= b.take(i - 1));
                if before && byte == src@[i - 1] {
                    assert(a =~= b);
                } else if !before {
                    assert(a.take(i - 1) != b.take(i - 1));
                } else {
                    assert(a[i - 1] != b[i - 1]);
                }
                assert(self@ =~= start.skip(i as int));
            }
        }
        assert(src@.take(i as int) =~= src@);
        Ok(same)
    }
}

impl WritePacketExt for Vec<u8> {
    /// Never fails: the bytes are appended.
    fn write_cstring(&mut self, src: &str) -> (written: Result<(), QueryError>)
        ensures
            written is Ok,
            final(self)@ == old(self)@ + cstring_bytes(src@),
    {
        for c in it: src.chars()
            invariant
                it.seq() == src@,
                self@ == old(self)@ + src@.take(it.index() as int).map_values(
                    |c: char| char_byte(c),
                ),
        {
            let byte = leading_byte(c);
            write_u8_to(self, byte);
            assert(src@.take(it.index() + 1) =~= src@.take(it.index() as int).push(c));
            assert(self@ =~= old(self)@ + src@.take(it.index() + 1).map_values(
                |c: char| char_byte(c),
            ));
        }
        assert(src@.take(src@.len() as int) =~= src@);
        write_u8_to(self, 0x00);
        assert(self@ =~= old(self)@ + cstring_bytes(src@));
        Ok(())
    }
}

/// Append one byte to a packet.
pub fn write_u8(out: &mut Vec<u8>, value: u8)
    ensures
        final(out)@ == old(out)@.push(value),
{
    write_u8_to(out, value);
}

/// Append a 16 bit value to a packet in network byte order.
pub fn write_u16_be(out: &mut Vec<u8>, value: u16)
    ensures
        final(out)@ == old(out)@.push(hi_byte(value)).push(lo_byte(value)),
{
    write_u16_be_to(out, value);
}

} // verus!
