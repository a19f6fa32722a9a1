use vstd::prelude::*;
use vstd::slice::{slice_subrange, slice_to_vec};
use crate::error::ReadFault;
use crate::layout::{be_value, le_value, lemma_pow256_values, pow256, text_at};
use crate::read_traits::{clamp, read_outcome, Endianness, ReadExt};

verus! {

/// A cursor over a buffer of bytes. The cursor never rests behind the end of the buffer:
/// sent further, it stops at the end, where every read of at least one byte fails.
pub struct ByteReader<'a> {
    data: &'a [u8],
    pos: usize,
    big: bool,
}

impl<'a> Endianness for ByteReader<'a> {
    closed spec fn big_endian(&self) -> bool {
        self.big
    }

    fn is_bigendian(&self) -> (b: bool) {
        self.big
    }
}

impl<'a> ByteReader<'a> {
    #[verifier::type_invariant]
    spec fn within(self) -> bool {
        self.pos <= self.data@.len()
    }

    /// A reader at the start of `data`.
    pub fn new(data: &'a [u8], big: bool) -> (r: Self)
        ensures
            r.input() == data@,
            r.cursor() == 0,
            r.big_endian() == big,
    {
        ByteReader { data, pos: 0, big }
    }

    /// Where the cursor stands.
    pub fn position(&self) -> (pos: usize)
        ensures
            pos == self.cursor(),
            pos <= self.input().len(),
    {
        proof {
            use_type_invariant(self);
        }
        self.pos
    }

    /// Sends the cursor to `pos`, or to the end of the input if `pos` lies behind it.
    pub fn set_position(&mut self, pos: usize)
        ensures
            final(self).input() == old(self).input(),
            final(self).big_endian() == old(self).big_endian(),
            final(self).cursor() == clamp(pos as int, old(self).input().len()),
    {
        let len = self.data.len();
        self.pos = if pos <= len {
            pos
        } else {
            len
        };
    }

    /// Moves the cursor forward by `increment`, at most to the end of the input.
    pub fn increment_position(&mut self, increment: usize)
        ensures
            final(self).input() == old(self).input(),
            final(self).big_endian() == old(self).big_endian(),
            final(self).cursor() == clamp(old(self).cursor() + increment, old(self).input().len()),
    {
        proof {
            use_type_invariant(&*self);
        }
        let len = self.data.len();
        self.pos = if increment <= len - self.pos {
            self.pos + increment
        } else {
            len
        };
    }

    /// Reads `width` bytes at the cursor as one integer.
    fn take_uint(&mut self, width: usize) -> (r: Result<u64, ReadFault>)
        requires
            width <= 8,
        ensures
            final(self).input() == old(self).input(),
            final(self).big_endian() == old(self).big_endian(),
            read_outcome(
                old(self).input(),
                old(self).big_endian(),
                old(self).cursor(),
                width as int,
                match r {
                    Ok(v) => Ok(v as nat),
                    Err(e) => Err(e),
                },
                final(self).cursor(),
            ),
            r matches Ok(v) ==> v < pow256(width as nat),
    {
        proof {
            use_type_invariant(&*self);
        }
        let len = self.data.len();
        if width > len - self.pos {
            return Err(ReadFault::UnexpectedEof);
        }
        let start = self.pos;
        let ghost bytes = self.data@.subrange(start as int, start + width);
        let mut acc: u64 = 0;
        let mut k: usize = 0;
        proof {
            lemma_pow256_values();
        }
        if self.big {
            while k < width
                invariant
                    k <= width <= 8,
                    start + width <= len == self.data@.len(),
                    bytes == self.data@.subrange(start as int, start + width),
                    acc == be_value(bytes.take(k as int)),
                    acc < pow256(k as nat),
                decreases width - k,
            {
                let b = self.data[start + k];
                proof {
                    lemma_pow256_step(k as nat);
                    assert(bytes.take(k + 1).drop_last() =~= bytes.take(k as int));
                }
                acc = acc * 256 + b as u64;
                k = k + 1;
            }
            proof {
                assert(bytes.take(width as int) =~= bytes);
            }
        } else {
            while k < width
                invariant
                    k <= width <= 8,
                    start + width <= len == self.data@.len(),
                    bytes == self.data@.subrange(start as int, start + width),
                    acc == le_value(bytes.skip(width - k)),
                    acc < pow256(k as nat),
                decreases width - k,
            {
                let b = self.data[start + (width - 1 - k)];
                proof {
                    lemma_pow256_step(k as nat);
                    assert(bytes.skip(width - k - 1).drop_first() =~= bytes.skip(width - k));
                }
                acc = acc * 256 + b as u64;
                k = k + 1;
            }
            proof {
                assert(bytes.skip(0) =~= bytes);
            }
        }
        self.pos = start + width;
        Ok(acc)
    }

    /// The length-prefixed string at the cursor.
    pub fn parse_str(&mut self) -> (r: Result<Vec<u8>, ReadFault>)
        ensures
            final(self).input() == old(self).input(),
            final(self).big_endian() == old(self).big_endian(),
            match text_at(old(self).input(), old(self).big_endian(), old(self).cursor() as int) {
                Some((text, end)) => r matches Ok(v) && v@ == text && final(self).cursor() == end,
                None => r == Err::<Vec<u8>, ReadFault>(ReadFault::UnexpectedEof)
                    && final(self).cursor() == old(self).cursor(),
            },
    {
        proof {
            use_type_invariant(&*self);
        }
        let start = self.pos;
        let len = match self.read_u32() {
            Ok(len) => len as usize,
            Err(e) => {
                return Err(e);
            },
        };
        proof {
            use_type_invariant(&*self);
        }
        let from = self.pos;
        if len > self.data.len() - from {
            self.pos = start;
            return Err(ReadFault::UnexpectedEof);
        }
        let text = slice_to_vec(slice_subrange(self.data, from, from + len));
        self.pos = from + len;
        Ok(text)
    }

    /// The length-prefixed string at `pos`.
    pub fn parse_str_at(&mut self, pos: usize) -> (r: Result<Vec<u8>, ReadFault>)
        ensures
            final(self).input() == old(self).input(),
            final(self).big_endian() == old(self).big_endian(),
            match text_at(old(self).input(), old(self).big_endian(), pos as int) {
                Some((text, end)) => r matches Ok(v) && v@ == text && final(self).cursor() == end,
                None => r == Err::<Vec<u8>, ReadFault>(ReadFault::UnexpectedEof)
                    && final(self).cursor() == old(self).cursor(),
            },
    {
        proof {
            use_type_invariant(&*self);
        }
        let start = self.pos;
        self.set_position(pos);
        let r = self.parse_str();
        if r.is_err() {
            self.pos = start;
        }
        r
    }
}

/// One byte more is a factor of 256 more, and eight bytes stay within 64 bits.
proof fn lemma_pow256_step(k: nat)
    requires
        k < 8,
    ensures
        pow256(k + 1) == 256 * pow256(k),
        pow256(k + 1) <= 0x1_0000_0000_0000_0000,
    decreases 8 - k,
{
    lemma_pow256_values();
    if k < 7 {
        lemma_pow256_step(k + 1);
    }
}

impl<'a> ReadExt for ByteReader<'a> {
    closed spec fn input(&self) -> Seq<u8> {
        self.data@
    }

    closed spec fn cursor(&self) -> nat {
        self.pos as nat
    }

    fn read_u8(&mut self) -> (r: Result<u8, ReadFault>) {
        proof {
            lemma_pow256_values();
        }
        match self.take_uint(1) {
            Ok(v) => Ok(v as u8),
            Err(e) => Err(e),
        }
    }

    fn read_u16(&mut self) -> (r: Result<u16, ReadFault>) {
        proof {
            lemma_pow256_values();
        }
        match self.take_uint(2) {
            Ok(v) => Ok(v as u16),
            Err(e) => Err(e),
        }
    }

    fn read_u24(&mut self) -> (r: Result<u32, ReadFault>) {
        proof {
            lemma_pow256_values();
        }
        match self.take_uint(3) {
            Ok(v) => Ok(v as u32),
            Err(e) => Err(e),
        }
    }

    fn read_u32(&mut self) -> (r: Result<u32, ReadFault>) {
        proof {
            lemma_pow256_values();
        }
        match self.take_uint(4) {
            Ok(v) => Ok(v as u32),
            Err(e) => Err(e),
        }
    }

    fn read_u40(&mut self) -> (r: Result<u64, ReadFault>) {
        self.take_uint(5)
    }

    fn read_u64(&mut self) -> (r: Result<u64, ReadFault>) {
        self.take_uint(8)
    }

    fn parse_bytes(&mut self, num_bytes: u8) -> (r: Result<u64, ReadFault>) {
        proof {
            lemma_pow256_values();
        }
        match num_bytes {
            5 => self.read_u40(),
            4 => match self.read_u32() {
                Ok(v) => Ok(v as u64),
                Err(e) => Err(e),
            },
            3 => match self.read_u24() {
                Ok(v) => Ok(v as u64),
                Err(e) => Err(e),
            },
            2 => match self.read_u16() {
                Ok(v) => Ok(v as u64),
                Err(e) => Err(e),
            },
            1 => match self.read_u8() {
                Ok(v) => Ok(v as u64),
                Err(e) => Err(e),
            },
            _ => Ok(0),
        }
    }

    fn parse_three_point(&mut self) -> (r: Result<(u64, u64, u64), ReadFault>) {
        proof {
            use_type_invariant(&*self);
        }
        let start = self.pos;
        let len = self.data.len();
        let room = len - start;
        let (offset_bytes, len_bytes, start_bytes) = if self.big {
            if room < 5 {
                return Err(ReadFault::UnexpectedEof);
            }
            (self.data[start + 4] / 16, self.data[start + 3] / 16, self.data[start + 2] / 16)
        } else {
            if room < 4 {
                return Err(ReadFault::UnexpectedEof);
            }
            (self.data[start + 1] / 16, self.data[start + 2] / 16, self.data[start + 3] / 16)
        };
        self.increment_position(5);
        let offset = match self.parse_bytes(offset_bytes) {
            Ok(v) => v,
            Err(e) => {
                self.pos = start;
                return Err(e);
            },
        };
        let length = match self.parse_bytes(len_bytes) {
            Ok(v) => v,
            Err(e) => {
                self.pos = start;
                return Err(e);
            },
        };
        let begin = match self.parse_bytes(start_bytes) {
            Ok(v) => v,
            Err(e) => {
                self.pos = start;
                return Err(e);
            },
        };
        Ok((offset, begin, length))
    }
}

} // verus!
