use vstd::prelude::*;
use crate::error::ReadFault;
use crate::layout::{uint_at, sized_at, span, three_point_at, three_point_end};

verus! {

/// A source of bytes that knows the byte order of the integers in it.
pub trait Endianness {
    /// Whether the most significant byte of an integer comes first.
    spec fn big_endian(&self) -> bool;

    /// Whether the most significant byte of an integer comes first.
    fn is_bigendian(&self) -> (b: bool)
        ensures
            b == self.big_endian(),
    ;
}

/// What a read of `width` bytes at `pos` gives, and where it leaves the cursor:
/// the integer there and the position behind it, or a fault and the cursor unmoved.
pub open spec fn read_outcome(
    buf: Seq<u8>,
    big: bool,
    pos: nat,
    width: int,
    r: Result<nat, ReadFault>,
    next: nat,
) -> bool {
    match uint_at(buf, big, pos as int, width) {
        Some(v) => r == Ok::<nat, ReadFault>(v) && next == pos + width,
        None => r == Err::<nat, ReadFault>(ReadFault::UnexpectedEof) && next == pos,
    }
}

/// The smaller of a position and the length of the buffer: where a cursor sent to `pos` rests.
pub open spec fn clamp(pos: int, len: nat) -> nat {
    if pos < 0 {
        0
    } else if pos <= len {
        pos as nat
    } else {
        len
    }
}

/// Reads of integers in the source's byte order, at a cursor that moves behind what was read.
/// A read that fails leaves the cursor where it was.
pub trait ReadExt: Endianness {
    /// The bytes that are read from.
    spec fn input(&self) -> Seq<u8>;

    /// The position of the next byte to read; never behind the end of the input.
    spec fn cursor(&self) -> nat;

    /// One byte.
    fn read_u8(&mut self) -> (r: Result<u8, ReadFault>)
        ensures
            final(self).input() == old(self).input(),
            final(self).big_endian() == old(self).big_endian(),
            read_outcome(
                old(self).input(),
                old(self).big_endian(),
                old(self).cursor(),
                1,
                match r {
                    Ok(v) => Ok(v as nat),
                    Err(e) => Err(e),
                },
                final(self).cursor(),
            ),
    ;

    /// Two bytes.
    fn read_u16(&mut self) -> (r: Result<u16, ReadFault>)
        ensures
            final(self).input() == old(self).input(),
            final(self).big_endian() == old(self).big_endian(),
            read_outcome(
                old(self).input(),
                old(self).big_endian(),
                old(self).cursor(),
                2,
                match r {
                    Ok(v) => Ok(v as nat),
                    Err(e) => Err(e),
                },
                final(self).cursor(),
            ),
    ;

    /// Three bytes, widened to 32 bits.
    fn read_u24(&mut self) -> (r: Result<u32, ReadFault>)
        ensures
            final(self).input() == old(self).input(),
            final(self).big_endian() == old(self).big_endian(),
            read_outcome(
                old(self).input(),
                old(self).big_endian(),
                old(self).cursor(),
                3,
                match r {
                    Ok(v) => Ok(v as nat),
                    Err(e) => Err(e),
                },
                final(self).cursor(),
            ),
    ;

    /// Four bytes.
    fn read_u32(&mut self) -> (r: Result<u32, ReadFault>)
        ensures
            final(self).input() == old(self).input(),
            final(self).big_endian() == old(self).big_endian(),
            read_outcome(
                old(self).input(),
                old(self).big_endian(),
                old(self).cursor(),
                4,
                match r {
                    Ok(v) => Ok(v as nat),
                    Err(e) => Err(e),
                },
                final(self).cursor(),
            ),
    ;

    /// Five bytes, widened to 64 bits.
    fn read_u40(&mut self) -> (r: Result<u64, ReadFault>)
        ensures
            final(self).input() == old(self).input(),
            final(self).big_endian() == old(self).big_endian(),
            read_outcome(
                old(self).input(),
                old(self).big_endian(),
                old(self).cursor(),
                5,
                match r {
                    Ok(v) => Ok(v as nat),
                    Err(e) => Err(e),
                },
                final(self).cursor(),
            ),
    ;

    /// Eight bytes.
    fn read_u64(&mut self) -> (r: Result<u64, ReadFault>)
        ensures
            final(self).input() == old(self).input(),
            final(self).big_endian() == old(self).big_endian(),
            read_outcome(
                old(self).input(),
                old(self).big_endian(),
                old(self).cursor(),
                8,
                match r {
                    Ok(v) => Ok(v as nat),
                    Err(e) => Err(e),
                },
                final(self).cursor(),
            ),
    ;

    /// An integer of `num_bytes` bytes for widths 1 to 5; for every other width nothing is
    /// read and the result is zero.
    fn parse_bytes(&mut self, num_bytes: u8) -> (r: Result<u64, ReadFault>)
        ensures
            final(self).input() == old(self).input(),
            final(self).big_endian() == old(self).big_endian(),
            match sized_at(
                old(self).input(),
                old(self).big_endian(),
                old(self).cursor() as int,
                num_bytes as nat,
            ) {
                Some(v) => r == Ok::<u64, ReadFault>(v as u64) && v <= u64::MAX
                    && final(self).cursor() == old(self).cursor() + span(num_bytes as nat),
                None => r == Err::<u64, ReadFault>(ReadFault::UnexpectedEof)
                    && final(self).cursor() == old(self).cursor(),
            },
    ;

    /// The region descriptor at the cursor, as `(offset, start, len)`.
    fn parse_three_point(&mut self) -> (r: Result<(u64, u64, u64), ReadFault>)
        ensures
            final(self).input() == old(self).input(),
            final(self).big_endian() == old(self).big_endian(),
            match three_point_at(old(self).input(), old(self).big_endian(), old(self).cursor() as int) {
                Some(tp) => r == Ok::<(u64, u64, u64), ReadFault>(
                    (tp.offset as u64, tp.start as u64, tp.len as u64),
                ) && tp.offset <= u64::MAX && tp.start <= u64::MAX && tp.len <= u64::MAX
                    && final(self).cursor() == clamp(
                    three_point_end(
                        old(self).input(),
                        old(self).big_endian(),
                        old(self).cursor() as int,
                    ),
                    old(self).input().len(),
                ),
                None => r == Err::<(u64, u64, u64), ReadFault>(ReadFault::UnexpectedEof)
                    && final(self).cursor() == old(self).cursor(),
            },
    ;
}

} // verus!
