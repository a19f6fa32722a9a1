use vstd::prelude::*;

verus! {

/// 256 to the power `n`.
pub open spec fn pow256(n: nat) -> nat
    decreases n,
{
    if n == 0 {
        1
    } else {
        256 * pow256((n - 1) as nat)
    }
}

/// The number that `bytes` denote when the least significant byte comes first.
pub open spec fn le_value(bytes: Seq<u8>) -> nat
    decreases bytes.len(),
{
    if bytes.len() == 0 {
        0
    } else {
        bytes.first() as nat + 256 * le_value(bytes.drop_first())
    }
}

/// The number that `bytes` denote when the most significant byte comes first.
pub open spec fn be_value(bytes: Seq<u8>) -> nat
    decreases bytes.len(),
{
    if bytes.len() == 0 {
        0
    } else {
        256 * be_value(bytes.drop_last()) + bytes.last() as nat
    }
}

/// The number that `bytes` denote in the given byte order.
pub open spec fn uint_value(bytes: Seq<u8>, big: bool) -> nat {
    if big {
        be_value(bytes)
    } else {
        le_value(bytes)
    }
}

/// Whether the `width` bytes from `pos` on all lie inside `buf`.
pub open spec fn fits(buf: Seq<u8>, pos: int, width: int) -> bool {
    0 <= pos && 0 <= width && pos + width <= buf.len()
}

/// The unsigned integer of `width` bytes that stands at `pos`, if those bytes lie inside `buf`.
pub open spec fn uint_at(buf: Seq<u8>, big: bool, pos: int, width: int) -> Option<nat> {
    if fits(buf, pos, width) {
        Some(uint_value(buf.subrange(pos, pos + width), big))
    } else {
        None
    }
}

/// The length-prefixed string at `pos`: a 32-bit length, then that many bytes.
/// Gives the bytes of the string and the position just behind them.
pub open spec fn text_at(buf: Seq<u8>, big: bool, pos: int) -> Option<(Seq<u8>, int)> {
    match uint_at(buf, big, pos, 4) {
        Some(len) => if fits(buf, pos + 4, len as int) {
            Some((buf.subrange(pos + 4, pos + 4 + len), pos + 4 + len))
        } else {
            None
        },
        None => None,
    }
}

/// How many bytes an integer of the declared width `w` takes: widths 1 to 5 are read,
/// every other width stands for an absent field.
pub open spec fn span(w: nat) -> nat {
    if 1 <= w <= 5 {
        w
    } else {
        0
    }
}

/// The integer of declared width `w` at `pos`; an absent field reads as zero.
pub open spec fn sized_at(buf: Seq<u8>, big: bool, pos: int, w: nat) -> Option<nat> {
    if 1 <= w <= 5 {
        uint_at(buf, big, pos, w as int)
    } else {
        Some(0)
    }
}

/// The upper four bits of a byte.
pub open spec fn high_nibble(b: u8) -> nat {
    (b / 16) as nat
}

/// The three values of a region descriptor, in the order in which the reader hands them out.
pub struct ThreePoint {
    pub offset: nat,
    pub start: nat,
    pub len: nat,
}

/// The declared widths of the three fields of the descriptor at `pos`:
/// the widths of offset, length and start, in this order.
pub open spec fn three_point_widths(buf: Seq<u8>, big: bool, pos: int) -> Option<(nat, nat, nat)> {
    if big {
        if fits(buf, pos, 5) {
            Some((high_nibble(buf[pos + 4]), high_nibble(buf[pos + 3]), high_nibble(buf[pos + 2])))
        } else {
            None
        }
    } else {
        if fits(buf, pos, 4) {
            Some((high_nibble(buf[pos + 1]), high_nibble(buf[pos + 2]), high_nibble(buf[pos + 3])))
        } else {
            None
        }
    }
}

/// The region descriptor at `pos`. Its field widths stand in the upper nibbles of three
/// bytes behind `pos`, in an order that depends on the byte order; the fields themselves
/// follow from `pos + 5` on as offset, length, start.
pub open spec fn three_point_at(buf: Seq<u8>, big: bool, pos: int) -> Option<ThreePoint> {
    match three_point_widths(buf, big, pos) {
        Some((ow, lw, sw)) => {
            let first = pos + 5;
            let second = first + span(ow);
            let third = second + span(lw);
            match (
                sized_at(buf, big, first, ow),
                sized_at(buf, big, second, lw),
                sized_at(buf, big, third, sw),
            ) {
                (Some(offset), Some(len), Some(start)) => Some(ThreePoint { offset, start, len }),
                _ => None,
            }
        },
        None => None,
    }
}

/// The position just behind the descriptor at `pos`.
pub open spec fn three_point_end(buf: Seq<u8>, big: bool, pos: int) -> int {
    match three_point_widths(buf, big, pos) {
        Some((ow, lw, sw)) => pos + 5 + span(ow) + span(lw) + span(sw),
        None => pos,
    }
}

/// One byte denotes itself, in either byte order.
pub proof fn lemma_uint_at_one(buf: Seq<u8>, big: bool, pos: int)
    requires
        fits(buf, pos, 1),
    ensures
        uint_at(buf, big, pos, 1) == Some(buf[pos] as nat),
{
    reveal_with_fuel(le_value, 2);
    reveal_with_fuel(be_value, 2);
}

/// The powers of 256 up to the eighth.
pub proof fn lemma_pow256_values()
    ensures
        pow256(0) == 1,
        pow256(1) == 0x100,
        pow256(2) == 0x1_0000,
        pow256(3) == 0x100_0000,
        pow256(4) == 0x1_0000_0000,
        pow256(5) == 0x100_0000_0000,
        pow256(6) == 0x1_0000_0000_0000,
        pow256(7) == 0x100_0000_0000_0000,
        pow256(8) == 0x1_0000_0000_0000_0000,
{
    reveal_with_fuel(pow256, 9);
}

} // verus!
