use vstd::prelude::*;
use crate::error::DecryptFault;

verus! {

/// Length of the header that a session file carries in the clear.
pub const HEADER_LEN: usize = 0x14;

/// Whether `i` is a byte that, multiplied by `mul`, gives `xor_value` in its low eight bits.
pub open spec fn is_xor_factor(i: int, xor_value: u8, mul: u8) -> bool {
    0 <= i < 256 && (i * mul) % 256 == xor_value
}

/// The least factor of `xor_value` under `mul`, if there is any.
pub open spec fn least_xor_factor(xor_value: u8, mul: u8) -> Option<int> {
    if exists|i: int| is_xor_factor(i, xor_value, mul) {
        Some(
            choose|i: int|
                is_xor_factor(i, xor_value, mul) && forall|j: int|
                    0 <= j < i ==> !is_xor_factor(j, xor_value, mul),
        )
    } else {
        None
    }
}

/// The number from -128 to 127 that differs from `x` by a multiple of 256.
pub open spec fn signed_byte(x: int) -> int {
    if x % 256 < 128 {
        x % 256
    } else {
        x % 256 - 256
    }
}

/// The step of the key stream: the least factor of `xor_value` under `mul`, negated where
/// the scheme asks for it, as a signed byte; zero where there is no factor.
pub open spec fn xor_delta(xor_value: u8, mul: u8, negative: bool) -> int {
    match least_xor_factor(xor_value, mul) {
        Some(i) => signed_byte(
            if negative {
                -i
            } else {
                i
            },
        ),
        None => 0,
    }
}

/// The step of the key stream that the header of `raw` asks for.
pub open spec fn header_delta(raw: Seq<u8>) -> int
    recommends
        raw.len() >= HEADER_LEN,
{
    if raw[0x12] == 0x01 {
        xor_delta(raw[0x13], 53, false)
    } else {
        xor_delta(raw[0x13], 11, true)
    }
}

/// Entry `k` of the key table for the step `delta`.
pub open spec fn key_entry(delta: int, k: int) -> u8 {
    ((k * delta) % 256) as u8
}

/// Which entry of the key table the byte at position `i` is combined with.
pub open spec fn key_index(xor_type: u8, i: int) -> int {
    if xor_type == 0x01 {
        i % 256
    } else {
        (i / 4096) % 256
    }
}

/// The byte at position `i` of the decrypted buffer.
pub open spec fn plain_byte(raw: Seq<u8>, i: int) -> u8
    recommends
        raw.len() >= HEADER_LEN,
        0 <= i < raw.len(),
{
    if i < HEADER_LEN {
        raw[i]
    } else {
        raw[i] ^ key_entry(header_delta(raw), key_index(raw[0x12], i))
    }
}

/// What removing the obfuscation of `raw` gives.
pub open spec fn unxored(raw: Seq<u8>) -> Result<Seq<u8>, DecryptFault> {
    if raw.len() < HEADER_LEN {
        Err(DecryptFault::TooSmall)
    } else if raw[0x12] != 0x01 && raw[0x12] != 0x05 {
        Err(DecryptFault::UnknownXorType)
    } else {
        Ok(Seq::new(raw.len(), |i: int| plain_byte(raw, i)))
    }
}

/// Whether `out` is what `unxor` may return for `raw`.
pub open spec fn is_unxor_of(raw: Seq<u8>, out: Result<Vec<u8>, DecryptFault>) -> bool {
    match out {
        Ok(v) => unxored(raw) == Ok::<Seq<u8>, DecryptFault>(v@),
        Err(e) => unxored(raw) == Err::<Seq<u8>, DecryptFault>(e),
    }
}

/// Whether the two-byte sentinel `2F 2B` stands at position `p`.
pub open spec fn is_bitcode_at(buf: Seq<u8>, p: int) -> bool {
    0 <= p && p + 1 < buf.len() && buf[p] == 0x2f && buf[p + 1] == 0x2b
}

/// Whether the buffer holds the sentinel anywhere.
pub open spec fn has_bitcode(buf: Seq<u8>) -> bool {
    exists|p: int| is_bitcode_at(buf, p)
}

/// Searches the bytes from 0 up for the first whose product with `mul` ends in `xor_value`.
pub fn gen_xor_delta(xor_value: u8, mul: u8, negative: bool) -> (delta: i8)
    ensures
        delta == xor_delta(xor_value, mul, negative),
{
    let mut i: u16 = 0;
    while i < 256
        invariant
            i <= 256,
            forall|j: int| 0 <= j < i ==> !is_xor_factor(j, xor_value, mul),
        decreases 256 - i,
    {
        assert(0 <= i * mul <= 65025) by (nonlinear_arith)
            requires
                0 <= i < 256,
                0 <= mul < 256,
        ;
        let product: u16 = (((i as u32) * (mul as u32)) % 256) as u16;
        if product == xor_value as u16 {
            assert(is_xor_factor(i as int, xor_value, mul));
            let wide: i16 = if negative {
                if i <= 128 {
                    -(i as i16)
                } else {
                    256 - i as i16
                }
            } else {
                if i < 128 {
                    i as i16
                } else {
                    i as i16 - 256
                }
            };
            return wide as i8;
        }
        i = i + 1;
    }
    0
}

/// Removes the obfuscation of a session file: the header is copied, and every later byte
/// is combined by exclusive or with an entry of the key table chosen by its position.
pub fn unxor(raw: &[u8]) -> (out: Result<Vec<u8>, DecryptFault>)
    ensures
        is_unxor_of(raw@, out),
        raw@.len() < HEADER_LEN ==> out == Err::<Vec<u8>, DecryptFault>(DecryptFault::TooSmall),
        raw@.len() >= HEADER_LEN && raw@[0x12] != 0x01 && raw@[0x12] != 0x05 ==> out == Err::<
            Vec<u8>,
            DecryptFault,
        >(DecryptFault::UnknownXorType),
        out matches Ok(v) ==> v@.len() == raw@.len() && v@.subrange(0, HEADER_LEN as int)
            == raw@.subrange(0, HEADER_LEN as int),
{
    let len = raw.len();
    if len < HEADER_LEN {
        return Err(DecryptFault::TooSmall);
    }
    let xor_type = raw[0x12];
    let xor_value = raw[0x13];
    let xor_delta = match xor_type {
        0x01 => gen_xor_delta(xor_value, 53, false),
        0x05 => gen_xor_delta(xor_value, 11, true),
        _ => {
            return Err(DecryptFault::UnknownXorType);
        },
    };
    let mut table: Vec<u8> = Vec::new();
    let mut k: usize = 0;
    while k < 256
        invariant
            k <= 256,
            table@.len() == k,
            -128 <= xor_delta <= 127,
            forall|j: int| 0 <= j < k ==> table@[j] == key_entry(xor_delta as int, j),
        decreases 256 - k,
    {
        assert(-32640 <= k * xor_delta <= 32385) by (nonlinear_arith)
            requires
                0 <= k < 256,
                -128 <= xor_delta <= 127,
        ;
        let product: i32 = (k as i32) * (xor_delta as i32);
        let entry: u8 = (((product + 32768) as u32) % 256) as u8;
        table.push(entry);
        k = k + 1;
    }
    let mut plain: Vec<u8> = Vec::new();
    let mut i: usize = 0;
    while i < len
        invariant
            i <= len == raw@.len(),
            len >= HEADER_LEN,
            xor_type == raw@[0x12],
            xor_delta == header_delta(raw@),
            table@.len() == 256,
            forall|j: int| 0 <= j < 256 ==> table@[j] == key_entry(xor_delta as int, j),
            plain@.len() == i,
            forall|j: int| 0 <= j < i ==> plain@[j] == plain_byte(raw@, j),
        decreases len - i,
    {
        let byte = if i < HEADER_LEN {
            raw[i]
        } else {
            let index = if xor_type == 0x01 {
                i % 256
            } else {
                (i / 4096) % 256
            };
            raw[i] ^ table[index]
        };
        plain.push(byte);
        i = i + 1;
    }
    assert(plain@ =~= Seq::new(raw@.len(), |i: int| plain_byte(raw@, i)));
    Ok(plain)
}

/// The position of the first `2F 2B` in the buffer.
pub fn find_bitcode(ptf_unxored: &[u8]) -> (found: Option<usize>)
    ensures
        match found {
            Some(p) => is_bitcode_at(ptf_unxored@, p as int) && forall|q: int|
                0 <= q < p ==> !is_bitcode_at(ptf_unxored@, q),
            None => !has_bitcode(ptf_unxored@),
        },
{
    let len = ptf_unxored.len();
    let mut p: usize = 0;
    while p < len
        invariant
            p <= len == ptf_unxored@.len(),
            forall|q: int| 0 <= q < p ==> !is_bitcode_at(ptf_unxored@, q),
        decreases len - p,
    {
        if ptf_unxored[p] == 0x2f && p + 1 < len && ptf_unxored[p + 1] == 0x2b {
            return Some(p);
        }
        p = p + 1;
    }
    None
}

/// Decryption is a function of the file: two results for the same bytes are the same
/// bytes, or the same fault.
pub proof fn lemma_unxor_deterministic(
    raw: Seq<u8>,
    first: Result<Vec<u8>, DecryptFault>,
    second: Result<Vec<u8>, DecryptFault>,
)
    requires
        is_unxor_of(raw, first),
        is_unxor_of(raw, second),
    ensures
        match (first, second) {
            (Ok(a), Ok(b)) => a@ == b@,
            (Err(e), Err(f)) => e == f,
            _ => false,
        },
{
}

/// The header passes through decryption unchanged.
pub proof fn lemma_unxor_keeps_header(raw: Seq<u8>, i: int)
    requires
        unxored(raw) is Ok,
        0 <= i < HEADER_LEN,
    ensures
        unxored(raw)->Ok_0.len() == raw.len(),
        unxored(raw)->Ok_0[i] == raw[i],
{
}

} // verus!
