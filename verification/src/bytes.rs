//! Integers as little-endian bytes.

use vstd::prelude::*;
use vstd::arithmetic::div_mod::lemma_fundamental_div_mod_converse;
use byteorder::{ByteOrder, LittleEndian};

verus! {

/// The unsigned number that four bytes are in little-endian order.
pub open spec fn le_u32(bytes: Seq<u8>) -> int
    recommends
        bytes.len() == 4,
{
    bytes[0] + 0x100 * bytes[1] + 0x1_0000 * bytes[2] + 0x100_0000 * bytes[3]
}

/// The unsigned number that eight bytes are in little-endian order.
pub open spec fn le_u64(bytes: Seq<u8>) -> int
    recommends
        bytes.len() == 8,
{
    le_u32(bytes.subrange(0, 4)) + 0x1_0000_0000 * le_u32(bytes.subrange(4, 8))
}

/// The four bytes of a number, the lowest first.
pub open spec fn u32_bytes(x: u32) -> Seq<u8> {
    seq![
        (x % 0x100) as u8,
        (x / 0x100 % 0x100) as u8,
        (x / 0x1_0000 % 0x100) as u8,
        (x / 0x100_0000) as u8,
    ]
}

/// The eight bytes of a number, the lowest first.
pub open spec fn u64_bytes(x: u64) -> Seq<u8> {
    u32_bytes((x % 0x1_0000_0000) as u32) + u32_bytes((x / 0x1_0000_0000) as u32)
}

/// The bytes `part` stand in `bytes` from position `at` on.
pub open spec fn occurs_at(bytes: Seq<u8>, at: int, part: Seq<u8>) -> bool {
    0 <= at && at + part.len() <= bytes.len() && bytes.subrange(at, at + part.len()) == part
}

/// Reading the bytes of a number gives the number.
pub proof fn lemma_u32_bytes(x: u32)
    ensures
        u32_bytes(x).len() == 4,
        le_u32(u32_bytes(x)) == x,
{
    let n = x as int;
    let low = n % 0x1_0000;
    let high = n / 0x1_0000;
    assert(n == 0x1_0000 * high + low);
    assert(low == 0x100 * (low / 0x100) + low % 0x100);
    assert(high == 0x100 * (high / 0x100) + high % 0x100);
    lemma_fundamental_div_mod_converse(n, 0x100, 0x100 * high + low / 0x100, low % 0x100);
    lemma_fundamental_div_mod_converse(n / 0x100, 0x100, high, low / 0x100);
    lemma_fundamental_div_mod_converse(n, 0x100_0000, high / 0x100, 0x1_0000 * (high % 0x100) + low);
}

/// Reading the bytes of a number gives the number.
pub proof fn lemma_u64_bytes(x: u64)
    ensures
        u64_bytes(x).len() == 8,
        le_u64(u64_bytes(x)) == x,
{
    let low = (x % 0x1_0000_0000) as u32;
    let high = (x / 0x1_0000_0000) as u32;
    lemma_u32_bytes(low);
    lemma_u32_bytes(high);
    assert(u64_bytes(x).subrange(0, 4) == u32_bytes(low));
    assert(u64_bytes(x).subrange(4, 8) == u32_bytes(high));
}

/// Four bytes are a number below 2^32, and its bytes are those four.
pub proof fn lemma_le_u32(bytes: Seq<u8>)
    requires
        bytes.len() == 4,
    ensures
        0 <= le_u32(bytes) <= u32::MAX,
        u32_bytes(le_u32(bytes) as u32) == bytes,
{
    let b0 = bytes[0] as int;
    let b1 = bytes[1] as int;
    let b2 = bytes[2] as int;
    let b3 = bytes[3] as int;
    let n = le_u32(bytes);
    assert(n == b0 + 0x100 * b1 + 0x1_0000 * b2 + 0x100_0000 * b3);
    lemma_fundamental_div_mod_converse(n, 0x100, b1 + 0x100 * b2 + 0x1_0000 * b3, b0);
    lemma_fundamental_div_mod_converse(n / 0x100, 0x100, b2 + 0x100 * b3, b1);
    lemma_fundamental_div_mod_converse(n, 0x1_0000, b2 + 0x100 * b3, b0 + 0x100 * b1);
    lemma_fundamental_div_mod_converse(n / 0x1_0000, 0x100, b3, b2);
    lemma_fundamental_div_mod_converse(n, 0x100_0000, b3, b0 + 0x100 * b1 + 0x1_0000 * b2);
    assert(u32_bytes(n as u32) =~= bytes);
}

/// Eight bytes are a number below 2^64, and its bytes are those eight.
pub proof fn lemma_le_u64(bytes: Seq<u8>)
    requires
        bytes.len() == 8,
    ensures
        0 <= le_u64(bytes) <= u64::MAX,
        u64_bytes(le_u64(bytes) as u64) == bytes,
{
    let low = le_u32(bytes.subrange(0, 4));
    let high = le_u32(bytes.subrange(4, 8));
    lemma_le_u32(bytes.subrange(0, 4));
    lemma_le_u32(bytes.subrange(4, 8));
    lemma_fundamental_div_mod_converse(le_u64(bytes), 0x1_0000_0000, high, low);
    assert(u64_bytes(le_u64(bytes) as u64) =~= bytes);
}

/// Where two parts stand at their places one after the other, both together
/// stand at the place of the first.
pub proof fn lemma_occurs_join(bytes: Seq<u8>, at: int, first: Seq<u8>, second: Seq<u8>)
    requires
        occurs_at(bytes, at, first),
        occurs_at(bytes, at + first.len(), second),
    ensures
        occurs_at(bytes, at, first + second),
{
    assert(bytes.subrange(at, at + first.len() + second.len()) =~= first + second) by {
        assert forall|i: int| 0 <= i < first.len() + second.len() implies bytes[at + i] == (first
            + second)[i] by {
            if i < first.len() {
                assert(bytes.subrange(at, at + first.len())[i] == first[i]);
            } else {
                assert(bytes.subrange(at + first.len(), at + first.len() + second.len())[i
                    - first.len()] == second[i - first.len()]);
            }
        }
    }
}

/// Where two parts stand one after the other, each of them stands at its
/// place.
pub proof fn lemma_occurs_split(bytes: Seq<u8>, at: int, first: Seq<u8>, second: Seq<u8>)
    requires
        occurs_at(bytes, at, first + second),
    ensures
        occurs_at(bytes, at, first),
        occurs_at(bytes, at + first.len(), second),
{
    let whole = first + second;
    assert(bytes.subrange(at, at + first.len()) == whole.subrange(0, first.len() as int));
    assert(whole.subrange(0, first.len() as int) == first);
    assert(bytes.subrange(at + first.len(), at + first.len() + second.len()) == whole.subrange(
        first.len() as int,
        whole.len() as int,
    ));
    assert(whole.subrange(first.len() as int, whole.len() as int) == second);
}

/// Calls `LittleEndian::write_u32` on a buffer of four bytes: the buffer then
/// holds the number, its lowest byte first.
#[verifier::external_body]
pub(crate) fn u32_to_le(n: u32) -> (buf: [u8; 4])
    ensures
        buf@ == u32_bytes(n),
{
    let mut buf = [0u8; 4];
    LittleEndian::write_u32(&mut buf, n);
    buf
}

/// Calls `LittleEndian::write_u64` on a buffer of eight bytes: the buffer
/// then holds the number, its lowest byte first.
#[verifier::external_body]
pub(crate) fn u64_to_le(n: u64) -> (buf: [u8; 8])
    ensures
        buf@ == u64_bytes(n),
{
    let mut buf = [0u8; 8];
    LittleEndian::write_u64(&mut buf, n);
    buf
}

/// Calls `LittleEndian::read_u32` on the bytes from `at` on: the number that
/// the first four of them are, the lowest byte first.
#[verifier::external_body]
pub(crate) fn u32_from_le(data: &[u8], at: usize) -> (n: u32)
    requires
        at + 4 <= data@.len(),
    ensures
        n == le_u32(data@.subrange(at as int, at + 4)),
{
    LittleEndian::read_u32(&data[at..])
}

/// Calls `LittleEndian::read_u64` on the bytes from `at` on: the number that
/// the first eight of them are, the lowest byte first.
#[verifier::external_body]
pub(crate) fn u64_from_le(data: &[u8], at: usize) -> (n: u64)
    requires
        at + 8 <= data@.len(),
    ensures
        n == le_u64(data@.subrange(at as int, at + 8)),
{
    LittleEndian::read_u64(&data[at..])
}

/// Appends one byte.
pub fn write_u8(out: &mut Vec<u8>, n: u8)
    ensures
        final(out)@ == old(out)@.push(n),
{
    out.push(n);
}

/// Appends bytes.
pub fn write_u8s(out: &mut Vec<u8>, v: &[u8])
    ensures
        final(out)@ == old(out)@ + v@,
{
    let mut i: usize = 0;
    while i < v.len()
        invariant
            i <= v@.len(),
            out@ == old(out)@ + v@.take(i as int),
        decreases v@.len() - i,
    {
        write_u8(out, v[i]);
        i += 1;
        assert(v@.take(i as int) == v@.take(i - 1).push(v@[i - 1]));
    }
    assert(v@.take(v@.len() as int) == v@);
}

/// Appends a little-endian `u32`.
pub fn write_u32(out: &mut Vec<u8>, n: u32)
    ensures
        final(out)@ == old(out)@ + u32_bytes(n),
{
    let buf = u32_to_le(n);
    out.push(buf[0]);
    out.push(buf[1]);
    out.push(buf[2]);
    out.push(buf[3]);
    assert(out@ =~= old(out)@ + u32_bytes(n));
}

/// Appends a little-endian `u64`.
pub fn write_u64(out: &mut Vec<u8>, n: u64)
    ensures
        final(out)@ == old(out)@ + u64_bytes(n),
{
    let buf = u64_to_le(n);
    let mut i: usize = 0;
    while i < 8
        invariant
            i <= 8,
            buf@ == u64_bytes(n),
            buf@.len() == 8,
            out@ == old(out)@ + buf@.take(i as int),
        decreases 8 - i,
    {
        out.push(buf[i]);
        i += 1;
        assert(buf@.take(i as int) == buf@.take(i - 1).push(buf@[i - 1]));
    }
    assert(buf@.take(8) == buf@);
}

/// Reads a little-endian `u32` at `at`, and gives the position after it;
/// `None` where fewer than four bytes are left.
pub fn get_u32(data: &[u8], at: usize) -> (r: Option<(u32, usize)>)
    ensures
        match r {
            Some((n, next)) => at + 4 <= data@.len() && next == at + 4 && n == le_u32(
                data@.subrange(at as int, at + 4),
            ),
            None => at + 4 > data@.len(),
        },
{
    if data.len() < 4 || at > data.len() - 4 {
        return None;
    }
    Some((u32_from_le(data, at), at + 4))
}

/// Reads a little-endian `u64` at `at`, and gives the position after it;
/// `None` where fewer than eight bytes are left.
pub fn get_u64(data: &[u8], at: usize) -> (r: Option<(u64, usize)>)
    ensures
        match r {
            Some((n, next)) => at + 8 <= data@.len() && next == at + 8 && n == le_u64(
                data@.subrange(at as int, at + 8),
            ),
            None => at + 8 > data@.len(),
        },
{
    if data.len() < 8 || at > data.len() - 8 {
        return None;
    }
    Some((u64_from_le(data, at), at + 8))
}

} // verus!
