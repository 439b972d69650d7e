//! Integers as bytes, in either byte order.
use vstd::prelude::*;
use vstd::slice::slice_subrange;

verus! {

/// The order in which a machine lays the bytes of an integer out.
#[derive(Debug, Clone, Copy, PartialEq, Eq, Structural)]
pub enum ByteOrder {
    /// The least significant byte first.
    Little,
    /// The most significant byte first.
    Big,
}

/// The two bytes of a number.
pub open spec fn u16_bytes(order: ByteOrder, v: u16) -> Seq<u8> {
    let lo = (v % 0x100) as u8;
    let hi = (v / 0x100) as u8;
    match order {
        ByteOrder::Little => seq![lo, hi],
        ByteOrder::Big => seq![hi, lo],
    }
}

/// The four bytes of a number.
pub open spec fn u32_bytes(order: ByteOrder, v: u32) -> Seq<u8> {
    let b0 = (v % 0x100) as u8;
    let b1 = (v / 0x100 % 0x100) as u8;
    let b2 = (v / 0x1_0000 % 0x100) as u8;
    let b3 = (v / 0x100_0000) as u8;
    match order {
        ByteOrder::Little => seq![b0, b1, b2, b3],
        ByteOrder::Big => seq![b3, b2, b1, b0],
    }
}

/// The number whose two bytes stand at position `i`.
pub open spec fn u16_at(order: ByteOrder, s: Seq<u8>, i: int) -> u16 {
    match order {
        ByteOrder::Little => (s[i] + 0x100 * s[i + 1]) as u16,
        ByteOrder::Big => (s[i + 1] + 0x100 * s[i]) as u16,
    }
}

/// The number whose four bytes stand at position `i`.
pub open spec fn u32_at(order: ByteOrder, s: Seq<u8>, i: int) -> u32 {
    match order {
        ByteOrder::Little => (s[i] + 0x100 * s[i + 1] + 0x1_0000 * s[i + 2] + 0x100_0000 * s[i
            + 3]) as u32,
        ByteOrder::Big => (s[i + 3] + 0x100 * s[i + 2] + 0x1_0000 * s[i + 1] + 0x100_0000
            * s[i]) as u32,
    }
}

/// A 32-bit pattern read as a signed number.
pub open spec fn signed32(v: u32) -> i32 {
    if v >= 0x8000_0000 {
        (v - 0x1_0000_0000) as i32
    } else {
        v as i32
    }
}

/// The lowest eight bits of a number.
pub open spec fn low_byte(v: i32) -> u8 {
    (v % 0x100) as u8
}

/// The lowest eight bits of a number.
pub fn low_byte_of(v: i32) -> (r: u8)
    ensures
        r == low_byte(v),
{
    assert(v as u8 == (v % 0x100) as u8) by (bit_vector);
    v as u8
}

/// `n` zero bytes.
pub open spec fn zeros(n: nat) -> Seq<u8> {
    Seq::new(n, |i: int| 0u8)
}

/// The byte order of this machine, which `vstd::endian::endianness` stands for.
pub open spec fn host_order() -> ByteOrder {
    match vstd::endian::endianness() {
        vstd::endian::Endian::Little => ByteOrder::Little,
        vstd::endian::Endian::Big => ByteOrder::Big,
    }
}

/// `u32::to_ne_bytes`: the bytes of a number in the machine's own order. Which of the two that is
/// depends on the machine alone, and is left open.
#[verifier::external_body]
fn native_u32_bytes(v: u32) -> (r: [u8; 4])
    ensures
        r@ == u32_bytes(host_order(), v),
{
    v.to_ne_bytes()
}

/// The byte order in which the number one is laid out as `sample`.
pub fn byte_order_of(sample: [u8; 4]) -> (r: ByteOrder)
    ensures
        r is Little <==> sample@[0] == 1,
{
    if sample[0] == 1 {
        ByteOrder::Little
    } else {
        ByteOrder::Big
    }
}

/// The byte order of this machine.
pub fn host_byte_order() -> (r: ByteOrder)
    ensures
        r == host_order(),
{
    byte_order_of(native_u32_bytes(1))
}

/// Appends the two bytes of a number.
pub fn push_u16(order: ByteOrder, out: &mut Vec<u8>, v: u16)
    ensures
        final(out)@ == old(out)@ + u16_bytes(order, v),
{
    let lo: u8 = (v % 0x100) as u8;
    let hi: u8 = (v / 0x100) as u8;
    match order {
        ByteOrder::Little => {
            out.push(lo);
            out.push(hi);
        },
        ByteOrder::Big => {
            out.push(hi);
            out.push(lo);
        },
    }
    assert(out@ =~= old(out)@ + u16_bytes(order, v));
}

/// Appends the four bytes of a number.
pub fn push_u32(order: ByteOrder, out: &mut Vec<u8>, v: u32)
    ensures
        final(out)@ == old(out)@ + u32_bytes(order, v),
{
    let b0: u8 = (v % 0x100) as u8;
    let b1: u8 = (v / 0x100 % 0x100) as u8;
    let b2: u8 = (v / 0x1_0000 % 0x100) as u8;
    let b3: u8 = (v / 0x100_0000) as u8;
    match order {
        ByteOrder::Little => {
            out.push(b0);
            out.push(b1);
            out.push(b2);
            out.push(b3);
        },
        ByteOrder::Big => {
            out.push(b3);
            out.push(b2);
            out.push(b1);
            out.push(b0);
        },
    }
    assert(out@ =~= old(out)@ + u32_bytes(order, v));
}

/// Reads the two bytes at position `i` as a number.
pub fn read_u16(order: ByteOrder, s: &[u8], i: usize) -> (r: u16)
    requires
        i + 2 <= s@.len(),
    ensures
        r == u16_at(order, s@, i as int),
{
    let n: usize = s.len();
    assert(i + 2 <= n);
    match order {
        ByteOrder::Little => s[i] as u16 + 0x100 * s[i + 1] as u16,
        ByteOrder::Big => s[i + 1] as u16 + 0x100 * s[i] as u16,
    }
}

/// Reads the four bytes at position `i` as a number.
pub fn read_u32(order: ByteOrder, s: &[u8], i: usize) -> (r: u32)
    requires
        i + 4 <= s@.len(),
    ensures
        r == u32_at(order, s@, i as int),
{
    let n: usize = s.len();
    assert(i + 4 <= n);
    match order {
        ByteOrder::Little => s[i] as u32 + 0x100 * s[i + 1] as u32 + 0x1_0000 * s[i + 2] as u32
            + 0x100_0000 * s[i + 3] as u32,
        ByteOrder::Big => s[i + 3] as u32 + 0x100 * s[i + 2] as u32 + 0x1_0000 * s[i + 1] as u32
            + 0x100_0000 * s[i] as u32,
    }
}

/// Reads a 32-bit pattern as a signed number.
pub fn to_signed32(v: u32) -> (r: i32)
    ensures
        r == signed32(v),
{
    if v >= 0x8000_0000 {
        ((v as i64) - 0x1_0000_0000) as i32
    } else {
        v as i32
    }
}

/// The bytes from position `at` on; none where `at` is past the end.
pub fn tail(s: &[u8], at: usize) -> (r: &[u8])
    ensures
        at <= s@.len() ==> r@ == s@.subrange(at as int, s@.len() as int),
        at > s@.len() ==> r@ == Seq::<u8>::empty(),
{
    let n: usize = s.len();
    if at <= n {
        slice_subrange(s, at, n)
    } else {
        slice_subrange(s, n, n)
    }
}

/// What is written in either byte order is read back in the same order, whatever stands around
/// it.
pub proof fn u16_reads_back(order: ByteOrder, v: u16, before: Seq<u8>, after: Seq<u8>)
    ensures
        u16_at(order, before + u16_bytes(order, v) + after, before.len() as int) == v,
{
    let s = before + u16_bytes(order, v) + after;
    let n = before.len() as int;
    let b = u16_bytes(order, v);
    assert(s[n] == b[0] && s[n + 1] == b[1]);
}

/// What is written in either byte order is read back in the same order, whatever stands around
/// it.
pub proof fn u32_reads_back(order: ByteOrder, v: u32, before: Seq<u8>, after: Seq<u8>)
    ensures
        u32_at(order, before + u32_bytes(order, v) + after, before.len() as int) == v,
{
    assert(v == v % 0x100 + 0x100 * (v / 0x100 % 0x100) + 0x1_0000 * (v / 0x1_0000 % 0x100)
        + 0x100_0000 * (v / 0x100_0000)) by (bit_vector);
    assert(v / 0x100_0000 < 0x100) by (bit_vector);
    let s = before + u32_bytes(order, v) + after;
    let n = before.len() as int;
    let b = u32_bytes(order, v);
    assert(s[n] == b[0] && s[n + 1] == b[1] && s[n + 2] == b[2] && s[n + 3] == b[3]);
}

} // verus!
