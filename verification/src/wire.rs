//! The integers inside the kernel's structures.
//!
//! The kernel writes its records into this process's memory, so every field is
//! in the byte order of the machine.  vstd's
//! [`endianness`](vstd::endian::endianness) stands for that order in contracts;
//! one probe of the running machine connects it to the code.
use vstd::endian::{endianness, Endian};
use vstd::prelude::*;

verus! {

/// The number that two bytes in the machine's order hold.
pub open spec fn u16_of(s: Seq<u8>) -> u16
    recommends
        s.len() == 2,
{
    match endianness() {
        Endian::Little => (s[0] + 0x100 * s[1]) as u16,
        Endian::Big => (s[1] + 0x100 * s[0]) as u16,
    }
}

/// The number that four bytes in the machine's order hold.
pub open spec fn u32_of(s: Seq<u8>) -> u32
    recommends
        s.len() == 4,
{
    match endianness() {
        Endian::Little => (s[0] + 0x100 * s[1] + 0x1_0000 * s[2] + 0x100_0000 * s[3]) as u32,
        Endian::Big => (s[3] + 0x100 * s[2] + 0x1_0000 * s[1] + 0x100_0000 * s[0]) as u32,
    }
}

/// The number that eight bytes in the machine's order hold.
pub open spec fn u64_of(s: Seq<u8>) -> u64
    recommends
        s.len() == 8,
{
    match endianness() {
        Endian::Little => (s[0] + 0x100 * s[1] + 0x1_0000 * s[2] + 0x100_0000 * s[3]
            + 0x1_0000_0000 * s[4] + 0x100_0000_0000 * s[5] + 0x1_0000_0000_0000 * s[6]
            + 0x100_0000_0000_0000 * s[7]) as u64,
        Endian::Big => (s[7] + 0x100 * s[6] + 0x1_0000 * s[5] + 0x100_0000 * s[4]
            + 0x1_0000_0000 * s[3] + 0x100_0000_0000 * s[2] + 0x1_0000_0000_0000 * s[1]
            + 0x100_0000_0000_0000 * s[0]) as u64,
    }
}

/// The two bytes of a number, in the machine's order.
pub open spec fn u16_bytes(x: u16) -> Seq<u8> {
    let (low, high) = ((x % 0x100) as u8, (x / 0x100) as u8);
    match endianness() {
        Endian::Little => seq![low, high],
        Endian::Big => seq![high, low],
    }
}

/// The four bytes of a number, in the machine's order.
pub open spec fn u32_bytes(x: u32) -> Seq<u8> {
    let b0 = (x % 0x100) as u8;
    let b1 = (x / 0x100 % 0x100) as u8;
    let b2 = (x / 0x1_0000 % 0x100) as u8;
    let b3 = (x / 0x100_0000) as u8;
    match endianness() {
        Endian::Little => seq![b0, b1, b2, b3],
        Endian::Big => seq![b3, b2, b1, b0],
    }
}

/// Reading back a written `u16` gives the number that was written.
pub proof fn u16_round_trip(x: u16)
    ensures
        u16_bytes(x).len() == 2,
        u16_of(u16_bytes(x)) == x,
{
}

/// Reading back a written `u32` gives the number that was written.
pub proof fn u32_round_trip(x: u32)
    ensures
        u32_bytes(x).len() == 4,
        u32_of(u32_bytes(x)) == x,
{
    let q1 = x / 0x100;
    let q2 = x / 0x1_0000;
    assert(q2 == q1 / 0x100);
    assert(x / 0x100_0000 == q2 / 0x100);
}

/// The eight bytes of a number, in the machine's order.
pub open spec fn u64_bytes(x: u64) -> Seq<u8> {
    let low = (x % 0x1_0000_0000) as u32;
    let high = (x / 0x1_0000_0000) as u32;
    match endianness() {
        Endian::Little => u32_bytes(low) + u32_bytes(high),
        Endian::Big => u32_bytes(high) + u32_bytes(low),
    }
}

/// The four bytes of a signed number, in the machine's order.
pub open spec fn i32_bytes(x: i32) -> Seq<u8> {
    u32_bytes(x as u32)
}

/// Reading back a written `i32` gives the number that was written, its sign
/// included.
pub proof fn i32_round_trip(x: i32)
    ensures
        i32_bytes(x).len() == 4,
        u32_of(i32_bytes(x)) as i32 == x,
{
    u32_round_trip(x as u32);
    assert((x as u32) as i32 == x) by (bit_vector);
}

/// A two-byte number is made of one byte that counts units and one that counts
/// 256s; on a little-endian machine the units come first.
pub proof fn a_u16_is_two_bytes(s: Seq<u8>)
    requires
        s.len() == 2,
    ensures
        endianness() is Little ==> u16_of(s) % 0x100 == s[0] && u16_of(s) / 0x100 == s[1],
        endianness() is Big ==> u16_of(s) % 0x100 == s[1] && u16_of(s) / 0x100 == s[0],
        u16_bytes(u16_of(s)) == s,
{
    assert(u16_bytes(u16_of(s)) =~= s);
}

/// A four-byte number is made of two two-byte numbers, each in the same order as
/// the bytes within it.
pub proof fn a_u32_is_two_u16s(s: Seq<u8>)
    requires
        s.len() == 4,
    ensures
        endianness() is Little ==> u32_of(s) == u16_of(s.take(2)) + 0x1_0000 * u16_of(s.skip(2)),
        endianness() is Big ==> u32_of(s) == u16_of(s.skip(2)) + 0x1_0000 * u16_of(s.take(2)),
{
}

/// An eight-byte number is made of two four-byte numbers, in the same way.
pub proof fn a_u64_is_two_u32s(s: Seq<u8>)
    requires
        s.len() == 8,
    ensures
        endianness() is Little ==> u64_of(s) == u32_of(s.take(4)) + 0x1_0000_0000 * u32_of(
            s.skip(4),
        ),
        endianness() is Big ==> u64_of(s) == u32_of(s.skip(4)) + 0x1_0000_0000 * u32_of(s.take(4)),
{
}

/// Reading back a written `u64` gives the number that was written.
pub proof fn u64_round_trip(x: u64)
    ensures
        u64_bytes(x).len() == 8,
        u64_of(u64_bytes(x)) == x,
{
    let low = (x % 0x1_0000_0000) as u32;
    let high = (x / 0x1_0000_0000) as u32;
    u32_round_trip(low);
    u32_round_trip(high);
    let s = u64_bytes(x);
    assert(s.take(4) + s.skip(4) =~= s);
    match endianness() {
        Endian::Little => {
            assert(s.take(4) =~= u32_bytes(low));
            assert(s.skip(4) =~= u32_bytes(high));
        },
        Endian::Big => {
            assert(s.take(4) =~= u32_bytes(high));
            assert(s.skip(4) =~= u32_bytes(low));
        },
    }
    a_u64_is_two_u32s(s);
}

/// What the machine makes of the bytes `01 00`: `u16::from_ne_bytes`, which
/// reads an array in the target's native order.  The contract says that a
/// little-endian machine reads 1 and a big-endian one 256.
#[verifier::external_body]
fn native_probe() -> (r: u16)
    ensures
        r == (if endianness() is Little {
            1u16
        } else {
            0x100u16
        }),
{
    u16::from_ne_bytes([1, 0])
}

/// Whether the least significant byte of a number comes first.
pub fn is_little_endian() -> (r: bool)
    ensures
        r == (endianness() is Little),
{
    native_probe() == 1
}

/// The `u16` at `at`.
pub fn u16_at(buf: &[u8], at: usize) -> (r: u16)
    requires
        at + 2 <= buf@.len(),
    ensures
        r == u16_of(buf@.subrange(at as int, at + 2)),
{
    let (b0, b1) = (buf[at], buf[at + 1]);
    if is_little_endian() {
        b0 as u16 + 0x100 * b1 as u16
    } else {
        b1 as u16 + 0x100 * b0 as u16
    }
}

/// The `u32` at `at`.
pub fn u32_at(buf: &[u8], at: usize) -> (r: u32)
    requires
        at + 4 <= buf@.len(),
    ensures
        r == u32_of(buf@.subrange(at as int, at + 4)),
{
    let (b0, b1, b2, b3) = (buf[at], buf[at + 1], buf[at + 2], buf[at + 3]);
    if is_little_endian() {
        b0 as u32 + 0x100 * b1 as u32 + 0x1_0000 * b2 as u32 + 0x100_0000 * b3 as u32
    } else {
        b3 as u32 + 0x100 * b2 as u32 + 0x1_0000 * b1 as u32 + 0x100_0000 * b0 as u32
    }
}

/// The `u64` at `at`.
pub fn u64_at(buf: &[u8], at: usize) -> (r: u64)
    requires
        at + 8 <= buf@.len(),
    ensures
        r == u64_of(buf@.subrange(at as int, at + 8)),
{
    let (b0, b1, b2, b3) = (buf[at], buf[at + 1], buf[at + 2], buf[at + 3]);
    let (b4, b5, b6, b7) = (buf[at + 4], buf[at + 5], buf[at + 6], buf[at + 7]);
    if is_little_endian() {
        b0 as u64 + 0x100 * b1 as u64 + 0x1_0000 * b2 as u64 + 0x100_0000 * b3 as u64
            + 0x1_0000_0000 * b4 as u64 + 0x100_0000_0000 * b5 as u64
            + 0x1_0000_0000_0000 * b6 as u64 + 0x100_0000_0000_0000 * b7 as u64
    } else {
        b7 as u64 + 0x100 * b6 as u64 + 0x1_0000 * b5 as u64 + 0x100_0000 * b4 as u64
            + 0x1_0000_0000 * b3 as u64 + 0x100_0000_0000 * b2 as u64
            + 0x1_0000_0000_0000 * b1 as u64 + 0x100_0000_0000_0000 * b0 as u64
    }
}

/// The bytes of a `u16` in the machine's order.
pub fn u16_array(x: u16) -> (r: [u8; 2])
    ensures
        r@ == u16_bytes(x),
{
    let low: u8 = (x % 0x100) as u8;
    let high: u8 = (x / 0x100) as u8;
    let r: [u8; 2] = if is_little_endian() {
        [low, high]
    } else {
        [high, low]
    };
    assert(r@ =~= u16_bytes(x));
    r
}

/// The bytes of a `u32` in the machine's order.
pub fn u32_array(x: u32) -> (r: [u8; 4])
    ensures
        r@ == u32_bytes(x),
{
    let b0: u8 = (x % 0x100) as u8;
    let b1: u8 = (x / 0x100 % 0x100) as u8;
    let b2: u8 = (x / 0x1_0000 % 0x100) as u8;
    let b3: u8 = (x / 0x100_0000) as u8;
    let r: [u8; 4] = if is_little_endian() {
        [b0, b1, b2, b3]
    } else {
        [b3, b2, b1, b0]
    };
    assert(r@ =~= u32_bytes(x));
    r
}

/// Append a `u16` in the machine's order.
pub fn push_u16(out: &mut Vec<u8>, x: u16)
    ensures
        final(out)@ == old(out)@ + u16_bytes(x),
{
    push_bytes(out, u16_array(x).as_slice());
}

/// Append a `u32` in the machine's order.
pub fn push_u32(out: &mut Vec<u8>, x: u32)
    ensures
        final(out)@ == old(out)@ + u32_bytes(x),
{
    push_bytes(out, u32_array(x).as_slice());
}

/// Append a run of bytes.
pub fn push_bytes(out: &mut Vec<u8>, bytes: &[u8])
    ensures
        final(out)@ == old(out)@ + bytes@,
{
    out.extend_from_slice(bytes);
    assert(out@ =~= old(out)@ + bytes@);
}

/// A run of bytes as an owned vector.
pub fn to_bytes(bytes: &[u8]) -> (out: Vec<u8>)
    ensures
        out@ == bytes@,
{
    let mut out: Vec<u8> = Vec::new();
    push_bytes(&mut out, bytes);
    assert(out@ =~= bytes@);
    out
}

/// Whether two byte strings hold the same bytes.
pub fn same_bytes(a: &[u8], b: &[u8]) -> (r: bool)
    ensures
        r == (a@ == b@),
{
    if a.len() != b.len() {
        return false;
    }
    let mut i: usize = 0;
    while i < a.len()
        invariant
            i <= a@.len(),
            a@.len() == b@.len(),
            forall|k: int| 0 <= k < i ==> a@[k] == b@[k],
        decreases a@.len() - i,
    {
        if a[i] != b[i] {
            return false;
        }
        i = i + 1;
    }
    assert(a@ =~= b@);
    true
}

} // verus!
