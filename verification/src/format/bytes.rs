//! Fixed-width integers as bytes, in either byte order.

use vstd::prelude::*;

verus! {

/// The order in which the bytes of a multi-byte integer are stored.
#[derive(Clone, Copy, Debug, PartialEq, Eq, Structural)]
pub enum ByteOrder {
    /// Least significant byte first.
    Little,
    /// Most significant byte first.
    Big,
}

/// The four bytes of `x`, least significant first.
pub open spec fn u32_le(x: u32) -> Seq<u8> {
    seq![
        (x % 256) as u8,
        ((x / 256) % 256) as u8,
        ((x / 65536) % 256) as u8,
        (x / 16777216) as u8,
    ]
}

/// The four bytes of `x` in the given order.
pub open spec fn u32_bytes(x: u32, order: ByteOrder) -> Seq<u8> {
    match order {
        ByteOrder::Little => u32_le(x),
        ByteOrder::Big => u32_le(x).reverse(),
    }
}

/// The integer whose least significant byte is `b0` and most significant `b3`.
pub open spec fn u32_of(b0: u8, b1: u8, b2: u8, b3: u8) -> u32 {
    (b0 as int + 256 * (b1 as int) + 65536 * (b2 as int) + 16777216 * (b3 as int)) as u32
}

/// The integer stored in the four bytes of `bytes` that start at `at`.
pub open spec fn u32_at(bytes: Seq<u8>, at: int, order: ByteOrder) -> u32
    recommends
        0 <= at,
        at + 4 <= bytes.len(),
{
    match order {
        ByteOrder::Little => u32_of(bytes[at], bytes[at + 1], bytes[at + 2], bytes[at + 3]),
        ByteOrder::Big => u32_of(bytes[at + 3], bytes[at + 2], bytes[at + 1], bytes[at]),
    }
}

/// The eight bytes of `x` in the given order.
pub open spec fn u64_bytes(x: u64, order: ByteOrder) -> Seq<u8> {
    let low = (x % 0x1_0000_0000) as u32;
    let high = (x / 0x1_0000_0000) as u32;
    match order {
        ByteOrder::Little => u32_bytes(low, order) + u32_bytes(high, order),
        ByteOrder::Big => u32_bytes(high, order) + u32_bytes(low, order),
    }
}

/// The integer stored in the eight bytes of `bytes` that start at `at`.
pub open spec fn u64_at(bytes: Seq<u8>, at: int, order: ByteOrder) -> u64
    recommends
        0 <= at,
        at + 8 <= bytes.len(),
{
    match order {
        ByteOrder::Little => (u32_at(bytes, at, order) as int + 0x1_0000_0000 * (u32_at(
            bytes,
            at + 4,
            order,
        ) as int)) as u64,
        ByteOrder::Big => (u32_at(bytes, at + 4, order) as int + 0x1_0000_0000 * (u32_at(
            bytes,
            at,
            order,
        ) as int)) as u64,
    }
}

/// Reading back what `u32_bytes` wrote gives the integer again, wherever the
/// four bytes stand in a longer buffer.
pub proof fn lemma_u32_round_trip(bytes: Seq<u8>, at: int, x: u32, order: ByteOrder)
    requires
        0 <= at,
        at + 4 <= bytes.len(),
        bytes.subrange(at, at + 4) == u32_bytes(x, order),
    ensures
        u32_at(bytes, at, order) == x,
{
    let part = bytes.subrange(at, at + 4);
    assert(part[0] == bytes[at]);
    assert(part[1] == bytes[at + 1]);
    assert(part[2] == bytes[at + 2]);
    assert(part[3] == bytes[at + 3]);
    let le = u32_le(x);
    assert(le.len() == 4);
    assert(le.reverse().len() == 4);
    assert(le.reverse()[0] == le[3]);
    assert(le.reverse()[1] == le[2]);
    assert(le.reverse()[2] == le[1]);
    assert(le.reverse()[3] == le[0]);
}

/// Reading back what `u64_bytes` wrote gives the integer again.
pub proof fn lemma_u64_round_trip(bytes: Seq<u8>, at: int, x: u64, order: ByteOrder)
    requires
        0 <= at,
        at + 8 <= bytes.len(),
        bytes.subrange(at, at + 8) == u64_bytes(x, order),
    ensures
        u64_at(bytes, at, order) == x,
{
    let low = (x % 0x1_0000_0000) as u32;
    let high = (x / 0x1_0000_0000) as u32;
    let part = bytes.subrange(at, at + 8);
    assert(u32_bytes(low, order).len() == 4);
    assert(u32_bytes(high, order).len() == 4);
    assert(bytes.subrange(at, at + 4) == part.subrange(0, 4));
    assert(bytes.subrange(at + 4, at + 8) == part.subrange(4, 8));
    match order {
        ByteOrder::Little => {
            assert(part.subrange(0, 4) == u32_bytes(low, order));
            assert(part.subrange(4, 8) == u32_bytes(high, order));
            lemma_u32_round_trip(bytes, at, low, order);
            lemma_u32_round_trip(bytes, at + 4, high, order);
        },
        ByteOrder::Big => {
            assert(part.subrange(0, 4) == u32_bytes(high, order));
            assert(part.subrange(4, 8) == u32_bytes(low, order));
            lemma_u32_round_trip(bytes, at, high, order);
            lemma_u32_round_trip(bytes, at + 4, low, order);
        },
    }
}

/// Reads the integer stored in four bytes of `data`.
pub fn read_u32(data: &[u8], at: usize, order: ByteOrder) -> (x: u32)
    requires
        at + 4 <= data@.len(),
    ensures
        x == u32_at(data@, at as int, order),
{
    let a: u32 = data[at] as u32;
    let b: u32 = data[at + 1] as u32;
    let c: u32 = data[at + 2] as u32;
    let d: u32 = data[at + 3] as u32;
    match order {
        ByteOrder::Little => a + 256 * b + 65536 * c + 16777216 * d,
        ByteOrder::Big => d + 256 * c + 65536 * b + 16777216 * a,
    }
}

/// Reads the integer stored in eight bytes of `data`.
pub fn read_u64(data: &[u8], at: usize, order: ByteOrder) -> (x: u64)
    requires
        at + 8 <= data@.len(),
    ensures
        x == u64_at(data@, at as int, order),
{
    let len: usize = data.len();
    assert(at + 8 <= len);
    let first: u64 = read_u32(data, at, order) as u64;
    let second: u64 = read_u32(data, at + 4, order) as u64;
    match order {
        ByteOrder::Little => first + 0x1_0000_0000 * second,
        ByteOrder::Big => second + 0x1_0000_0000 * first,
    }
}

/// Appends the four bytes of `x` to `out`.
pub fn write_u32(out: &mut Vec<u8>, x: u32, order: ByteOrder)
    ensures
        final(out)@ == old(out)@ + u32_bytes(x, order),
{
    let b0: u8 = (x % 256) as u8;
    let b1: u8 = ((x / 256) % 256) as u8;
    let b2: u8 = ((x / 65536) % 256) as u8;
    let b3: u8 = (x / 16777216) as u8;
    match order {
        ByteOrder::Little => {
            out.push(b0);
            out.push(b1);
            out.push(b2);
            out.push(b3);
        },
        ByteOrder::Big => {
            out.push(b3);
            out.push(b2);
            out.push(b1);
            out.push(b0);
        },
    }
    proof {
        let le = u32_le(x);
        assert(le.reverse().len() == 4);
        assert(le.reverse()[0] == le[3]);
        assert(le.reverse()[1] == le[2]);
        assert(le.reverse()[2] == le[1]);
        assert(le.reverse()[3] == le[0]);
        assert(out@ =~= old(out)@ + u32_bytes(x, order));
    }
}

/// Appends the eight bytes of `x` to `out`.
pub fn write_u64(out: &mut Vec<u8>, x: u64, order: ByteOrder)
    ensures
        final(out)@ == old(out)@ + u64_bytes(x, order),
{
    let low: u32 = (x % 0x1_0000_0000) as u32;
    let high: u32 = (x / 0x1_0000_0000) as u32;
    match order {
        ByteOrder::Little => {
            write_u32(out, low, order);
            write_u32(out, high, order);
        },
        ByteOrder::Big => {
            write_u32(out, high, order);
            write_u32(out, low, order);
        },
    }
    proof {
        assert(out@ =~= old(out)@ + u64_bytes(x, order));
    }
}

/// Calls `u32::to_ne_bytes`, which the standard library documents as the
/// memory representation of the integer in the byte order of the target.
/// The contract claims no more than that this order is one of the two.
#[verifier::external_body]
fn native_bytes(x: u32) -> (bytes: [u8; 4])
    ensures
        bytes@ == u32_bytes(x, ByteOrder::Little) || bytes@ == u32_bytes(x, ByteOrder::Big),
{
    x.to_ne_bytes()
}

/// The byte order of the machine this runs on.
pub fn native_order() -> (order: ByteOrder) {
    order_of_one(native_bytes(1))
}

/// The byte order that four bytes show to be that of the number one: little
/// where they are the bytes of one with the least significant first, and big
/// otherwise.
pub open spec fn order_written(bytes: Seq<u8>) -> ByteOrder {
    if bytes == u32_bytes(1, ByteOrder::Little) {
        ByteOrder::Little
    } else {
        ByteOrder::Big
    }
}

/// Tells from the four bytes of the number one in which byte order they
/// were written.
pub fn order_of_one(bytes: [u8; 4]) -> (order: ByteOrder)
    ensures
        order == order_written(bytes@),
        bytes@ == u32_bytes(1, ByteOrder::Little) || bytes@ == u32_bytes(1, ByteOrder::Big)
            ==> bytes@ == u32_bytes(1, order),
{
    let little = bytes[0] == 1 && bytes[1] == 0 && bytes[2] == 0 && bytes[3] == 0;
    proof {
        let one = u32_bytes(1, ByteOrder::Little);
        assert(one.len() == 4 && one[0] == 1 && one[1] == 0 && one[2] == 0 && one[3] == 0);
        if little {
            assert(bytes@ =~= one);
        } else {
            assert(bytes@ != one);
        }
    }
    if little {
        ByteOrder::Little
    } else {
        ByteOrder::Big
    }
}

} // verus!
