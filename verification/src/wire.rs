//! Numbers inside records that the kernel side writes in the machine's own byte order.

use vstd::endian::Endian;
use vstd::prelude::*;

verus! {

/// The order in which the bytes of a number stand.
#[derive(Clone, Copy, PartialEq, Eq, Debug, Structural)]
pub enum ByteOrder {
    /// The low byte comes first.
    Little,
    /// The high byte comes first.
    Big,
}

/// The byte order of the machine that the program runs on.
pub open spec fn machine_order() -> ByteOrder {
    match vstd::endian::endianness() {
        Endian::Little => ByteOrder::Little,
        Endian::Big => ByteOrder::Big,
    }
}

/// The two bytes of a number.
pub open spec fn bytes_of(n: u16, order: ByteOrder) -> Seq<u8> {
    match order {
        ByteOrder::Little => seq![(n % 256) as u8, (n / 256) as u8],
        ByteOrder::Big => seq![(n / 256) as u8, (n % 256) as u8],
    }
}

/// `u16::to_ne_bytes` gives the bytes of a number in the byte order of the machine.
#[verifier::external_body]
fn native_bytes(n: u16) -> (b: [u8; 2])
    ensures
        b@ == bytes_of(n, machine_order()),
{
    n.to_ne_bytes()
}

/// Finds out the byte order of the machine.
pub fn native_order() -> (order: ByteOrder)
    ensures
        order == machine_order(),
{
    let probe: [u8; 2] = native_bytes(1);
    if probe[0] == 1 {
        ByteOrder::Little
    } else {
        ByteOrder::Big
    }
}

/// The 16-bit number at `at`.
pub open spec fn u16_at(data: Seq<u8>, at: int, order: ByteOrder) -> u16 {
    match order {
        ByteOrder::Little => (data[at] + 256 * data[at + 1]) as u16,
        ByteOrder::Big => (256 * data[at] + data[at + 1]) as u16,
    }
}

/// The 32-bit number at `at`.
pub open spec fn u32_at(data: Seq<u8>, at: int, order: ByteOrder) -> u32 {
    let first = u16_at(data, at, order);
    let second = u16_at(data, at + 2, order);
    match order {
        ByteOrder::Little => (first + 65536 * second) as u32,
        ByteOrder::Big => (65536 * first + second) as u32,
    }
}

/// The 64-bit number at `at`.
pub open spec fn u64_at(data: Seq<u8>, at: int, order: ByteOrder) -> u64 {
    let first = u32_at(data, at, order);
    let second = u32_at(data, at + 4, order);
    match order {
        ByteOrder::Little => (first + 4294967296 * second) as u64,
        ByteOrder::Big => (4294967296 * first + second) as u64,
    }
}

pub(crate) fn read_u16(data: &[u8], at: usize, order: ByteOrder) -> (n: u16)
    requires
        at + 2 <= data.len(),
    ensures
        n == u16_at(data@, at as int, order),
{
    let first: u16 = data[at] as u16;
    let second: u16 = data[at + 1] as u16;
    match order {
        ByteOrder::Little => first + 256 * second,
        ByteOrder::Big => 256 * first + second,
    }
}

pub(crate) fn read_u32(data: &[u8], at: usize, order: ByteOrder) -> (n: u32)
    requires
        at + 4 <= data.len(),
    ensures
        n == u32_at(data@, at as int, order),
{
    let first: u32 = read_u16(data, at, order) as u32;
    let second: u32 = read_u16(data, at + 2, order) as u32;
    match order {
        ByteOrder::Little => first + 65536 * second,
        ByteOrder::Big => 65536 * first + second,
    }
}

pub(crate) fn read_u64(data: &[u8], at: usize, order: ByteOrder) -> (n: u64)
    requires
        at + 8 <= data.len(),
    ensures
        n == u64_at(data@, at as int, order),
{
    let first: u64 = read_u32(data, at, order) as u64;
    let second: u64 = read_u32(data, at + 4, order) as u64;
    match order {
        ByteOrder::Little => first + 4294967296 * second,
        ByteOrder::Big => 4294967296 * first + second,
    }
}

/// The `N` bytes that start at `at`.
pub(crate) fn read_array<const N: usize>(data: &[u8], at: usize) -> (bytes: [u8; N])
    requires
        at + N <= data.len(),
    ensures
        bytes@ == data@.subrange(at as int, at + N),
{
    let mut bytes: [u8; N] = [0; N];
    let mut i: usize = 0;
    while i < N
        invariant
            i <= N,
            at + N <= data.len(),
            forall|k: int| 0 <= k < i ==> bytes@[k] == data@[at + k],
        decreases N - i,
    {
        bytes[i] = data[at + i];
        i += 1;
    }
    assert(bytes@ =~= data@.subrange(at as int, at + N));
    bytes
}

/// The bytes of a number are read back as that number.
pub proof fn bytes_read_back(n: u16, order: ByteOrder)
    ensures
        u16_at(bytes_of(n, order), 0, order) == n,
{
}

} // verus!
