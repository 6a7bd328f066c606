//! Numbers and fixed-size fields in byte strings, as the wire formats spell
//! them.

use vstd::prelude::*;

verus! {

/// The number that four bytes spell in big-endian order.
pub open spec fn spec_u32_from_be(bytes: Seq<u8>) -> u32
    recommends
        bytes.len() == 4,
{
    (bytes[0] * 0x100_0000 + bytes[1] * 0x1_0000 + bytes[2] * 0x100 + bytes[3]) as u32
}

/// The four bytes that spell `value` in big-endian order.
pub open spec fn spec_u32_to_be(value: u32) -> Seq<u8> {
    seq![
        (value / 0x100_0000) as u8,
        (value / 0x1_0000 % 0x100) as u8,
        (value / 0x100 % 0x100) as u8,
        (value % 0x100) as u8,
    ]
}

/// Writing a number as four big-endian bytes and reading them back gives the
/// number.
pub proof fn lemma_u32_be_write_read(value: u32)
    ensures
        spec_u32_to_be(value).len() == 4,
        spec_u32_from_be(spec_u32_to_be(value)) == value,
{
    let v = value as int;
    let b0 = v / 0x100_0000;
    let b1 = v / 0x1_0000 % 0x100;
    let b2 = v / 0x100 % 0x100;
    let b3 = v % 0x100;
    assert(0 <= b0 < 0x100);
    assert(v == b0 * 0x100_0000 + b1 * 0x1_0000 + b2 * 0x100 + b3);
}

/// Reads the big-endian number that starts at `offset` in `bytes`.
pub fn read_u32_be(bytes: &[u8], offset: usize) -> (value: u32)
    requires
        offset + 4 <= bytes.len(),
    ensures
        value == spec_u32_from_be(bytes@.subrange(offset as int, offset + 4)),
{
    let b0: u32 = bytes[offset] as u32;
    let b1: u32 = bytes[offset + 1] as u32;
    let b2: u32 = bytes[offset + 2] as u32;
    let b3: u32 = bytes[offset + 3] as u32;
    b0 * 0x100_0000 + b1 * 0x1_0000 + b2 * 0x100 + b3
}

/// Appends the four big-endian bytes of `value` to `out`.
pub fn write_u32_be(out: &mut Vec<u8>, value: u32)
    ensures
        final(out)@ == old(out)@ + spec_u32_to_be(value),
{
    out.push((value / 0x100_0000) as u8);
    out.push((value / 0x1_0000 % 0x100) as u8);
    out.push((value / 0x100 % 0x100) as u8);
    out.push((value % 0x100) as u8);
    proof {
        assert(out@ =~= old(out)@ + spec_u32_to_be(value));
    }
}

/// The `N` bytes of `data` from `offset` on, as an array.
pub fn read_array<const N: usize>(data: &[u8], offset: usize) -> (array: [u8; N])
    requires
        offset + N <= data@.len(),
    ensures
        array@ == data@.subrange(offset as int, offset + N),
{
    let size: usize = data.len();
    let mut array: [u8; N] = [0u8; N];
    let mut k: usize = 0;
    while k < N
        invariant
            k <= N,
            offset + N <= size,
            size == data@.len(),
            forall|m: int| 0 <= m < k ==> array@[m] == data@[offset + m],
        decreases N - k,
    {
        array[k] = data[offset + k];
        k += 1;
    }
    proof {
        assert(array@ =~= data@.subrange(offset as int, offset + N));
    }
    array
}

} // verus!
