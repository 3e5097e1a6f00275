//! Big-endian 32-bit encoding: the integer layout used for a chunk's
//! declared length and checksum fields on the wire.

use vstd::prelude::*;

verus! {

/// The numeric value of 4 big-endian bytes.
pub open spec fn be_val(s: Seq<u8>) -> u32
    recommends
        s.len() == 4,
{
    ((s[0] as int) * 0x1000000 + (s[1] as int) * 0x10000 + (s[2] as int) * 0x100 + (
    s[3] as int)) as u32
}

/// The 4 big-endian bytes of a 32-bit value.
pub open spec fn be_bytes(x: u32) -> Seq<u8> {
    seq![
        ((x as int) / 0x1000000) as u8,
        (((x as int) / 0x10000) % 0x100) as u8,
        (((x as int) / 0x100) % 0x100) as u8,
        ((x as int) % 0x100) as u8,
    ]
}

/// Reading 4 big-endian bytes yields their numeric value.
pub fn read_be_u32(b0: u8, b1: u8, b2: u8, b3: u8) -> (r: u32)
    ensures
        r == be_val(seq![b0, b1, b2, b3]),
{
    (b0 as u32) * 0x1000000 + (b1 as u32) * 0x10000 + (b2 as u32) * 0x100 + (b3 as u32)
}

/// Appends the 4 big-endian bytes of `x` to `out`.
pub fn push_be_u32(out: &mut Vec<u8>, x: u32)
    ensures
        final(out)@ == old(out)@ + be_bytes(x),
{
    proof {
        lemma_be_byte_bounds(x);
    }
    out.push((x / 0x1000000) as u8);
    out.push(((x / 0x10000) % 0x100) as u8);
    out.push(((x / 0x100) % 0x100) as u8);
    out.push((x % 0x100) as u8);
    assert(out@ =~= old(out)@ + be_bytes(x));
}

/// Each big-endian digit of a 32-bit value fits in a byte.
pub proof fn lemma_be_byte_bounds(x: u32)
    ensures
        x / 0x1000000 < 0x100,
        (x / 0x10000) % 0x100 < 0x100,
        (x / 0x100) % 0x100 < 0x100,
        x % 0x100 < 0x100,
{
}

/// Writing a value big-endian and reading the bytes back yields the value.
pub proof fn lemma_be_val_of_be_bytes(x: u32)
    ensures
        be_val(be_bytes(x)) == x,
{
    assert(x / 0x1000000 * 0x1000000 + x / 0x10000 % 0x100 * 0x10000 + x / 0x100 % 0x100 * 0x100
        + x % 0x100 == x) by (bit_vector);
}

/// Reading 4 bytes and writing the value back big-endian yields the bytes.
pub proof fn lemma_be_bytes_of_be_val(s: Seq<u8>)
    requires
        s.len() == 4,
    ensures
        be_bytes(be_val(s)) == s,
{
    let b0 = s[0];
    let b1 = s[1];
    let b2 = s[2];
    let b3 = s[3];
    let x = be_val(s);
    assert(x == (b0 as u32) * 0x1000000 + (b1 as u32) * 0x10000 + (b2 as u32) * 0x100 + (
    b3 as u32)) by (bit_vector)
        requires
            x == (((b0 as int) * 0x1000000 + (b1 as int) * 0x10000 + (b2 as int) * 0x100 + (
            b3 as int)) as u32),
    ;
    assert(x / 0x1000000 == b0 && x / 0x10000 % 0x100 == b1 && x / 0x100 % 0x100 == b2 && x % 0x100
        == b3) by (bit_vector)
        requires
            x == (b0 as u32) * 0x1000000 + (b1 as u32) * 0x10000 + (b2 as u32) * 0x100 + (
            b3 as u32),
    ;
    assert(be_bytes(x) =~= s);
}

} // verus!
