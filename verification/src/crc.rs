//! The 32-bit cyclic-redundancy checksum that trails each chunk's payload,
//! computed over the 4 tag bytes followed by the payload bytes.

use vstd::prelude::*;

verus! {

/// One bit-step of the checksum: shift right, folding in the reflected
/// generator polynomial when the dropped bit was set.
pub open spec fn crc_step(c: u32) -> u32 {
    if c & 1 == 1 {
        (c >> 1) ^ 0xEDB88320
    } else {
        c >> 1
    }
}

/// `n` bit-steps in a row.
pub open spec fn crc_steps(c: u32, n: nat) -> u32
    decreases n,
{
    if n == 0 {
        c
    } else {
        crc_steps(crc_step(c), (n - 1) as nat)
    }
}

/// Folds one byte into the running state: xor into the low byte, then
/// 8 bit-steps.
pub open spec fn crc_push_byte(c: u32, b: u8) -> u32 {
    crc_steps(c ^ (b as u32), 8)
}

/// Folds a whole byte sequence into the running state, front to back.
pub open spec fn crc_fold(c: u32, data: Seq<u8>) -> u32
    decreases data.len(),
{
    if data.len() == 0 {
        c
    } else {
        crc_fold(crc_push_byte(c, data[0]), data.skip(1))
    }
}

/// The checksum of `data`: fold starting from all-ones, then invert.
pub open spec fn crc32_of(data: Seq<u8>) -> u32 {
    crc_fold(0xFFFFFFFFu32, data) ^ 0xFFFFFFFF
}

/// Folds one byte into the running state.
fn crc_byte(c: u32, b: u8) -> (r: u32)
    ensures
        r == crc_push_byte(c, b),
{
    let mut x: u32 = c ^ (b as u32);
    let mut j: usize = 0;
    while j < 8
        invariant
            j <= 8,
            crc_steps(x, (8 - j) as nat) == crc_push_byte(c, b),
        decreases 8 - j,
    {
        x = if x & 1 == 1 {
            (x >> 1) ^ 0xEDB88320
        } else {
            x >> 1
        };
        j += 1;
    }
    x
}

/// Computes the checksum of `data`.
pub fn crc32(data: &[u8]) -> (r: u32)
    ensures
        r == crc32_of(data@),
{
    let mut c: u32 = 0xFFFFFFFF;
    let mut i: usize = 0;
    proof {
        assert(data@.skip(0) =~= data@);
    }
    while i < data.len()
        invariant
            i <= data@.len(),
            crc_fold(c, data@.skip(i as int)) == crc_fold(0xFFFFFFFFu32, data@),
        decreases data@.len() - i,
    {
        proof {
            assert(data@.skip(i as int).skip(1) =~= data@.skip(i as int + 1));
        }
        c = crc_byte(c, data[i]);
        i += 1;
    }
    c ^ 0xFFFFFFFF
}

} // verus!
