//! The rolling 16-bit checksum of the legacy binary format.
//!
//! For each byte: if the checksum's low bit is set, rotate right through the
//! top bit (shift right one and add 0x8000), else shift right one; then add
//! the byte value, wrapping on overflow.

use vstd::prelude::*;

verus! {

/// One step of the rolling checksum.
pub open spec fn cksum_step(ck: u16, b: u8) -> u16 {
    let shifted: int = if ck % 2 == 1 {
        ck / 2 + 0x8000
    } else {
        ck as int / 2
    };
    ((shifted + b) % 0x10000) as u16
}

/// The checksum of `data` chained onto `init`, bytes taken in order.
pub open spec fn spec_cksum(data: Seq<u8>, init: u16) -> u16
    decreases data.len(),
{
    if data.len() == 0 {
        init
    } else {
        cksum_step(spec_cksum(data.drop_last(), init), data.last())
    }
}

/// Feed one byte into the rolling checksum.
pub fn cksum_byte(ck: u16, b: u8) -> (r: u16)
    ensures
        r == cksum_step(ck, b),
{
    let mut c = ck;
    if c % 2 == 1 {
        c = c / 2 + 0x8000;
    } else {
        c = c / 2;
    }
    c.wrapping_add(b as u16)
}

/// Checksum a region of bytes, chaining onto `init`.
pub fn cksum_region(base: &[u8], init: u16) -> (r: u16)
    ensures
        r == spec_cksum(base@, init),
{
    let mut ck = init;
    let n = base.len();
    let mut i: usize = 0;
    while i < n
        invariant
            n == base@.len(),
            0 <= i <= n,
            ck == spec_cksum(base@.take(i as int), init),
        decreases n - i,
    {
        let b = base[i];
        if ck % 2 == 1 {
            ck = ck / 2 + 0x8000;
        } else {
            ck = ck / 2;
        }
        ck = ck.wrapping_add(b as u16);
        proof {
            assert(base@.take(i + 1).drop_last() =~= base@.take(i as int));
            assert(base@.take(i + 1).last() == base@[i as int]);
        }
        i = i + 1;
    }
    proof {
        assert(base@.take(n as int) =~= base@);
    }
    ck
}

} // verus!
