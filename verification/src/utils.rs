//! Fourteen-bit numbers and their seven-bit halves.

use vstd::prelude::*;

verus! {

/// The fourteen-bit number whose low seven bits are `lsb` and whose high
/// seven bits are `msb`.
pub open spec fn spec_join14(lsb: u8, msb: u8) -> u16
    recommends
        lsb < 0x80,
        msb < 0x80,
{
    (msb * 128 + lsb) as u16
}

/// Joins two seven-bit halves into a fourteen-bit number.
pub fn join14(lsb: u8, msb: u8) -> (n: u16)
    requires
        lsb < 0x80,
        msb < 0x80,
    ensures
        n == spec_join14(lsb, msb),
        n < 0x4000,
{
    let low: u16 = lsb as u16;
    let high: u16 = msb as u16;
    let n: u16 = (high << 7) | low;
    assert(((high << 7) | low) == high * 128 + low) by (bit_vector)
        requires
            low < 0x80,
            high < 0x80,
    ;
    n
}

/// Splits a number into its low seven bits and the seven bits above them;
/// what lies above the fourteenth bit is dropped.
pub fn split14(n: u16) -> (halves: (u8, u8))
    ensures
        halves.0 == n % 128,
        halves.1 == (n / 128) % 128,
        halves.0 < 0x80,
        halves.1 < 0x80,
{
    let low: u16 = n & 0x007F;
    let high: u16 = (n & 0x3F80) >> 7;
    assert(n & 0x007F == n % 128) by (bit_vector);
    assert((n & 0x3F80) >> 7 == (n / 128) % 128) by (bit_vector);
    (low as u8, high as u8)
}

} // verus!
