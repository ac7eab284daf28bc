//! Integer hashing that scatters stars deterministically.
use vstd::prelude::*;

verus! {

/// `x * k` wrapped to 32 bits.
pub open spec fn mul_wrapped(x: u32, k: nat) -> u32 {
    ((x as nat * k) % 4294967296) as u32
}

/// The avalanche mix: xor-shift, multiply, xor-shift, multiply, xor-shift.
pub open spec fn mixed(x: u32) -> u32 {
    let a = x ^ (x >> 16u32);
    let b = mul_wrapped(a, 0x7feb_352d);
    let c = b ^ (b >> 15u32);
    let d = mul_wrapped(c, 0x846c_a68b);
    d ^ (d >> 16u32)
}

/// Scrambles the bits of `x` so that neighbouring seeds give unrelated
/// values; the same seed always gives the same value.
pub fn hash_bits(x: u32) -> (r: u32)
    ensures
        r == mixed(x),
{
    let mut x = x;
    x = x ^ (x >> 16u32);
    x = x.wrapping_mul(0x7feb_352d);
    x = x ^ (x >> 15u32);
    x = x.wrapping_mul(0x846c_a68b);
    x ^ (x >> 16u32)
}

} // verus!
