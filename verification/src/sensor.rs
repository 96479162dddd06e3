//! Deterministic hashing used by the simulated range sensor's noise model.
use vstd::prelude::*;

verus! {

/// `x mod 2^64`.
pub open spec fn mod64(x: int) -> u64 {
    (x % 0x1_0000_0000_0000_0000int) as u64
}

/// The splitmix64 finalizer.
pub open spec fn splitmix64_spec(z: u64) -> u64 {
    let z1 = mod64(z + 0x9E37_79B9_7F4A_7C15int);
    let z2 = mod64((z1 ^ (z1 >> 30u64)) as int * 0xBF58_476D_1CE4_E5B9int);
    let z3 = mod64((z2 ^ (z2 >> 27u64)) as int * 0x94D0_49BB_1331_11EBint);
    z3 ^ (z3 >> 31u64)
}

/// splitmix64: maps a seed to a well-mixed 64-bit value, deterministically.
pub fn splitmix64(z: u64) -> (r: u64)
    ensures
        r == splitmix64_spec(z),
{
    let mut z = z;
    z = z.wrapping_add(0x9E37_79B9_7F4A_7C15);
    z = (z ^ (z >> 30u64)).wrapping_mul(0xBF58_476D_1CE4_E5B9);
    z = (z ^ (z >> 27u64)).wrapping_mul(0x94D0_49BB_1331_11EB);
    z ^ (z >> 31u64)
}


/// The default seed of the sensor's deterministic noise.
pub const NOISE_SEED: u64 = 0x9E37_79B9_7F4A_7C15;

/// The hash input of the deterministic measurement noise: the bit patterns of
/// the position and the bearing, mixed with the seed.
pub open spec fn noise_input_spec(x_bits: u32, y_bits: u32, bearing_bits: u32, seed: u64) -> u64 {
    (x_bits as u64) ^ ((y_bits as u64) << 17u64) ^ mod64(bearing_bits as int * 0x9E37_79B9_7F4A_7C15int)
        ^ seed
}

/// The 53 random bits of the noise sample for a position and bearing (their
/// `f32` bit patterns): the top bits of `splitmix64` of the mixed input. The
/// sample in `[-1, 1)` is `bits / 2^53 * 2 - 1`.
pub fn noise_bits(x_bits: u32, y_bits: u32, bearing_bits: u32, seed: u64) -> (r: u64)
    ensures
        r == splitmix64_spec(noise_input_spec(x_bits, y_bits, bearing_bits, seed)) >> 11u64,
        r < 0x20_0000_0000_0000,
{
    let input = (x_bits as u64) ^ ((y_bits as u64) << 17u64) ^ (bearing_bits as u64).wrapping_mul(
        0x9E37_79B9_7F4A_7C15,
    ) ^ seed;
    let h = splitmix64(input);
    assert(h >> 11u64 < 0x20_0000_0000_0000) by (bit_vector);
    h >> 11u64
}

} // verus!
