use smart_brain::rag::{fnv1a, FNV_OFFSET, FNV_PRIME};
use smart_brain::sensor::{noise_bits, splitmix64, NOISE_SEED};

#[test]
fn splitmix64_known_values() {
    assert_eq!(splitmix64(0), 0xe220_a839_7b1d_cdaf);
    assert_eq!(splitmix64(1), 0x910a_2dec_8902_5cc1);
    assert_eq!(splitmix64(42), 0xbdd7_3226_2feb_6e95);
}

#[test]
fn fnv1a_known_values() {
    assert_eq!(fnv1a(""), FNV_OFFSET);
    assert_eq!(fnv1a("a"), 0xaf63_dc4c_8601_ec8c);
    assert_eq!(fnv1a("foobar"), 0x8594_4171_f739_67e8);
    assert_eq!(fnv1a("é"), 0x0ac2_1707_b718_1e01);
    assert_eq!(FNV_PRIME, 0x100_0000_01b3);
}

#[test]
fn noise_bits_known_values() {
    assert_eq!(noise_bits(1.0f32.to_bits(), 2.0f32.to_bits(), 0.0f32.to_bits(), NOISE_SEED), 0x828_1121_a348);
    assert_eq!(noise_bits(0x4060_0000, 0xbfa0_0000, 0x3f49_0fdb, NOISE_SEED), 0x19_8445_181b_a981);
    assert!(noise_bits(u32::MAX, u32::MAX, u32::MAX, u64::MAX) < (1u64 << 53));
}
