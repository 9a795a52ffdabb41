use interlink_worldgen::fnv::{
    fnv_update, fnv_update_u16, fnv_update_u32, fnv_update_u64, fnv_update_words16, fnv_update_words32,
    fnv_update_words64, hash_f32_bits, hash_u8, mix64, FNV_OFFSET_BASIS, FNV_PRIME,
};
use interlink_worldgen::hex::hash_hex;

#[test]
fn fnv_of_empty_input_is_the_offset_basis() {
    assert_eq!(fnv_update(FNV_OFFSET_BASIS, &[]), 0xcbf2_9ce4_8422_2325);
}

#[test]
fn fnv_of_single_byte_matches_reference_value() {
    assert_eq!(fnv_update(FNV_OFFSET_BASIS, b"a"), 0xaf63_dc4c_8601_ec8c);
    let manual = (FNV_OFFSET_BASIS ^ u64::from(b'a')).wrapping_mul(FNV_PRIME);
    assert_eq!(fnv_update(FNV_OFFSET_BASIS, b"a"), manual);
}

#[test]
fn fnv_of_concatenation_is_sequential_absorption() {
    let whole = fnv_update(FNV_OFFSET_BASIS, b"drainage-topology");
    let split = fnv_update(fnv_update(FNV_OFFSET_BASIS, b"drainage-"), b"topology");
    assert_eq!(whole, split);
}

#[test]
fn integer_absorption_uses_little_endian_bytes() {
    assert_eq!(fnv_update_u16(FNV_OFFSET_BASIS, 0x0102), fnv_update(FNV_OFFSET_BASIS, &0x0102u16.to_le_bytes()));
    assert_eq!(fnv_update_u16(FNV_OFFSET_BASIS, 0x0102), 0x0839_5307_b4f1_348c);
    assert_eq!(fnv_update_u32(FNV_OFFSET_BASIS, 0x0102_0304), 0xb345_225e_3644_edb5);
    assert_eq!(
        fnv_update_u64(FNV_OFFSET_BASIS, 0x0102_0304_0506_0708),
        fnv_update(FNV_OFFSET_BASIS, &0x0102_0304_0506_0708u64.to_le_bytes())
    );
}

#[test]
fn word_lists_absorb_each_word_in_order() {
    let words16 = vec![1u16, 0xfffe, 7];
    let mut expected = FNV_OFFSET_BASIS;
    for value in &words16 {
        expected = fnv_update(expected, &value.to_le_bytes());
    }
    assert_eq!(fnv_update_words16(FNV_OFFSET_BASIS, &words16), expected);

    let words32 = vec![5u32, 0xdead_beef];
    let mut expected = FNV_OFFSET_BASIS;
    for value in &words32 {
        expected = fnv_update(expected, &value.to_le_bytes());
    }
    assert_eq!(fnv_update_words32(FNV_OFFSET_BASIS, &words32), expected);

    let words64 = vec![u64::MAX, 0];
    let mut expected = FNV_OFFSET_BASIS;
    for value in &words64 {
        expected = fnv_update(expected, &value.to_le_bytes());
    }
    assert_eq!(fnv_update_words64(FNV_OFFSET_BASIS, &words64), expected);
}

#[test]
fn length_prefixed_bytes_hash_the_count_first() {
    assert_eq!(hash_u8(FNV_OFFSET_BASIS, &[1, 2, 3]), 0x01ef_76d4_29b1_1552);
    assert_ne!(hash_u8(FNV_OFFSET_BASIS, &[1, 2, 3]), fnv_update(FNV_OFFSET_BASIS, &[1, 2, 3]));
}

#[test]
fn float_bit_patterns_hash_like_their_le_bytes() {
    let values = [1.5f32, -0.25, 0.0];
    let bits: Vec<u32> = values.iter().map(|value| value.to_bits()).collect();
    let mut expected = fnv_update(FNV_OFFSET_BASIS, &(values.len() as u64).to_le_bytes());
    for value in &values {
        expected = fnv_update(expected, &value.to_bits().to_le_bytes());
    }
    assert_eq!(hash_f32_bits(FNV_OFFSET_BASIS, &bits), expected);
}

#[test]
fn mix64_matches_splitmix_finalizer() {
    assert_eq!(mix64(0), 0);
    assert_eq!(mix64(1), 0x5692_161d_100b_05e5);
}

#[test]
fn hash_hex_renders_sixteen_lowercase_digits() {
    assert_eq!(hash_hex(0), "0000000000000000");
    assert_eq!(hash_hex(0x0123_4567_89ab_cdef), "0123456789abcdef");
    assert_eq!(hash_hex(u64::MAX), "ffffffffffffffff");
    assert_eq!(hash_hex(0xaf63_dc4c_8601_ec8c), format!("{:016x}", 0xaf63_dc4c_8601_ec8cu64));
}
