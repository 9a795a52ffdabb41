//! FNV-1a hashing over byte streams and little-endian integer encodings,
//! together with the SplitMix64 finalizer used to scramble stream seeds.

use vstd::prelude::*;

verus! {

/// FNV-1a 64-bit offset basis.
pub const FNV_OFFSET_BASIS: u64 = 0xcbf2_9ce4_8422_2325;

/// FNV-1a 64-bit prime.
pub const FNV_PRIME: u64 = 0x0000_0100_0000_01b3;

/// One FNV-1a step: xor the byte in, then multiply by the prime modulo 2^64.
pub open spec fn fnv_step(hash: u64, byte: u8) -> u64 {
    vstd::wrapping::u64_specs::wrapping_mul(hash ^ (byte as u64), FNV_PRIME)
}

/// FNV-1a state after absorbing `bytes`, in order, starting from `hash`.
pub open spec fn fnv_fold(hash: u64, bytes: Seq<u8>) -> u64
    decreases bytes.len(),
{
    if bytes.len() == 0 {
        hash
    } else {
        fnv_step(fnv_fold(hash, bytes.drop_last()), bytes.last())
    }
}

/// Absorbing a concatenation is absorbing its two parts one after the other.
pub proof fn lemma_fnv_fold_concat(hash: u64, a: Seq<u8>, b: Seq<u8>)
    ensures
        fnv_fold(hash, a + b) == fnv_fold(fnv_fold(hash, a), b),
    decreases b.len(),
{
    if b.len() == 0 {
        assert(a + b =~= a);
    } else {
        lemma_fnv_fold_concat(hash, a, b.drop_last());
        assert((a + b).drop_last() =~= a + b.drop_last());
        assert((a + b).last() == b.last());
    }
}

/// Absorbs `bytes` into `hash` (FNV-1a).
pub fn fnv_update(hash: u64, bytes: &[u8]) -> (result: u64)
    ensures
        result == fnv_fold(hash, bytes@),
{
    let mut h = hash;
    let mut i: usize = 0;
    while i < bytes.len()
        invariant
            i <= bytes@.len(),
            h == fnv_fold(hash, bytes@.take(i as int)),
        decreases bytes@.len() - i,
    {
        assert(bytes@.take((i + 1) as int).drop_last() =~= bytes@.take(i as int));
        h = (h ^ (bytes[i] as u64)).wrapping_mul(FNV_PRIME);
        i = i + 1;
    }
    assert(bytes@.take(i as int) =~= bytes@);
    h
}


/// Little-endian encoding of the low `width` bytes of `value`
/// (the bytes of `to_le_bytes` for a `width`-byte integer).
pub open spec fn le_bytes(value: nat, width: nat) -> Seq<u8>
    decreases width,
{
    if width == 0 {
        Seq::empty()
    } else {
        seq![(value % 256) as u8] + le_bytes(value / 256, (width - 1) as nat)
    }
}

fn fnv_update_le(hash: u64, value: u64, width: usize) -> (result: u64)
    requires
        width <= 8,
    ensures
        result == fnv_fold(hash, le_bytes(value as nat, width as nat)),
{
    let mut h = hash;
    let mut v = value;
    let mut i: usize = 0;
    let ghost mut done: Seq<u8> = Seq::empty();
    while i < width
        invariant
            i <= width <= 8,
            h == fnv_fold(hash, done),
            done + le_bytes(v as nat, (width - i) as nat) == le_bytes(value as nat, width as nat),
        decreases width - i,
    {
        let byte = (v % 256) as u8;
        proof {
            let rest = le_bytes(v as nat / 256, (width - i - 1) as nat);
            assert(le_bytes(v as nat, (width - i) as nat) == seq![byte] + rest);
            assert(done.push(byte) + rest =~= done + (seq![byte] + rest));
            assert(done.push(byte).drop_last() =~= done);
        }
        h = (h ^ (byte as u64)).wrapping_mul(FNV_PRIME);
        proof {
            done = done.push(byte);
        }
        v = v / 256;
        i = i + 1;
    }
    assert(done + le_bytes(v as nat, 0) =~= done);
    h
}

/// Absorbs the little-endian bytes of a `u16`.
pub fn fnv_update_u16(hash: u64, value: u16) -> (result: u64)
    ensures
        result == fnv_fold(hash, le_bytes(value as nat, 2)),
{
    fnv_update_le(hash, value as u64, 2)
}

/// Absorbs the little-endian bytes of a `u32`.
pub fn fnv_update_u32(hash: u64, value: u32) -> (result: u64)
    ensures
        result == fnv_fold(hash, le_bytes(value as nat, 4)),
{
    fnv_update_le(hash, value as u64, 4)
}

/// Absorbs the little-endian bytes of a `u64`.
pub fn fnv_update_u64(hash: u64, value: u64) -> (result: u64)
    ensures
        result == fnv_fold(hash, le_bytes(value as nat, 8)),
{
    fnv_update_le(hash, value, 8)
}

/// Length-prefixed byte hashing: the element count as a little-endian `u64`,
/// then the bytes themselves.
pub open spec fn hash_u8_spec(hash: u64, values: Seq<u8>) -> u64 {
    fnv_fold(hash, le_bytes(values.len(), 8) + values)
}

/// Absorbs a byte slice preceded by its length.
pub fn hash_u8(hash: u64, values: &[u8]) -> (result: u64)
    ensures
        result == hash_u8_spec(hash, values@),
{
    let prefixed = fnv_update_u64(hash, values.len() as u64);
    let result = fnv_update(prefixed, values);
    proof {
        lemma_fnv_fold_concat(hash, le_bytes(values@.len(), 8), values@);
    }
    result
}

/// Little-endian bytes of a sequence of `u32` words, in order.
pub open spec fn le_words32(values: Seq<u32>) -> Seq<u8>
    decreases values.len(),
{
    if values.len() == 0 {
        Seq::empty()
    } else {
        le_words32(values.drop_last()) + le_bytes(values.last() as nat, 4)
    }
}

/// Little-endian bytes of a sequence of `u64` words, in order.
pub open spec fn le_words64(values: Seq<u64>) -> Seq<u8>
    decreases values.len(),
{
    if values.len() == 0 {
        Seq::empty()
    } else {
        le_words64(values.drop_last()) + le_bytes(values.last() as nat, 8)
    }
}

/// Absorbs the little-endian bytes of every `u32` word, in order.
pub fn fnv_update_words32(hash: u64, values: &Vec<u32>) -> (result: u64)
    ensures
        result == fnv_fold(hash, le_words32(values@)),
{
    let mut h = hash;
    let mut i: usize = 0;
    while i < values.len()
        invariant
            i <= values@.len(),
            h == fnv_fold(hash, le_words32(values@.take(i as int))),
        decreases values@.len() - i,
    {
        proof {
            assert(values@.take(i + 1).drop_last() =~= values@.take(i as int));
            lemma_fnv_fold_concat(hash, le_words32(values@.take(i as int)), le_bytes(values@[i as int] as nat, 4));
        }
        h = fnv_update_u32(h, values[i]);
        i = i + 1;
    }
    assert(values@.take(i as int) =~= values@);
    h
}

/// Absorbs the little-endian bytes of every `u64` word, in order.
pub fn fnv_update_words64(hash: u64, values: &Vec<u64>) -> (result: u64)
    ensures
        result == fnv_fold(hash, le_words64(values@)),
{
    let mut h = hash;
    let mut i: usize = 0;
    while i < values.len()
        invariant
            i <= values@.len(),
            h == fnv_fold(hash, le_words64(values@.take(i as int))),
        decreases values@.len() - i,
    {
        proof {
            assert(values@.take(i + 1).drop_last() =~= values@.take(i as int));
            lemma_fnv_fold_concat(hash, le_words64(values@.take(i as int)), le_bytes(values@[i as int] as nat, 8));
        }
        h = fnv_update_u64(h, values[i]);
        i = i + 1;
    }
    assert(values@.take(i as int) =~= values@);
    h
}

/// Little-endian bytes of a sequence of `u16` words, in order.
pub open spec fn le_words16(values: Seq<u16>) -> Seq<u8>
    decreases values.len(),
{
    if values.len() == 0 {
        Seq::empty()
    } else {
        le_words16(values.drop_last()) + le_bytes(values.last() as nat, 2)
    }
}

/// Absorbs the little-endian bytes of every `u16` word, in order.
pub fn fnv_update_words16(hash: u64, values: &Vec<u16>) -> (result: u64)
    ensures
        result == fnv_fold(hash, le_words16(values@)),
{
    let mut h = hash;
    let mut i: usize = 0;
    while i < values.len()
        invariant
            i <= values@.len(),
            h == fnv_fold(hash, le_words16(values@.take(i as int))),
        decreases values@.len() - i,
    {
        proof {
            assert(values@.take(i + 1).drop_last() =~= values@.take(i as int));
            lemma_fnv_fold_concat(hash, le_words16(values@.take(i as int)), le_bytes(values@[i as int] as nat, 2));
        }
        h = fnv_update_u16(h, values[i]);
        i = i + 1;
    }
    assert(values@.take(i as int) =~= values@);
    h
}

/// Length-prefixed hashing of `f32` bit patterns: the element count as a
/// little-endian `u64`, then each pattern's four little-endian bytes.
pub open spec fn hash_bits32_spec(hash: u64, bits: Seq<u32>) -> u64 {
    fnv_fold(hash, le_bytes(bits.len(), 8) + le_words32(bits))
}

/// Absorbs a length-prefixed list of `f32` bit patterns.
pub fn hash_f32_bits(hash: u64, bits: &Vec<u32>) -> (result: u64)
    ensures
        result == hash_bits32_spec(hash, bits@),
{
    let prefixed = fnv_update_u64(hash, bits.len() as u64);
    let result = fnv_update_words32(prefixed, bits);
    proof {
        lemma_fnv_fold_concat(hash, le_bytes(bits@.len(), 8), le_words32(bits@));
    }
    result
}

/// SplitMix64 finalizer.
pub open spec fn mix64_spec(value: u64) -> u64 {
    let a = value ^ (value >> 30u64);
    let b = vstd::wrapping::u64_specs::wrapping_mul(a, 0xbf58_476d_1ce4_e5b9);
    let c = b ^ (b >> 27u64);
    let d = vstd::wrapping::u64_specs::wrapping_mul(c, 0x94d0_49bb_1331_11eb);
    d ^ (d >> 31u64)
}

/// Scrambles a 64-bit stream value (SplitMix64 finalizer).
pub fn mix64(value: u64) -> (result: u64)
    ensures
        result == mix64_spec(value),
{
    let mut v = value;
    v = v ^ (v >> 30u64);
    v = v.wrapping_mul(0xbf58_476d_1ce4_e5b9);
    v = v ^ (v >> 27u64);
    v = v.wrapping_mul(0x94d0_49bb_1331_11eb);
    v ^ (v >> 31u64)
}

} // verus!
