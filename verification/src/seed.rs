//! Stage seed derivation and recognition of the encoded ancestral-partition
//! seeds (`{seed}:{derived:016x}`) that request the raw plate partition.

use vstd::prelude::*;
use vstd::arithmetic::power::pow;
use vstd::string::StringSliceAdditionalSpecFns;
use crate::fnv::{fnv_fold, fnv_update, mix64, mix64_spec, FNV_OFFSET_BASIS, lemma_fnv_fold_concat};
use crate::hex::{hex_bytes, hex_value, is_hex_digit, hex_digit_value, lemma_hex_roundtrip};

verus! {

/// Namespace of the ancestral (pre-history) tectonic partition.
pub const ANCESTRAL_TECTONICS_NAMESPACE: &'static str = "worldgen:geology:historical-lithosphere:ancestral:v1";

/// ASCII `:`.
pub const SEED_SEPARATOR: u8 = 58;

/// Stage seed of `seed` in `namespace`: FNV-1a over the namespace bytes, one
/// zero byte and the seed bytes, finished by the SplitMix64 finalizer.
pub open spec fn stage_seed_spec(seed: Seq<u8>, namespace: Seq<u8>) -> u64 {
    mix64_spec(fnv_fold(FNV_OFFSET_BASIS, namespace + seq![0u8] + seed))
}

/// Stage seed over raw bytes.
pub fn derive_stage_seed_bytes(seed: &[u8], namespace: &[u8]) -> (result: u64)
    ensures
        result == stage_seed_spec(seed@, namespace@),
{
    let zero: [u8; 1] = [0u8];
    let h1 = fnv_update(FNV_OFFSET_BASIS, namespace);
    let h2 = fnv_update(h1, zero.as_slice());
    let h3 = fnv_update(h2, seed);
    proof {
        assert(zero@ =~= seq![0u8]);
        lemma_fnv_fold_concat(FNV_OFFSET_BASIS, namespace@, seq![0u8]);
        lemma_fnv_fold_concat(FNV_OFFSET_BASIS, namespace@ + seq![0u8], seed@);
    }
    mix64(h3)
}

/// Derives the deterministic seed of one generation stage from the request
/// seed and the stage namespace.
pub fn derive_stage_seed(seed: &str, namespace: &str) -> (result: u64)
    ensures
        result == stage_seed_spec(seed.spec_bytes(), namespace.spec_bytes()),
{
    derive_stage_seed_bytes(seed.as_bytes(), namespace.as_bytes())
}

/// Index of the last occurrence of `byte`, or -1.
pub open spec fn last_index_of(s: Seq<u8>, byte: u8) -> int
    decreases s.len(),
{
    if s.len() == 0 {
        -1
    } else if s.last() == byte {
        s.len() - 1
    } else {
        last_index_of(s.drop_last(), byte)
    }
}

proof fn lemma_last_index_of_bounds(s: Seq<u8>, byte: u8)
    ensures
        -1 <= last_index_of(s, byte) < s.len(),
        last_index_of(s, byte) >= 0 ==> s[last_index_of(s, byte)] == byte,
        forall|j: int| last_index_of(s, byte) < j < s.len() ==> s[j] != byte,
    decreases s.len(),
{
    if s.len() > 0 && s.last() != byte {
        lemma_last_index_of_bounds(s.drop_last(), byte);
        assert forall|j: int| last_index_of(s, byte) < j < s.len() implies s[j] != byte by {
            if j < s.len() - 1 {
                assert(s[j] == s.drop_last()[j]);
            }
        }
    }
}

/// `seed` splits at its last `:` into a base seed and a 16-digit hex suffix
/// whose value is the ancestral stage seed of that base.
pub open spec fn is_ancestral_partition_spec(seed: Seq<u8>) -> bool {
    let k = last_index_of(seed, SEED_SEPARATOR);
    let suffix = seed.subrange(k + 1, seed.len() as int);
    &&& k >= 0
    &&& suffix.len() == 16
    &&& forall|i: int| 0 <= i < 16 ==> is_hex_digit(#[trigger] suffix[i])
    &&& hex_value(suffix) == stage_seed_spec(
        seed.subrange(0, k),
        ANCESTRAL_TECTONICS_NAMESPACE.spec_bytes(),
    ) as nat
}

fn find_last(bytes: &[u8], byte: u8) -> (result: Option<usize>)
    ensures
        match result {
            Some(k) => k as int == last_index_of(bytes@, byte),
            None => last_index_of(bytes@, byte) == -1,
        },
{
    let mut i = bytes.len();
    assert(bytes@.take(i as int) =~= bytes@);
    while i > 0
        invariant
            i <= bytes@.len(),
            last_index_of(bytes@, byte) == last_index_of(bytes@.take(i as int), byte),
        decreases i,
    {
        assert(bytes@.take(i as int).last() == bytes@[i - 1]);
        assert(bytes@.take(i as int).drop_last() =~= bytes@.take(i - 1));
        if bytes[i - 1] == byte {
            return Some(i - 1);
        }
        i = i - 1;
    }
    None
}

fn is_hex_digit_exec(b: u8) -> (r: bool)
    ensures
        r == is_hex_digit(b),
{
    (48 <= b && b <= 57) || (97 <= b && b <= 102) || (65 <= b && b <= 70)
}

fn hex_digit_value_exec(b: u8) -> (r: u64)
    requires
        is_hex_digit(b),
    ensures
        r as nat == hex_digit_value(b),
        r < 16,
{
    if 48 <= b && b <= 57 {
        (b - 48) as u64
    } else if 97 <= b && b <= 102 {
        (b - 87) as u64
    } else {
        (b - 55) as u64
    }
}

proof fn lemma_pow16_mono(j: nat)
    requires
        j <= 15,
    ensures
        pow(16, j) <= 0x1000_0000_0000_0000,
        pow(16, j) > 0,
    decreases 15 - j,
{
    reveal(pow);
    vstd::arithmetic::power::lemma_pow_positive(16, j);
    if j < 15 {
        lemma_pow16_mono(j + 1);
        assert(pow(16, j + 1) == 16 * pow(16, j));
    } else {
        reveal_with_fuel(pow, 16);
    }
}

/// Parses exactly the digits `bytes[start..end]` as hexadecimal, or `None` if
/// one of them is not a hex digit.
fn parse_hex_run(bytes: &[u8], start: usize, end: usize) -> (result: Option<u64>)
    requires
        start <= end <= bytes@.len(),
        end - start <= 16,
    ensures
        match result {
            Some(v) => {
                &&& forall|i: int| start <= i < end ==> is_hex_digit(#[trigger] bytes@[i])
                &&& v as nat == hex_value(bytes@.subrange(start as int, end as int))
            },
            None => exists|i: int| start <= i < end && !is_hex_digit(#[trigger] bytes@[i]),
        },
{
    let mut v: u64 = 0;
    let mut j = start;
    proof {
        reveal(pow);
        assert(bytes@.subrange(start as int, start as int) =~= Seq::<u8>::empty());
    }
    while j < end
        invariant
            start <= j <= end <= bytes@.len(),
            end - start <= 16,
            forall|i: int| start <= i < j ==> is_hex_digit(#[trigger] bytes@[i]),
            v as nat == hex_value(bytes@.subrange(start as int, j as int)),
            (v as int) < pow(16, (j - start) as nat),
        decreases end - j,
    {
        let b = bytes[j];
        if !is_hex_digit_exec(b) {
            return None;
        }
        let d = hex_digit_value_exec(b);
        proof {
            lemma_pow16_mono((j - start) as nat);
            reveal(pow);
            assert(bytes@.subrange(start as int, j + 1).drop_last() =~= bytes@.subrange(start as int, j as int));
            assert(pow(16, (j + 1 - start) as nat) == 16 * pow(16, (j - start) as nat));
        }
        v = v * 16 + d;
        j = j + 1;
    }
    Some(v)
}

/// Recognizes a seed of the form `{base}:{derived:016x}` (hex digits in either
/// case) whose suffix equals the ancestral stage seed derived from `base`.
pub fn is_ancestral_partition_request(seed: &str) -> (result: bool)
    ensures
        result == is_ancestral_partition_spec(seed.spec_bytes()),
{
    let bytes = seed.as_bytes();
    let k = match find_last(bytes, SEED_SEPARATOR) {
        Some(k) => k,
        None => return false,
    };
    proof {
        lemma_last_index_of_bounds(bytes@, SEED_SEPARATOR);
    }
    if bytes.len() - (k + 1) != 16 {
        return false;
    }
    let parsed = parse_hex_run(bytes, k + 1, bytes.len());
    let value = match parsed {
        Some(v) => v,
        None => {
            proof {
                let suffix = bytes@.subrange(k + 1, bytes@.len() as int);
                let i = choose|i: int| k + 1 <= i < bytes@.len() && !is_hex_digit(#[trigger] bytes@[i]);
                assert(suffix[i - k - 1] == bytes@[i]);
            }
            return false;
        },
    };
    let base = &bytes[0..k];
    let derived = derive_stage_seed_bytes(base, ANCESTRAL_TECTONICS_NAMESPACE.as_bytes());
    proof {
        let suffix = bytes@.subrange(k + 1, bytes@.len() as int);
        assert forall|i: int| 0 <= i < 16 implies is_hex_digit(#[trigger] suffix[i]) by {
            assert(suffix[i] == bytes@[k + 1 + i]);
        }
    }
    value == derived
}

/// Appending `:` and the 16-digit ancestral stage seed of a base seed always
/// yields a seed recognized as an ancestral-partition request.
pub proof fn lemma_ancestral_encoding_recognized(base: Seq<u8>)
    ensures
        is_ancestral_partition_spec(
            base + seq![SEED_SEPARATOR] + hex_bytes(
                stage_seed_spec(base, ANCESTRAL_TECTONICS_NAMESPACE.spec_bytes()) as nat,
                16,
            ),
        ),
{
    let derived = stage_seed_spec(base, ANCESTRAL_TECTONICS_NAMESPACE.spec_bytes());
    let digits = hex_bytes(derived as nat, 16);
    let s = base + seq![SEED_SEPARATOR] + digits;
    lemma_hex_roundtrip(derived as nat, 16);
    reveal_with_fuel(pow, 17);
    assert(pow(16, 16) == 0x1_0000_0000_0000_0000);
    vstd::arithmetic::div_mod::lemma_small_mod(derived as nat, 0x1_0000_0000_0000_0000);
    // No separator among the hex digits, so the last separator is the appended one.
    let k = base.len() as int;
    assert forall|j: int| k < j < s.len() implies s[j] != SEED_SEPARATOR by {
        assert(s[j] == digits[j - k - 1]);
        assert(is_hex_digit(digits[j - k - 1]));
    }
    lemma_last_index_of_bounds(s, SEED_SEPARATOR);
    assert(s[k] == SEED_SEPARATOR);
    assert(last_index_of(s, SEED_SEPARATOR) == k);
    assert(s.subrange(k + 1, s.len() as int) =~= digits);
    assert(s.subrange(0, k) =~= base);
}

} // verus!
