use interlink_worldgen::pipeline::{generate_tectonics, TectonicsSource};
use interlink_worldgen::seed::{derive_stage_seed, is_ancestral_partition_request, ANCESTRAL_TECTONICS_NAMESPACE};

#[test]
fn ancestral_request_encoding_resolves_to_raw_partition() {
    let seed = "ancestral-detection";
    let derived = derive_stage_seed(seed, ANCESTRAL_TECTONICS_NAMESPACE);
    assert!(is_ancestral_partition_request(&format!("{seed}:{derived:016x}")));
    assert!(!is_ancestral_partition_request(seed));
    assert!(!is_ancestral_partition_request(&format!("{seed}:0000000000000000")));
}

#[test]
fn uppercase_hex_encoding_is_also_recognized() {
    let seed = "ancestral-upper";
    let derived = derive_stage_seed(seed, ANCESTRAL_TECTONICS_NAMESPACE);
    assert!(is_ancestral_partition_request(&format!("{seed}:{derived:016X}")));
}

#[test]
fn malformed_encodings_are_rejected() {
    let seed = "ancestral-malformed";
    let derived = derive_stage_seed(seed, ANCESTRAL_TECTONICS_NAMESPACE);
    // fifteen digits
    let short = format!("{seed}:{derived:016x}");
    assert!(!is_ancestral_partition_request(&short[..short.len() - 1]));
    // a non-hex digit
    let mut bad = format!("{seed}:{derived:016x}");
    bad.pop();
    bad.push('g');
    assert!(!is_ancestral_partition_request(&bad));
    // the suffix encodes the seed of another base
    let other = derive_stage_seed("other", ANCESTRAL_TECTONICS_NAMESPACE);
    assert!(!is_ancestral_partition_request(&format!("{seed}:{other:016x}")));
    assert!(!is_ancestral_partition_request(""));
    assert!(!is_ancestral_partition_request(":"));
}

#[test]
fn the_last_separator_splits_base_and_encoding() {
    let seed = "a:b:c";
    let derived = derive_stage_seed(seed, ANCESTRAL_TECTONICS_NAMESPACE);
    assert!(is_ancestral_partition_request(&format!("{seed}:{derived:016x}")));
}

#[test]
fn stage_seeds_depend_on_seed_and_namespace() {
    let a = derive_stage_seed("seed", "namespace-a");
    assert_eq!(a, derive_stage_seed("seed", "namespace-a"));
    assert_ne!(a, derive_stage_seed("seed", "namespace-b"));
    assert_ne!(a, derive_stage_seed("seed2", "namespace-a"));
}

#[test]
fn tectonics_route_prefers_raw_partition_for_encoded_seeds_and_raw_scopes() {
    let seed = "route-check";
    let derived = derive_stage_seed(seed, ANCESTRAL_TECTONICS_NAMESPACE);
    let encoded = format!("{seed}:{derived:016x}");
    assert_eq!(generate_tectonics(false, seed), TectonicsSource::HistoricalProjection);
    assert_eq!(generate_tectonics(true, seed), TectonicsSource::RawPartition);
    assert_eq!(generate_tectonics(false, &encoded), TectonicsSource::RawPartition);
}
