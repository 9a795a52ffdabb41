use interlink_worldgen::digests::{
    event_driven_hash, historical_morphology_hash, historical_pre_hash, modern_tectonic_hash, BoundaryDigestRecord,
    MorphologyFields, OrogenProvinceFields, PlateDigestRecord, PreOrogenicFields, EVENT_DRIVEN_OROGEN_TAG,
    HISTORICAL_MORPHOLOGY_NAMESPACE, HISTORICAL_MORPHOLOGY_TAG, HISTORICAL_PRE_OROGENIC_TAG, MODERN_TECTONICS_TAG,
};
use interlink_worldgen::fnv::{fnv_update, FNV_OFFSET_BASIS};
use interlink_worldgen::seed::derive_stage_seed;

fn tagged(tag: &str) -> u64 {
    fnv_update(fnv_update(FNV_OFFSET_BASIS, tag.as_bytes()), &[0])
}

fn bits(values: &[f32]) -> Vec<u32> {
    values.iter().map(|value| value.to_bits()).collect()
}

fn absorb_f32(hash: u64, values: &[u32]) -> u64 {
    let mut hash = fnv_update(hash, &(values.len() as u64).to_le_bytes());
    for value in values {
        hash = fnv_update(hash, &value.to_le_bytes());
    }
    hash
}

fn absorb_u8(hash: u64, values: &[u8]) -> u64 {
    fnv_update(fnv_update(hash, &(values.len() as u64).to_le_bytes()), values)
}

#[test]
fn event_driven_orogen_digest_hashes_kinds_then_float_fields() {
    let f = |seed: f32| bits(&[seed, seed * 2.0]);
    let fields = OrogenProvinceFields {
        province_kind: vec![1, 4],
        orogenic_intensity_bits: f(0.1),
        mountain_core_index_bits: f(0.2),
        crustal_root_index_bits: f(0.3),
        plateau_index_bits: f(0.4),
        fold_thrust_index_bits: f(0.5),
        foreland_basin_index_bits: f(0.6),
        suture_index_bits: f(0.7),
        transpression_index_bits: f(0.8),
        maturity_index_bits: f(0.9),
        shortening_index_bits: f(1.0),
        local_width_bits: f(1.1),
    };
    let mut expected = tagged(EVENT_DRIVEN_OROGEN_TAG);
    expected = fnv_update(expected, &7u64.to_le_bytes());
    expected = fnv_update(expected, &9u64.to_le_bytes());
    expected = absorb_u8(expected, &fields.province_kind);
    for list in [
        &fields.orogenic_intensity_bits,
        &fields.mountain_core_index_bits,
        &fields.crustal_root_index_bits,
        &fields.plateau_index_bits,
        &fields.fold_thrust_index_bits,
        &fields.foreland_basin_index_bits,
        &fields.suture_index_bits,
        &fields.transpression_index_bits,
        &fields.maturity_index_bits,
        &fields.shortening_index_bits,
        &fields.local_width_bits,
    ] {
        expected = absorb_f32(expected, list);
    }
    assert_eq!(event_driven_hash(7, 9, &fields), expected);
    assert_ne!(event_driven_hash(9, 7, &fields), expected);
}

#[test]
fn pre_orogenic_digest_places_structure_kinds_after_four_strength_fields() {
    let fields = PreOrogenicFields {
        inherited_structure_kind: vec![0, 2, 3],
        intrinsic_strength_bits: bits(&[0.5, 0.25, 0.75]),
        intrinsic_weakness_bits: bits(&[0.1, 0.2, 0.3]),
        effective_elastic_thickness_bits: bits(&[30.0, 40.0, 50.0]),
        inherited_fabric_strength_bits: bits(&[0.0, 1.0, 0.5]),
        inherited_rift_memory_bits: bits(&[0.3, 0.0, 0.0]),
        inherited_shear_memory_bits: bits(&[0.0, 0.4, 0.0]),
        fragmentation_propensity_bits: bits(&[0.9, 0.8, 0.7]),
    };
    let mut expected = tagged(HISTORICAL_PRE_OROGENIC_TAG);
    expected = fnv_update(expected, &1u64.to_le_bytes());
    expected = fnv_update(expected, &2u64.to_le_bytes());
    expected = absorb_f32(expected, &fields.intrinsic_strength_bits);
    expected = absorb_f32(expected, &fields.intrinsic_weakness_bits);
    expected = absorb_f32(expected, &fields.effective_elastic_thickness_bits);
    expected = absorb_f32(expected, &fields.inherited_fabric_strength_bits);
    expected = absorb_u8(expected, &fields.inherited_structure_kind);
    expected = absorb_f32(expected, &fields.inherited_rift_memory_bits);
    expected = absorb_f32(expected, &fields.inherited_shear_memory_bits);
    expected = absorb_f32(expected, &fields.fragmentation_propensity_bits);
    assert_eq!(historical_pre_hash(1, 2, &fields), expected);
}

#[test]
fn morphology_digest_starts_from_the_stage_seed() {
    let f = |seed: f32| bits(&[seed]);
    let fields = MorphologyFields {
        latest_event_kind: vec![4],
        latest_event_age_bits: f(-1.0),
        rift_intensity_bits: f(0.1),
        rift_age_bits: f(0.2),
        shear_intensity_bits: f(0.3),
        shear_age_bits: f(0.4),
        suture_intensity_bits: f(0.5),
        suture_age_bits: f(0.6),
        accretion_intensity_bits: f(0.7),
        passive_margin_index_bits: f(0.8),
        active_orogen_intensity_bits: f(0.9),
        fossil_orogen_intensity_bits: f(1.0),
        cumulative_shortening_bits: f(1.1),
        cumulative_extension_bits: f(1.2),
        cumulative_shear_bits: f(1.3),
    };
    let stage_seed = derive_stage_seed("morphology-seed", HISTORICAL_MORPHOLOGY_NAMESPACE);
    let mut expected = tagged(HISTORICAL_MORPHOLOGY_TAG);
    expected = fnv_update(expected, &stage_seed.to_le_bytes());
    expected = fnv_update(expected, &5u64.to_le_bytes());
    expected = fnv_update(expected, &6u64.to_le_bytes());
    expected = absorb_u8(expected, &fields.latest_event_kind);
    for list in [
        &fields.latest_event_age_bits,
        &fields.rift_intensity_bits,
        &fields.rift_age_bits,
        &fields.shear_intensity_bits,
        &fields.shear_age_bits,
        &fields.suture_intensity_bits,
        &fields.suture_age_bits,
        &fields.accretion_intensity_bits,
        &fields.passive_margin_index_bits,
        &fields.active_orogen_intensity_bits,
        &fields.fossil_orogen_intensity_bits,
        &fields.cumulative_shortening_bits,
        &fields.cumulative_extension_bits,
        &fields.cumulative_shear_bits,
    ] {
        expected = absorb_f32(expected, list);
    }
    assert_eq!(historical_morphology_hash("morphology-seed", 5, 6, &fields), expected);
    assert_ne!(historical_morphology_hash("other-seed", 5, 6, &fields), expected);
}

#[test]
fn modern_tectonic_digest_covers_plates_owners_and_boundaries() {
    let plates = vec![
        PlateDigestRecord { id: 0, seed_sample: 12, angular_velocity_bits: [1, 2, 3], area_bits: 2.5f64.to_bits() },
        PlateDigestRecord { id: 1, seed_sample: 40, angular_velocity_bits: [4, 5, 6], area_bits: 1.5f64.to_bits() },
    ];
    let owners = vec![0u16, 0, 1, 1];
    let boundaries = vec![BoundaryDigestRecord {
        sample_a: 1,
        sample_b: 2,
        kind_code: 0,
        normal_rate_bits: (-0.01f64).to_bits(),
        shear_rate_bits: 0.002f64.to_bits(),
    }];
    let mut expected = tagged(MODERN_TECTONICS_TAG);
    expected = fnv_update(expected, &77u64.to_le_bytes());
    expected = fnv_update(expected, &88u64.to_le_bytes());
    for plate in &plates {
        expected = fnv_update(expected, &plate.id.to_le_bytes());
        expected = fnv_update(expected, &plate.seed_sample.to_le_bytes());
        for value in plate.angular_velocity_bits {
            expected = fnv_update(expected, &value.to_le_bytes());
        }
        expected = fnv_update(expected, &plate.area_bits.to_le_bytes());
    }
    for owner in &owners {
        expected = fnv_update(expected, &owner.to_le_bytes());
    }
    for boundary in &boundaries {
        expected = fnv_update(expected, &boundary.sample_a.to_le_bytes());
        expected = fnv_update(expected, &boundary.sample_b.to_le_bytes());
        expected = fnv_update(expected, &[boundary.kind_code]);
        expected = fnv_update(expected, &boundary.normal_rate_bits.to_le_bytes());
        expected = fnv_update(expected, &boundary.shear_rate_bits.to_le_bytes());
    }
    assert_eq!(modern_tectonic_hash(77, &plates, &owners, &boundaries, 88), expected);
    assert_ne!(modern_tectonic_hash(77, &plates, &vec![0, 1, 1, 1], &boundaries, 88), expected);
}
