use interlink_worldgen::drainage::{
    assign_basins, check_drainage_order, check_ocean_routing, drainage_counts, drainage_digest, resolve_outlets,
    validate_drainage_inputs, BasinSummary,
    DrainageDigestFields, DrainageRequest, DRAINAGE_NAMESPACE, DRAINAGE_OUTLET_INTERNAL, DRAINAGE_OUTLET_NONE,
    DRAINAGE_OUTLET_OCEAN, DRAINAGE_STAGE_ID, DRAINAGE_STAGE_VERSION, INVALID_SAMPLE_ID,
};
use interlink_worldgen::fnv::{fnv_update, FNV_OFFSET_BASIS};
use interlink_worldgen::seed::derive_stage_seed;

const NONE: u8 = DRAINAGE_OUTLET_NONE;
const OCEAN: u8 = DRAINAGE_OUTLET_OCEAN;
const INTERNAL: u8 = DRAINAGE_OUTLET_INTERNAL;
const INV: u32 = INVALID_SAMPLE_ID;

#[test]
fn drainage_request_keeps_its_seed() {
    assert_eq!(DrainageRequest::new("rivers").seed, "rivers");
}

#[test]
fn slope_to_the_ocean_resolves_to_one_ocean_basin() {
    let submerged = vec![0u8, 0, 0, 1];
    let receiver = vec![1u32, 2, 3, INV];
    let order = vec![0u32, 1, 2];
    assert_eq!(check_drainage_order(&submerged, &receiver, &order), Ok(()));
    let resolution = resolve_outlets(&submerged, &receiver, &vec![NONE, NONE, NONE, OCEAN], &order).ok().unwrap();
    assert_eq!(resolution.outlet_sample, vec![3, 3, 3, 3]);
    assert_eq!(resolution.outlet_kind, vec![OCEAN, OCEAN, OCEAN, OCEAN]);
    let assignment = assign_basins(&submerged, &resolution.outlet_sample, &resolution.outlet_kind);
    assert_eq!(assignment.basin_id, vec![0, 0, 0, INV]);
    assert_eq!(
        assignment.basins,
        vec![BasinSummary { id: 0, outlet_sample: 3, outlet_kind: OCEAN, sample_count: 3 }]
    );
}

#[test]
fn dry_planet_drains_to_the_internal_minimum() {
    let submerged = vec![0u8; 4];
    let receiver = vec![1u32, 2, INV, 2];
    let order = vec![0u32, 1, 3, 2];
    assert_eq!(check_drainage_order(&submerged, &receiver, &order), Ok(()));
    let resolution = resolve_outlets(&submerged, &receiver, &vec![NONE, NONE, INTERNAL, NONE], &order).ok().unwrap();
    assert_eq!(resolution.outlet_sample, vec![2, 2, 2, 2]);
    assert_eq!(resolution.outlet_kind, vec![INTERNAL; 4]);
    let assignment = assign_basins(&submerged, &resolution.outlet_sample, &resolution.outlet_kind);
    assert_eq!(assignment.basin_id, vec![0, 0, 0, 0]);
    assert_eq!(
        assignment.basins,
        vec![BasinSummary { id: 0, outlet_sample: 2, outlet_kind: INTERNAL, sample_count: 4 }]
    );
}

#[test]
fn receiverless_land_without_flood_kind_becomes_internal() {
    let submerged = vec![0u8; 5];
    let receiver = vec![INV, 0, 3, INV, 3];
    let order = vec![1u32, 0, 2, 4, 3];
    assert_eq!(check_drainage_order(&submerged, &receiver, &order), Ok(()));
    let resolution = resolve_outlets(&submerged, &receiver, &vec![INTERNAL, NONE, NONE, NONE, NONE], &order)
        .ok()
        .unwrap();
    assert_eq!(resolution.outlet_sample, vec![0, 0, 3, 3, 3]);
    assert_eq!(resolution.outlet_kind, vec![INTERNAL; 5]);
    let assignment = assign_basins(&submerged, &resolution.outlet_sample, &resolution.outlet_kind);
    assert_eq!(assignment.basin_id, vec![0, 0, 1, 1, 1]);
    assert_eq!(
        assignment.basins,
        vec![
            BasinSummary { id: 0, outlet_sample: 0, outlet_kind: INTERNAL, sample_count: 2 },
            BasinSummary { id: 1, outlet_sample: 3, outlet_kind: INTERNAL, sample_count: 3 },
        ]
    );
}

#[test]
fn coastal_land_drains_to_the_ocean_sample_it_touches() {
    let submerged = vec![0u8, 1, 0];
    let receiver = vec![1u32, INV, 1];
    let order = vec![0u32, 2];
    let resolution = resolve_outlets(&submerged, &receiver, &vec![NONE, OCEAN, NONE], &order).ok().unwrap();
    assert_eq!(resolution.outlet_sample, vec![1, 1, 1]);
    assert_eq!(resolution.outlet_kind, vec![OCEAN, OCEAN, OCEAN]);
    let assignment = assign_basins(&submerged, &resolution.outlet_sample, &resolution.outlet_kind);
    assert_eq!(assignment.basin_id, vec![0, INV, 0]);
    assert_eq!(
        assignment.basins,
        vec![BasinSummary { id: 0, outlet_sample: 1, outlet_kind: OCEAN, sample_count: 2 }]
    );
}

#[test]
fn an_order_that_lists_a_receiver_first_is_rejected() {
    let submerged = vec![0u8, 0, 0, 1];
    let receiver = vec![1u32, 2, 3, INV];
    let order = vec![1u32, 0, 2];
    assert_eq!(
        check_drainage_order(&submerged, &receiver, &order),
        Err("drainage receiver graph is not acyclic in processing order")
    );
    assert_eq!(
        resolve_outlets(&submerged, &receiver, &vec![NONE, NONE, NONE, OCEAN], &order).err(),
        Some("drainage downstream outlet was not resolved first")
    );
}

#[test]
fn a_self_receiving_sample_is_not_acyclic() {
    let submerged = vec![0u8, 1];
    let receiver = vec![0u32, INV];
    let order = vec![0u32];
    assert_eq!(
        check_drainage_order(&submerged, &receiver, &order),
        Err("drainage receiver graph is not acyclic in processing order")
    );
}

#[test]
fn counts_split_land_ocean_and_depression_members() {
    let counts = drainage_counts(&vec![0, 0, 0, 1], &vec![INV, 0, 0, INV]);
    assert_eq!(counts.land_sample_count, 3);
    assert_eq!(counts.ocean_sample_count, 1);
    assert_eq!(counts.depression_sample_count, 2);
}

fn sample_fields() -> DrainageDigestFields {
    DrainageDigestFields {
        receiver: vec![1, 2, 3, INV],
        outlet_sample: vec![3, 3, 3, 3],
        basin_id: vec![0, 0, 0, INV],
        depression_id: vec![INV; 4],
        escape_elevation_bits: [3.0f64, 2.0, 1.0, 0.0].iter().map(|v| v.to_bits()).collect(),
        contributing_area_bits: [1.0f64, 2.0, 3.0, 0.0].iter().map(|v| v.to_bits()).collect(),
    }
}

#[test]
fn drainage_digest_covers_stage_inputs_and_fields_in_order() {
    let request = DrainageRequest::new("drainage-digest");
    let fields = sample_fields();
    let stage_seed = derive_stage_seed("drainage-digest", DRAINAGE_NAMESPACE);
    let mut expected = fnv_update(FNV_OFFSET_BASIS, DRAINAGE_STAGE_ID.as_bytes());
    expected = fnv_update(expected, &DRAINAGE_STAGE_VERSION.to_le_bytes());
    expected = fnv_update(expected, &stage_seed.to_le_bytes());
    expected = fnv_update(expected, &11u64.to_le_bytes());
    expected = fnv_update(expected, &22u64.to_le_bytes());
    for list in [&fields.receiver, &fields.outlet_sample, &fields.basin_id, &fields.depression_id] {
        for value in list.iter() {
            expected = fnv_update(expected, &value.to_le_bytes());
        }
    }
    for list in [&fields.escape_elevation_bits, &fields.contributing_area_bits] {
        for value in list.iter() {
            expected = fnv_update(expected, &value.to_le_bytes());
        }
    }
    assert_eq!(drainage_digest(&request, 11, 22, &fields), expected);
    assert_ne!(drainage_digest(&request, 11, 23, &fields), expected);
    assert_ne!(drainage_digest(&DrainageRequest::new("other"), 11, 22, &fields), expected);
}

#[test]
fn drainage_inputs_are_checked_in_order() {
    let ok = validate_drainage_inputs(3, 3, &vec![0, 1, 0], true, true, &vec![1, 2, 1], &vec![1, 2, 1]);
    assert_eq!(ok, Ok(()));
    assert_eq!(
        validate_drainage_inputs(0, 0, &vec![], true, true, &vec![], &vec![]),
        Err("drainage topology requires at least one sample")
    );
    assert_eq!(
        validate_drainage_inputs(3, 2, &vec![0, 1, 0], true, true, &vec![1, 2, 1], &vec![1, 2, 1]),
        Err("drainage inputs must align with topology sample count")
    );
    assert_eq!(
        validate_drainage_inputs(3, 3, &vec![0, 1, 0], false, false, &vec![1, 2, 1], &vec![1, 2, 1]),
        Err("drainage planet radius must be finite and positive")
    );
    assert_eq!(
        validate_drainage_inputs(3, 3, &vec![0, 1, 0], true, false, &vec![1, 2, 1], &vec![1, 2, 1]),
        Err("drainage elevation field must be finite")
    );
    assert_eq!(
        validate_drainage_inputs(3, 3, &vec![0, 2, 0], true, true, &vec![1, 2, 1], &vec![1, 2, 0]),
        Err("drainage submerged mask must contain only 0 or 1")
    );
    assert_eq!(
        validate_drainage_inputs(3, 3, &vec![0, 1, 0], true, true, &vec![1, 2, 1], &vec![1, 2, 0]),
        Err("drainage topology neighbor geometry is misaligned")
    );
}

#[test]
fn ocean_routing_needs_a_sea_level_only_with_ocean() {
    assert_eq!(check_ocean_routing(&vec![0, 0], false), Ok(()));
    assert_eq!(check_ocean_routing(&vec![0, 1], true), Ok(()));
    assert_eq!(
        check_ocean_routing(&vec![0, 1], false),
        Err("drainage ocean routing requires a finite solved sea level")
    );
}
