use interlink_worldgen::fnv::{fnv_update, FNV_OFFSET_BASIS};
use interlink_worldgen::lineage::{
    forward_history_hash, history_hash, identity_hash, lineage_hash, DigestState, EventDigestRecord,
    ForwardDigestFields, FragmentDigestRecord, IdentityRasters, FORWARD_PLATE_NAMESPACE, HISTORICAL_EPOCHS_TAG,
    HISTORICAL_INHERITANCE_STAGE_ID, HISTORICAL_LITHOSPHERE_STAGE_ID,
};
use interlink_worldgen::lineage::{geology_hash, GeologyDigestFields, HISTORICAL_CRUST_TAG};

fn rasters() -> IdentityRasters {
    IdentityRasters {
        origin_plate_ids: vec![0, 0, 1],
        fragment_ids: vec![0, 1, 2],
        current_plate_ids: vec![0, 1, 1],
        crust_kind: vec![1, 3, 2],
        crust_birth_age_bits: [12.5f32, 0.0, 300.0].iter().map(|v| v.to_bits()).collect(),
    }
}

fn absorb_rasters(mut hash: u64, r: &IdentityRasters) -> u64 {
    for list in [&r.origin_plate_ids, &r.fragment_ids, &r.current_plate_ids] {
        for value in list.iter() {
            hash = fnv_update(hash, &value.to_le_bytes());
        }
    }
    hash = fnv_update(hash, &r.crust_kind);
    for value in &r.crust_birth_age_bits {
        hash = fnv_update(hash, &value.to_le_bytes());
    }
    hash
}

fn fragments() -> Vec<FragmentDigestRecord> {
    vec![
        FragmentDigestRecord {
            id: 0,
            parent_fragment_id: None,
            origin_plate_id: 0,
            current_plate_id: 0,
            seed_sample: 4,
            sample_count: 2,
            area_bits: 0.25f64.to_bits(),
        },
        FragmentDigestRecord {
            id: 1,
            parent_fragment_id: Some(0),
            origin_plate_id: 0,
            current_plate_id: 1,
            seed_sample: 9,
            sample_count: 1,
            area_bits: 0.125f64.to_bits(),
        },
    ]
}

fn events() -> Vec<EventDigestRecord> {
    vec![EventDigestRecord {
        id: 3,
        kind_code: 4,
        epoch: 2,
        age_bits: 210.0f32.to_bits(),
        plate_a: 0,
        plate_b: 1,
        fragment_a: 0,
        fragment_b: 1,
        geometry_sample_a: 5,
        geometry_sample_b: 6,
    }]
}

#[test]
fn digest_state_absorbs_in_order() {
    let mut d = DigestState::new();
    d.bytes(b"ab");
    d.u16(0x0102);
    d.u32(7);
    d.u64(9);
    d.words16(&vec![1, 2]);
    d.words32(&vec![3]);
    d.words64(&vec![4]);
    let mut expected = fnv_update(FNV_OFFSET_BASIS, b"ab");
    expected = fnv_update(expected, &0x0102u16.to_le_bytes());
    expected = fnv_update(expected, &7u32.to_le_bytes());
    expected = fnv_update(expected, &9u64.to_le_bytes());
    expected = fnv_update(expected, &1u16.to_le_bytes());
    expected = fnv_update(expected, &2u16.to_le_bytes());
    expected = fnv_update(expected, &3u32.to_le_bytes());
    expected = fnv_update(expected, &4u64.to_le_bytes());
    assert_eq!(d.hash, expected);
}

#[test]
fn history_digest_covers_rasters_fragments_and_events() {
    let mut expected = fnv_update(FNV_OFFSET_BASIS, HISTORICAL_LITHOSPHERE_STAGE_ID.as_bytes());
    expected = fnv_update(expected, &42u64.to_le_bytes());
    expected = absorb_rasters(expected, &rasters());
    for f in &fragments() {
        expected = fnv_update(expected, &f.id.to_le_bytes());
        expected = fnv_update(expected, &f.origin_plate_id.to_le_bytes());
        expected = fnv_update(expected, &f.current_plate_id.to_le_bytes());
        expected = fnv_update(expected, &f.seed_sample.to_le_bytes());
    }
    for e in &events() {
        expected = fnv_update(expected, &e.id.to_le_bytes());
        expected = fnv_update(expected, &[e.kind_code, e.epoch]);
        expected = fnv_update(expected, &e.age_bits.to_le_bytes());
        expected = fnv_update(expected, &e.plate_a.to_le_bytes());
        expected = fnv_update(expected, &e.plate_b.to_le_bytes());
    }
    assert_eq!(history_hash(42, &rasters(), &fragments(), &events()), expected);
}

#[test]
fn lineage_digest_records_parents_and_event_anchors() {
    let mut expected = fnv_update(fnv_update(FNV_OFFSET_BASIS, HISTORICAL_EPOCHS_TAG.as_bytes()), &[0]);
    expected = fnv_update(expected, &7u64.to_le_bytes());
    expected = fnv_update(expected, &42u64.to_le_bytes());
    expected = absorb_rasters(expected, &rasters());
    for f in &fragments() {
        expected = fnv_update(expected, &f.id.to_le_bytes());
        expected = fnv_update(expected, &f.parent_fragment_id.unwrap_or(u16::MAX).to_le_bytes());
        expected = fnv_update(expected, &f.origin_plate_id.to_le_bytes());
        expected = fnv_update(expected, &f.current_plate_id.to_le_bytes());
        expected = fnv_update(expected, &f.seed_sample.to_le_bytes());
        expected = fnv_update(expected, &f.sample_count.to_le_bytes());
        expected = fnv_update(expected, &f.area_bits.to_le_bytes());
    }
    for e in &events() {
        expected = fnv_update(expected, &e.id.to_le_bytes());
        expected = fnv_update(expected, &[e.kind_code, e.epoch]);
        expected = fnv_update(expected, &e.age_bits.to_le_bytes());
        expected = fnv_update(expected, &e.plate_a.to_le_bytes());
        expected = fnv_update(expected, &e.plate_b.to_le_bytes());
        expected = fnv_update(expected, &e.fragment_a.to_le_bytes());
        expected = fnv_update(expected, &e.fragment_b.to_le_bytes());
        expected = fnv_update(expected, &e.geometry_sample_a.to_le_bytes());
        expected = fnv_update(expected, &e.geometry_sample_b.to_le_bytes());
    }
    assert_eq!(lineage_hash(7, 42, &rasters(), &fragments(), &events()), expected);
    let mut orphaned = fragments();
    orphaned[1].parent_fragment_id = None;
    assert_ne!(lineage_hash(7, 42, &rasters(), &orphaned, &events()), expected);
}

#[test]
fn forward_digest_covers_motion_weakness_and_events() {
    let fields = ForwardDigestFields {
        origin_plate_ids: vec![0, 1],
        fragment_ids: vec![0, 1],
        current_plate_ids: vec![1, 1],
        velocity_component_bits: [0.1f64, 0.2, 0.3].iter().map(|v| v.to_bits()).collect(),
        weakness_bits: [0.5f32, 0.75].iter().map(|v| v.to_bits()).collect(),
        crust_kind: vec![1, 3],
        crust_birth_age_bits: [10.0f32, 20.0].iter().map(|v| v.to_bits()).collect(),
    };
    let mut expected = fnv_update(FNV_OFFSET_BASIS, FORWARD_PLATE_NAMESPACE.as_bytes());
    expected = fnv_update(expected, &5u64.to_le_bytes());
    expected = fnv_update(expected, &6u64.to_le_bytes());
    for list in [&fields.origin_plate_ids, &fields.fragment_ids, &fields.current_plate_ids] {
        for value in list.iter() {
            expected = fnv_update(expected, &value.to_le_bytes());
        }
    }
    for value in &fields.velocity_component_bits {
        expected = fnv_update(expected, &value.to_le_bytes());
    }
    for value in &fields.weakness_bits {
        expected = fnv_update(expected, &value.to_le_bytes());
    }
    expected = fnv_update(expected, &fields.crust_kind);
    for value in &fields.crust_birth_age_bits {
        expected = fnv_update(expected, &value.to_le_bytes());
    }
    for e in &events() {
        expected = fnv_update(expected, &e.id.to_le_bytes());
        expected = fnv_update(expected, &[e.kind_code, e.epoch]);
        expected = fnv_update(expected, &e.age_bits.to_le_bytes());
        expected = fnv_update(expected, &e.fragment_a.to_le_bytes());
        expected = fnv_update(expected, &e.fragment_b.to_le_bytes());
        expected = fnv_update(expected, &e.geometry_sample_a.to_le_bytes());
        expected = fnv_update(expected, &e.geometry_sample_b.to_le_bytes());
    }
    assert_eq!(forward_history_hash(5, 6, &fields, &events()), expected);
}

#[test]
fn identity_digest_follows_stage_id_and_upstream_digests() {
    let mut expected = fnv_update(FNV_OFFSET_BASIS, HISTORICAL_INHERITANCE_STAGE_ID.as_bytes());
    expected = fnv_update(expected, &11u64.to_le_bytes());
    expected = fnv_update(expected, &12u64.to_le_bytes());
    expected = absorb_rasters(expected, &rasters());
    assert_eq!(identity_hash(11, 12, &rasters()), expected);
    assert_ne!(identity_hash(12, 11, &rasters()), expected);
}

#[test]
fn geology_digest_hashes_kinds_provinces_then_property_fields() {
    let field = |v: f32| vec![v.to_bits(), (v + 1.0).to_bits()];
    let fields = GeologyDigestFields {
        crust_kind: vec![1, 3],
        crust_province_id: vec![7, 0x8001],
        crust_age_bits: field(0.0),
        oceanic_age_bits: field(1.0),
        continental_basement_age_bits: field(2.0),
        last_tectonic_reworking_age_bits: field(3.0),
        continental_stability_index_bits: field(4.0),
        crust_thickness_bits: field(5.0),
        crust_density_bits: field(6.0),
        buoyancy_index_bits: field(7.0),
        orogenic_history_bits: field(8.0),
        rift_history_bits: field(9.0),
        ridge_history_bits: field(10.0),
        subduction_history_bits: field(11.0),
        trench_history_bits: field(12.0),
        volcanic_arc_history_bits: field(13.0),
        transform_history_bits: field(14.0),
        subsidence_history_bits: field(15.0),
        basin_potential_bits: field(16.0),
        crustal_strain_bits: field(17.0),
    };
    let mut expected = fnv_update(fnv_update(FNV_OFFSET_BASIS, HISTORICAL_CRUST_TAG.as_bytes()), &[0]);
    expected = fnv_update(expected, &21u64.to_le_bytes());
    expected = fnv_update(expected, &22u64.to_le_bytes());
    expected = fnv_update(expected, &fields.crust_kind);
    for value in &fields.crust_province_id {
        expected = fnv_update(expected, &value.to_le_bytes());
    }
    for list in [
        &fields.crust_age_bits,
        &fields.oceanic_age_bits,
        &fields.continental_basement_age_bits,
        &fields.last_tectonic_reworking_age_bits,
        &fields.continental_stability_index_bits,
        &fields.crust_thickness_bits,
        &fields.crust_density_bits,
        &fields.buoyancy_index_bits,
        &fields.orogenic_history_bits,
        &fields.rift_history_bits,
        &fields.ridge_history_bits,
        &fields.subduction_history_bits,
        &fields.trench_history_bits,
        &fields.volcanic_arc_history_bits,
        &fields.transform_history_bits,
        &fields.subsidence_history_bits,
        &fields.basin_potential_bits,
        &fields.crustal_strain_bits,
    ] {
        for value in list.iter() {
            expected = fnv_update(expected, &value.to_le_bytes());
        }
    }
    assert_eq!(geology_hash(21, &fields, 22), expected);
    assert_ne!(geology_hash(22, &fields, 21), expected);
}
