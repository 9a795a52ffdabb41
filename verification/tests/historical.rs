use interlink_worldgen::error::WorldgenError;
use interlink_worldgen::geology::PlateBoundaryKind;
use interlink_worldgen::historical::{
    ancestral_plate_count, compact_groups, event_kind_for_boundary, merge_groups, validate_lineage,
    FragmentLineage, HistoricalEventKind, HistoricalLithosphereRequest, HistoricalMorphologyMetrics,
    HISTORICAL_EPOCH_COUNT,
};
use interlink_worldgen::pipeline::LithosphericModel;
use interlink_worldgen::historical::validate_morphology_inputs;

fn fragment(id: u16, parent_fragment_id: Option<u16>, origin_plate_id: u16) -> FragmentLineage {
    FragmentLineage { id, parent_fragment_id, origin_plate_id }
}

#[test]
fn request_keeps_seed_and_modern_plate_count() {
    let request = HistoricalLithosphereRequest::new("history", 10);
    assert_eq!(request.seed, "history");
    assert_eq!(request.modern_plate_count, 10);
}

#[test]
fn event_kinds_follow_boundary_kind_and_crust() {
    assert_eq!(event_kind_for_boundary(PlateBoundaryKind::Divergent, 1, 1), HistoricalEventKind::Spreading);
    assert_eq!(event_kind_for_boundary(PlateBoundaryKind::Divergent, 1, 3), HistoricalEventKind::Rift);
    assert_eq!(event_kind_for_boundary(PlateBoundaryKind::Divergent, 2, 3), HistoricalEventKind::Rift);
    assert_eq!(event_kind_for_boundary(PlateBoundaryKind::Transform, 1, 1), HistoricalEventKind::Transform);
    assert_eq!(event_kind_for_boundary(PlateBoundaryKind::Convergent, 3, 2), HistoricalEventKind::Collision);
    assert_eq!(event_kind_for_boundary(PlateBoundaryKind::Convergent, 1, 1), HistoricalEventKind::Subduction);
    assert_eq!(event_kind_for_boundary(PlateBoundaryKind::Convergent, 1, 3), HistoricalEventKind::Accretion);
    assert_eq!(event_kind_for_boundary(PlateBoundaryKind::Convergent, 3, 1), HistoricalEventKind::Accretion);
}

#[test]
fn event_kind_codes_run_from_one_to_seven() {
    assert_eq!(HistoricalEventKind::Rift.code(), 1);
    assert_eq!(HistoricalEventKind::Subduction.code(), 3);
    assert_eq!(HistoricalEventKind::Capture.code(), 7);
}

#[test]
fn ancestral_budget_is_three_per_modern_plate_within_limits() {
    assert_eq!(ancestral_plate_count(10, 10_000, 2, 64), Ok(30));
    assert_eq!(ancestral_plate_count(30, 10_000, 2, 64), Ok(64));
    assert_eq!(ancestral_plate_count(10, 20, 2, 64), Ok(20));
    assert_eq!(ancestral_plate_count(10, 10, 2, 64), Ok(10));
    assert_eq!(ancestral_plate_count(64, 100_000, 2, 64), Ok(64));
}

#[test]
fn ancestral_budget_rejects_out_of_range_requests() {
    assert_eq!(
        ancestral_plate_count(1, 10_000, 2, 64),
        Err(WorldgenError::InvalidLithosphere(
            "historical lithosphere modern plate count is outside the supported tectonic range"
        ))
    );
    assert_eq!(
        ancestral_plate_count(65, 10_000, 2, 64),
        Err(WorldgenError::InvalidLithosphere(
            "historical lithosphere modern plate count is outside the supported tectonic range"
        ))
    );
    assert_eq!(
        ancestral_plate_count(12, 11, 2, 64),
        Err(WorldgenError::InvalidLithosphere(
            "historical lithosphere requires at least one topology sample per modern plate"
        ))
    );
}

#[test]
fn merging_relabels_only_the_removed_group() {
    let mut groups = vec![0u16, 1, 2, 3, 3];
    merge_groups(&mut groups, 1, 3);
    assert_eq!(groups, vec![0, 1, 2, 1, 1]);
    merge_groups(&mut groups, 0, 9);
    assert_eq!(groups, vec![0, 1, 2, 1, 1]);
}

#[test]
fn compaction_numbers_groups_by_first_occurrence() {
    assert_eq!(compact_groups(&vec![5u16, 5, 2, 9, 2]), vec![0, 0, 1, 2, 1]);
    assert_eq!(compact_groups(&vec![]), Vec::<u16>::new());
    assert_eq!(compact_groups(&vec![65535u16, 0, 65535]), vec![0, 1, 0]);
}

#[test]
fn merge_then_compact_gives_dense_modern_ids() {
    let mut groups: Vec<u16> = (0..6).collect();
    merge_groups(&mut groups, 0, 4);
    merge_groups(&mut groups, 2, 5);
    merge_groups(&mut groups, 1, 3);
    assert_eq!(compact_groups(&groups), vec![0, 1, 2, 1, 0, 2]);
}

#[test]
fn valid_lineage_is_accepted() {
    let fragments = vec![fragment(0, None, 4), fragment(1, Some(0), 4), fragment(2, Some(1), 4), fragment(3, None, 7)];
    assert_eq!(validate_lineage(&fragments, &vec![0, 3, 2], &vec![0, HISTORICAL_EPOCH_COUNT - 1]), Ok(()));
}

#[test]
fn lineage_errors_are_reported_in_rule_order() {
    let message = |text: &'static str| Err(WorldgenError::InvalidLithosphere(text));
    assert_eq!(
        validate_lineage(&vec![fragment(1, None, 0)], &vec![], &vec![]),
        message("historical fragment ids are not dense lineage indices")
    );
    assert_eq!(
        validate_lineage(&vec![fragment(0, None, 0), fragment(1, Some(1), 0)], &vec![], &vec![]),
        message("historical fragment parent graph is not acyclic")
    );
    assert_eq!(
        validate_lineage(&vec![fragment(0, None, 0), fragment(1, Some(0), 5)], &vec![], &vec![]),
        message("historical fragment split changed ancestral material provenance")
    );
    let valid = vec![fragment(0, None, 0), fragment(1, Some(0), 0)];
    assert_eq!(
        validate_lineage(&valid, &vec![0, 2], &vec![HISTORICAL_EPOCH_COUNT]),
        message("historical epoch split produced an invalid sample fragment id")
    );
    assert_eq!(
        validate_lineage(&valid, &vec![0, 1], &vec![0, HISTORICAL_EPOCH_COUNT]),
        message("historical event lies outside the bounded epoch schedule")
    );
    // the first broken fragment decides the message
    assert_eq!(
        validate_lineage(&vec![fragment(0, Some(0), 0), fragment(5, None, 0)], &vec![], &vec![]),
        message("historical fragment parent graph is not acyclic")
    );
}

#[test]
fn stage_digests_render_as_sixteen_hex_digits() {
    let metrics = HistoricalMorphologyMetrics {
        sample_count: 642,
        event_count: 12,
        active_orogen_sample_count: 1,
        fossil_orogen_sample_count: 2,
        internal_fossil_orogen_sample_count: 3,
        passive_margin_sample_count: 4,
        suture_sample_count: 5,
        rift_sample_count: 6,
        shear_sample_count: 7,
        morphology_hash: 0x00ab_cdef_0123_4567,
    };
    assert_eq!(metrics.morphology_hash_hex(), "00abcdef01234567");
    let model = LithosphericModel { orogen_province_hash: 0xfedc_ba98_7654_3210 };
    assert_eq!(model.orogen_province_hash_hex(), "fedcba9876543210");
}

#[test]
fn morphology_inputs_are_checked_in_order() {
    let lith = |text: &'static str| Err(WorldgenError::InvalidLithosphere(text));
    let plates = vec![0u16, 1, 1];
    assert_eq!(validate_morphology_inputs(3, 3, &plates, 3, &plates, &vec![(0, 2)]), Ok(()));
    assert_eq!(
        validate_morphology_inputs(3, 2, &plates, 3, &plates, &vec![]),
        lith("historical morphology inputs do not match topology")
    );
    assert_eq!(
        validate_morphology_inputs(3, 3, &plates, 3, &vec![0, 0, 1], &vec![]),
        lith("historical morphology requires modern ownership projected from historical material")
    );
    assert_eq!(
        validate_morphology_inputs(3, 3, &plates, 3, &plates, &vec![(0, 1), (2, 3)]),
        lith("historical morphology event geometry references an invalid sample")
    );
}
