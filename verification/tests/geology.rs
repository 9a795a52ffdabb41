use interlink_worldgen::geology::{
    boundary_pair, classify_geological_boundary, crust_kind, stabilize_boundary_kinds, BoundaryEdge, CrustKind,
    GeologicalBoundaryRegime, GeologyRequest, NormalBand, PlateBoundaryKind, PlateScaleClass, SubductionPolarity,
};
use interlink_worldgen::geology::{
    boundary_regime_codes, build_geological_boundaries, plate_scale_class_codes, regime_edge_counts,
    subduction_polarity_codes,
};

fn edge(sample_a: u32, sample_b: u32, kind: PlateBoundaryKind, converging: bool, normal_band: NormalBand) -> BoundaryEdge {
    BoundaryEdge { sample_a, sample_b, plate_a: 0, plate_b: 1, kind, converging, normal_band }
}

#[test]
fn geology_request_keeps_its_seed() {
    assert_eq!(GeologyRequest::new("geology-seed").seed, "geology-seed");
}

#[test]
fn crust_codes_decode_with_unknown_codes_as_oceanic() {
    assert_eq!(crust_kind(1), CrustKind::Oceanic);
    assert_eq!(crust_kind(2), CrustKind::Transitional);
    assert_eq!(crust_kind(3), CrustKind::Continental);
    assert_eq!(crust_kind(0), CrustKind::Oceanic);
    assert_eq!(crust_kind(200), CrustKind::Oceanic);
    for kind in [CrustKind::Oceanic, CrustKind::Transitional, CrustKind::Continental] {
        assert_eq!(crust_kind(kind.code()), kind);
    }
}

#[test]
fn enum_codes_follow_declaration_order() {
    assert_eq!(
        [PlateScaleClass::Major.code(), PlateScaleClass::Intermediate.code(), PlateScaleClass::Minor.code()],
        [1, 2, 3]
    );
    assert_eq!(GeologicalBoundaryRegime::OceanicSubduction.code(), 1);
    assert_eq!(GeologicalBoundaryRegime::Transform.code(), 7);
    assert_eq!(SubductionPolarity::Absent.code(), 0);
    assert_eq!(SubductionPolarity::PlateB.code(), 2);
}

#[test]
fn boundary_pair_puts_the_lower_plate_first() {
    let mut e = edge(0, 1, PlateBoundaryKind::Transform, false, NormalBand::BelowThirty);
    e.plate_a = 9;
    e.plate_b = 4;
    assert_eq!(boundary_pair(&e), (4, 9));
    e.plate_a = 2;
    assert_eq!(boundary_pair(&e), (2, 4));
}

#[test]
fn boundary_regimes_follow_crust_on_both_sides() {
    // codes: sample 0 oceanic, 1 oceanic, 2 continental, 3 transitional
    let kinds = vec![1u8, 1, 3, 2];
    let convergent = |a: u32, b: u32| edge(a, b, PlateBoundaryKind::Convergent, true, NormalBand::AtLeastHalf);
    let divergent = |a: u32, b: u32| edge(a, b, PlateBoundaryKind::Divergent, false, NormalBand::AtLeastHalf);
    assert_eq!(
        classify_geological_boundary(&kinds, &convergent(0, 1), true),
        (GeologicalBoundaryRegime::OceanicSubduction, SubductionPolarity::PlateA)
    );
    assert_eq!(
        classify_geological_boundary(&kinds, &convergent(0, 1), false),
        (GeologicalBoundaryRegime::OceanicSubduction, SubductionPolarity::PlateB)
    );
    assert_eq!(
        classify_geological_boundary(&kinds, &convergent(0, 2), false),
        (GeologicalBoundaryRegime::OceanContinentSubduction, SubductionPolarity::PlateA)
    );
    assert_eq!(
        classify_geological_boundary(&kinds, &convergent(3, 1), true),
        (GeologicalBoundaryRegime::OceanContinentSubduction, SubductionPolarity::PlateB)
    );
    assert_eq!(
        classify_geological_boundary(&kinds, &convergent(2, 3), true),
        (GeologicalBoundaryRegime::ContinentalCollision, SubductionPolarity::Absent)
    );
    assert_eq!(
        classify_geological_boundary(&kinds, &divergent(0, 1), true),
        (GeologicalBoundaryRegime::OceanicRidge, SubductionPolarity::Absent)
    );
    assert_eq!(
        classify_geological_boundary(&kinds, &divergent(2, 2), true),
        (GeologicalBoundaryRegime::ContinentalRift, SubductionPolarity::Absent)
    );
    assert_eq!(
        classify_geological_boundary(&kinds, &divergent(0, 3), true),
        (GeologicalBoundaryRegime::TransitionalDivergence, SubductionPolarity::Absent)
    );
    assert_eq!(
        classify_geological_boundary(&kinds, &edge(0, 2, PlateBoundaryKind::Transform, true, NormalBand::BelowThirty), true),
        (GeologicalBoundaryRegime::Transform, SubductionPolarity::Absent)
    );
}

#[test]
fn a_single_transform_edge_inside_a_convergent_run_is_removed() {
    let mut edges = vec![
        edge(0, 1, PlateBoundaryKind::Convergent, true, NormalBand::AtLeastHalf),
        edge(1, 2, PlateBoundaryKind::Transform, true, NormalBand::BelowHalf),
        edge(2, 3, PlateBoundaryKind::Convergent, true, NormalBand::AtLeastHalf),
    ];
    stabilize_boundary_kinds(4, &mut edges);
    assert!(edges.iter().all(|e| e.kind == PlateBoundaryKind::Convergent));
}

#[test]
fn a_shear_dominated_transform_edge_is_kept() {
    let mut edges = vec![
        edge(0, 1, PlateBoundaryKind::Convergent, true, NormalBand::AtLeastHalf),
        edge(1, 2, PlateBoundaryKind::Transform, true, NormalBand::BelowThirtyFive),
        edge(2, 3, PlateBoundaryKind::Convergent, true, NormalBand::AtLeastHalf),
    ];
    stabilize_boundary_kinds(4, &mut edges);
    assert_eq!(edges[1].kind, PlateBoundaryKind::Transform);
    assert_eq!(edges[0].kind, PlateBoundaryKind::Convergent);
}

#[test]
fn a_weak_normal_edge_next_to_a_transform_becomes_transform() {
    let mut edges = vec![
        edge(0, 1, PlateBoundaryKind::Transform, false, NormalBand::AtLeastHalf),
        edge(1, 2, PlateBoundaryKind::Divergent, false, NormalBand::BelowThirty),
    ];
    stabilize_boundary_kinds(3, &mut edges);
    assert_eq!(edges[1].kind, PlateBoundaryKind::Transform);
    assert_eq!(edges[0].kind, PlateBoundaryKind::Transform);
}

#[test]
fn edges_of_other_plate_pairs_do_not_vote() {
    let mut edges = vec![
        edge(0, 1, PlateBoundaryKind::Transform, false, NormalBand::AtLeastHalf),
        edge(1, 2, PlateBoundaryKind::Divergent, false, NormalBand::BelowThirty),
    ];
    edges[0].plate_b = 7;
    stabilize_boundary_kinds(3, &mut edges);
    assert_eq!(edges[1].kind, PlateBoundaryKind::Divergent);
}

#[test]
fn boundary_lists_are_classified_counted_and_encoded() {
    let kinds = vec![1u8, 1, 3, 2];
    let edges = vec![
        edge(0, 1, PlateBoundaryKind::Convergent, true, NormalBand::AtLeastHalf),
        edge(0, 2, PlateBoundaryKind::Convergent, true, NormalBand::AtLeastHalf),
        edge(2, 3, PlateBoundaryKind::Divergent, false, NormalBand::AtLeastHalf),
        edge(1, 3, PlateBoundaryKind::Transform, false, NormalBand::BelowThirty),
        edge(0, 1, PlateBoundaryKind::Convergent, true, NormalBand::AtLeastHalf),
    ];
    let a_sinks = vec![false, true, true, true, true];
    let classes = build_geological_boundaries(&kinds, &edges, &a_sinks);
    assert_eq!(
        classes,
        vec![
            (GeologicalBoundaryRegime::OceanicSubduction, SubductionPolarity::PlateB),
            (GeologicalBoundaryRegime::OceanContinentSubduction, SubductionPolarity::PlateA),
            (GeologicalBoundaryRegime::TransitionalDivergence, SubductionPolarity::Absent),
            (GeologicalBoundaryRegime::Transform, SubductionPolarity::Absent),
            (GeologicalBoundaryRegime::OceanicSubduction, SubductionPolarity::PlateA),
        ]
    );
    assert_eq!(regime_edge_counts(&classes), [2, 1, 0, 0, 0, 1, 1]);
    assert_eq!(boundary_regime_codes(&classes), vec![1, 2, 6, 7, 1]);
    assert_eq!(subduction_polarity_codes(&classes), vec![2, 1, 0, 0, 1]);
}

#[test]
fn plate_scale_classes_are_coded_in_plate_order() {
    let classes = vec![PlateScaleClass::Minor, PlateScaleClass::Major, PlateScaleClass::Intermediate];
    assert_eq!(plate_scale_class_codes(&classes), vec![3, 1, 2]);
    assert_eq!(plate_scale_class_codes(&vec![]), Vec::<u8>::new());
}

#[test]
fn an_edge_with_unordered_motion_share_keeps_its_transform_kind() {
    let mut edges = vec![
        edge(0, 1, PlateBoundaryKind::Convergent, true, NormalBand::AtLeastHalf),
        edge(1, 2, PlateBoundaryKind::Transform, false, NormalBand::Unordered),
        edge(2, 3, PlateBoundaryKind::Divergent, false, NormalBand::AtLeastHalf),
        edge(1, 4, PlateBoundaryKind::Divergent, false, NormalBand::AtLeastHalf),
    ];
    stabilize_boundary_kinds(5, &mut edges);
    assert_eq!(edges[1].kind, PlateBoundaryKind::Transform);
}
