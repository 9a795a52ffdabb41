use interlink_worldgen::error::WorldgenError;
use interlink_worldgen::pipeline::{
    check_crust_tectonic_ancestry, check_lithosphere_crust_projection, check_lithosphere_tectonic_ancestry,
    seed_is_blank, validate_geology_seed, validate_lithosphere_seed,
};
use interlink_worldgen::structure::{
    count_structural_zones, explicit_mechanical_structure, project_structural_zones, InheritedStructureKind,
    StructuralZoneCounts, StructuralZoneKind,
};

#[test]
fn blank_seeds_are_those_that_trim_to_nothing() {
    for seed in ["", "   ", "\t\n", "\u{3000}\u{2028}"] {
        assert!(seed_is_blank(seed), "{seed:?}");
        assert_eq!(seed.trim().is_empty(), true);
    }
    for seed in ["seed", "  x  ", "0"] {
        assert!(!seed_is_blank(seed), "{seed:?}");
    }
}

#[test]
fn stages_refuse_blank_seeds_with_their_own_error() {
    assert_eq!(validate_geology_seed(" "), Err(WorldgenError::InvalidGeology("geology seed must not be empty")));
    assert_eq!(validate_geology_seed("earth"), Ok(()));
    assert_eq!(
        validate_lithosphere_seed(""),
        Err(WorldgenError::InvalidLithosphere("lithosphere seed must not be empty"))
    );
    assert_eq!(validate_lithosphere_seed("earth"), Ok(()));
}

#[test]
fn projected_tectonics_must_match_the_supplied_ancestry() {
    let ids = vec![0u16, 1, 1, 2];
    assert_eq!(check_crust_tectonic_ancestry(7, &ids, 7, &ids.clone()), Ok(()));
    let crust_error =
        Err(WorldgenError::InvalidGeology("WG-3 historical material does not match supplied modern tectonic ancestry"));
    assert_eq!(check_crust_tectonic_ancestry(7, &ids, 8, &ids), crust_error);
    assert_eq!(check_crust_tectonic_ancestry(7, &ids, 7, &vec![0, 1, 2, 2]), crust_error);
    assert_eq!(check_crust_tectonic_ancestry(7, &ids, 7, &vec![0, 1, 1]), crust_error);
    assert_eq!(
        check_lithosphere_tectonic_ancestry(1, &ids, 1, &vec![0, 1, 1, 3]),
        Err(WorldgenError::InvalidLithosphere(
            "WG-3.5 historical material does not match supplied modern tectonic ancestry"
        ))
    );
    assert_eq!(check_lithosphere_tectonic_ancestry(1, &ids, 1, &ids), Ok(()));
}

#[test]
fn projected_crust_must_match_the_supplied_crust() {
    let kinds = vec![0u8, 2, 1];
    let provinces = vec![4u16, 4, 5];
    assert_eq!(check_lithosphere_crust_projection(3, &kinds, &provinces, 3, &kinds, &provinces), Ok(()));
    let error = Err(WorldgenError::InvalidLithosphere(
        "WG-3.5 historical material does not match supplied WG-3 crust projection",
    ));
    assert_eq!(check_lithosphere_crust_projection(3, &kinds, &provinces, 4, &kinds, &provinces), error);
    assert_eq!(check_lithosphere_crust_projection(3, &kinds, &provinces, 3, &vec![0, 2, 2], &provinces), error);
    assert_eq!(check_lithosphere_crust_projection(3, &kinds, &provinces, 3, &kinds, &vec![4, 5, 5]), error);
}

#[test]
fn inherited_structures_project_to_zones_and_are_counted() {
    let structures = vec![
        InheritedStructureKind::PaleoSuture,
        InheritedStructureKind::Absent,
        InheritedStructureKind::InheritedRift,
        InheritedStructureKind::ShearZone,
        InheritedStructureKind::ContinentalMargin,
        InheritedStructureKind::CratonBoundary,
        InheritedStructureKind::PaleoSuture,
    ];
    let zones = project_structural_zones(&structures);
    assert_eq!(
        zones,
        vec![
            StructuralZoneKind::Suture,
            StructuralZoneKind::Absent,
            StructuralZoneKind::Rift,
            StructuralZoneKind::Transform,
            StructuralZoneKind::ContinentalMargin,
            StructuralZoneKind::Absent,
            StructuralZoneKind::Suture,
        ]
    );
    assert_eq!(
        count_structural_zones(&zones),
        StructuralZoneCounts { suture: 2, rift: 1, transform: 1, continental_margin: 1 }
    );
    let explicit: Vec<bool> = structures.iter().map(|s| explicit_mechanical_structure(*s)).collect();
    assert_eq!(explicit, vec![true, false, true, true, true, false, true]);
}
