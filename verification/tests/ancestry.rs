use interlink_worldgen::ancestry::{validate_infill_inputs, InfillAncestry, InfillSampleCounts};
use interlink_worldgen::error::WorldgenError;

fn counts() -> InfillSampleCounts {
    InfillSampleCounts {
        topology: 12,
        topography: 12,
        climate: 12,
        pre_erosion_drainage: 12,
        pre_erosion_lakes: 12,
        erosion: 12,
        evolution: 12,
        reconciliation: 12,
        evolved_elevation_len: 12,
    }
}

fn ancestry() -> InfillAncestry {
    InfillAncestry {
        topography_hash: 1,
        climate_hash: 2,
        pre_erosion_drainage_hash: 3,
        pre_erosion_lake_hash: 4,
        fluvial_erosion_hash: 5,
        evolution_topography_hash: 1,
        evolution_drainage_hash: 3,
        evolution_lake_hash: 4,
        evolution_fluvial_erosion_hash: 5,
        terrain_evolution_hash: 6,
        evolved_surface_hash: 7,
        post_erosion_drainage_hash: 8,
        reconciliation_topography_hash: 1,
        reconciliation_climate_hash: 2,
        reconciliation_terrain_evolution_hash: 6,
        reconciliation_evolved_surface_hash: 7,
        reconciliation_post_erosion_drainage_hash: 8,
        reconciliation_runoff_hash: 9,
        reconciled_runoff_hash: 9,
        reconciliation_lake_hash: 10,
        reconciled_lake_hash: 10,
        reconciliation_seasonal_hash: 11,
        reconciled_seasonal_hash: 11,
    }
}

const ANCESTRY: WorldgenError =
    WorldgenError::InvalidGeomorphology("WG-7D requires exact accepted WG-4/WG-5/WG-7A/WG-7B/WG-7C ancestry");

#[test]
fn exact_ancestry_is_accepted() {
    assert_eq!(validate_infill_inputs(Ok(()), Ok(()), counts(), ancestry(), 42, 42), Ok(()));
}

#[test]
fn parameter_checks_come_first() {
    assert_eq!(
        validate_infill_inputs(Err("planet radius"), Err("depth"), counts(), ancestry(), 1, 2),
        Err(WorldgenError::InvalidParameters("planet radius"))
    );
    assert_eq!(
        validate_infill_inputs(Ok(()), Err("depth"), counts(), ancestry(), 1, 2),
        Err(WorldgenError::InvalidGeomorphology("depth"))
    );
}

#[test]
fn misaligned_inputs_are_refused_before_ancestry() {
    let mut c = counts();
    c.evolved_elevation_len = 11;
    let mut a = ancestry();
    a.climate_hash = 99;
    assert_eq!(
        validate_infill_inputs(Ok(()), Ok(()), c, a, 1, 1),
        Err(WorldgenError::InvalidGeomorphology("WG-7D inputs must align on the canonical fine topology"))
    );
    let mut c = counts();
    c.climate = 13;
    assert!(validate_infill_inputs(Ok(()), Ok(()), c, ancestry(), 1, 1).is_err());
}

#[test]
fn every_ancestry_link_is_checked() {
    let mutations: Vec<fn(&mut InfillAncestry)> = vec![
        |a| a.evolution_topography_hash += 1,
        |a| a.evolution_drainage_hash += 1,
        |a| a.evolution_lake_hash += 1,
        |a| a.evolution_fluvial_erosion_hash += 1,
        |a| a.reconciliation_topography_hash += 1,
        |a| a.reconciliation_climate_hash += 1,
        |a| a.reconciliation_terrain_evolution_hash += 1,
        |a| a.reconciliation_evolved_surface_hash += 1,
        |a| a.reconciliation_post_erosion_drainage_hash += 1,
        |a| a.reconciled_runoff_hash += 1,
        |a| a.reconciled_lake_hash += 1,
        |a| a.reconciled_seasonal_hash += 1,
    ];
    for mutate in mutations {
        let mut a = ancestry();
        mutate(&mut a);
        assert_eq!(validate_infill_inputs(Ok(()), Ok(()), counts(), a, 1, 1), Err(ANCESTRY));
    }
}

#[test]
fn hydrology_parameters_must_match_the_reconciliation() {
    assert_eq!(
        validate_infill_inputs(Ok(()), Ok(()), counts(), ancestry(), 1, 2),
        Err(WorldgenError::InvalidGeomorphology("WG-7D hydrology parameters must match accepted WG-7C reconciliation"))
    );
}
