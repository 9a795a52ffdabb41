//! Acceptance of the lake-sediment infill stage: its inputs must lie on one
//! topology and descend exactly from the accepted earlier stages, as their
//! digests record.

use vstd::prelude::*;
use crate::error::WorldgenError;

verus! {

/// Sample counts reported by the inputs of the infill stage.
#[derive(Clone, Copy, Debug, PartialEq, Eq)]
pub struct InfillSampleCounts {
    pub topology: u32,
    pub topography: u32,
    pub climate: u32,
    pub pre_erosion_drainage: u32,
    pub pre_erosion_lakes: u32,
    pub erosion: u32,
    pub evolution: u32,
    pub reconciliation: u32,
    /// Length of the evolved solid elevation raster.
    pub evolved_elevation_len: usize,
}

/// Digests of the infill inputs and the digests each input recorded of its
/// own ancestry.
#[derive(Clone, Copy, Debug, PartialEq, Eq)]
pub struct InfillAncestry {
    pub topography_hash: u64,
    pub climate_hash: u64,
    pub pre_erosion_drainage_hash: u64,
    pub pre_erosion_lake_hash: u64,
    pub fluvial_erosion_hash: u64,
    pub evolution_topography_hash: u64,
    pub evolution_drainage_hash: u64,
    pub evolution_lake_hash: u64,
    pub evolution_fluvial_erosion_hash: u64,
    pub terrain_evolution_hash: u64,
    pub evolved_surface_hash: u64,
    /// Digest of the drainage rebuilt on the evolved surface.
    pub post_erosion_drainage_hash: u64,
    pub reconciliation_topography_hash: u64,
    pub reconciliation_climate_hash: u64,
    pub reconciliation_terrain_evolution_hash: u64,
    pub reconciliation_evolved_surface_hash: u64,
    pub reconciliation_post_erosion_drainage_hash: u64,
    pub reconciliation_runoff_hash: u64,
    /// Digest of the reconciled runoff itself.
    pub reconciled_runoff_hash: u64,
    pub reconciliation_lake_hash: u64,
    /// Digest of the reconciled lakes themselves.
    pub reconciled_lake_hash: u64,
    pub reconciliation_seasonal_hash: u64,
    /// Digest of the reconciled seasonal hydrology itself.
    pub reconciled_seasonal_hash: u64,
}

/// Every input reports the topology's sample count, and the evolved surface
/// has one elevation per sample.
pub open spec fn infill_inputs_aligned(c: InfillSampleCounts) -> bool {
    &&& c.topography == c.topology
    &&& c.climate == c.topology
    &&& c.pre_erosion_drainage == c.topology
    &&& c.pre_erosion_lakes == c.topology
    &&& c.erosion == c.topology
    &&& c.evolution == c.topology
    &&& c.reconciliation == c.topology
    &&& c.evolved_elevation_len == c.topology
}

/// The terrain evolution descends from the supplied topography, drainage,
/// lakes and erosion, and the reconciliation from the supplied topography,
/// climate and evolution, and its recorded results are the ones it holds.
pub open spec fn infill_ancestry_exact(a: InfillAncestry) -> bool {
    &&& a.evolution_topography_hash == a.topography_hash
    &&& a.evolution_drainage_hash == a.pre_erosion_drainage_hash
    &&& a.evolution_lake_hash == a.pre_erosion_lake_hash
    &&& a.evolution_fluvial_erosion_hash == a.fluvial_erosion_hash
    &&& a.reconciliation_topography_hash == a.topography_hash
    &&& a.reconciliation_climate_hash == a.climate_hash
    &&& a.reconciliation_terrain_evolution_hash == a.terrain_evolution_hash
    &&& a.reconciliation_evolved_surface_hash == a.evolved_surface_hash
    &&& a.reconciliation_post_erosion_drainage_hash == a.post_erosion_drainage_hash
    &&& a.reconciliation_runoff_hash == a.reconciled_runoff_hash
    &&& a.reconciliation_lake_hash == a.reconciled_lake_hash
    &&& a.reconciliation_seasonal_hash == a.reconciled_seasonal_hash
}

/// Accepts the inputs of the lake-sediment infill stage, in the stage's
/// order: the planet parameters and the infill parameters (their
/// floating-point checks arrive as results), aligned sample counts, exact
/// ancestry, and the hydrology parameters the reconciliation was run with.
pub fn validate_infill_inputs(
    planet_check: Result<(), &'static str>,
    parameter_check: Result<(), &'static str>,
    counts: InfillSampleCounts,
    ancestry: InfillAncestry,
    hydrology_parameter_hash: u64,
    reconciliation_parameter_hash: u64,
) -> (result: Result<(), WorldgenError>)
    ensures
        result is Ok <==> planet_check is Ok && parameter_check is Ok && counts.topography == counts.topology && counts.climate == counts.topology
            && counts.pre_erosion_drainage == counts.topology && counts.pre_erosion_lakes == counts.topology
            && counts.erosion == counts.topology && counts.evolution == counts.topology
            && counts.reconciliation == counts.topology && counts.evolved_elevation_len == counts.topology
            && ancestry.evolution_topography_hash == ancestry.topography_hash
            && ancestry.evolution_drainage_hash == ancestry.pre_erosion_drainage_hash
            && ancestry.evolution_lake_hash == ancestry.pre_erosion_lake_hash
            && ancestry.evolution_fluvial_erosion_hash == ancestry.fluvial_erosion_hash
            && ancestry.reconciliation_topography_hash == ancestry.topography_hash
            && ancestry.reconciliation_climate_hash == ancestry.climate_hash
            && ancestry.reconciliation_terrain_evolution_hash == ancestry.terrain_evolution_hash
            && ancestry.reconciliation_evolved_surface_hash == ancestry.evolved_surface_hash
            && ancestry.reconciliation_post_erosion_drainage_hash == ancestry.post_erosion_drainage_hash
            && ancestry.reconciliation_runoff_hash == ancestry.reconciled_runoff_hash
            && ancestry.reconciliation_lake_hash == ancestry.reconciled_lake_hash
            && ancestry.reconciliation_seasonal_hash == ancestry.reconciled_seasonal_hash
            && hydrology_parameter_hash == reconciliation_parameter_hash,
        result == match planet_check {
            Err(m) => Err(WorldgenError::InvalidParameters(m)),
            Ok(()) => match parameter_check {
                Err(m) => Err(WorldgenError::InvalidGeomorphology(m)),
                Ok(()) => if !infill_inputs_aligned(counts) {
                    Err(WorldgenError::InvalidGeomorphology("WG-7D inputs must align on the canonical fine topology"))
                } else if !infill_ancestry_exact(ancestry) {
                    Err(
                        WorldgenError::InvalidGeomorphology(
                            "WG-7D requires exact accepted WG-4/WG-5/WG-7A/WG-7B/WG-7C ancestry",
                        ),
                    )
                } else if hydrology_parameter_hash != reconciliation_parameter_hash {
                    Err(
                        WorldgenError::InvalidGeomorphology(
                            "WG-7D hydrology parameters must match accepted WG-7C reconciliation",
                        ),
                    )
                } else {
                    Ok::<(), WorldgenError>(())
                },
            },
        },
{
    if let Err(m) = planet_check {
        return Err(WorldgenError::InvalidParameters(m));
    }
    if let Err(m) = parameter_check {
        return Err(WorldgenError::InvalidGeomorphology(m));
    }
    let c = counts;
    let n = c.topology;
    if c.topography != n || c.climate != n || c.pre_erosion_drainage != n || c.pre_erosion_lakes != n
        || c.erosion != n || c.evolution != n || c.reconciliation != n || c.evolved_elevation_len != n as usize {
        return Err(WorldgenError::InvalidGeomorphology("WG-7D inputs must align on the canonical fine topology"));
    }
    let a = ancestry;
    if a.evolution_topography_hash != a.topography_hash || a.evolution_drainage_hash != a.pre_erosion_drainage_hash
        || a.evolution_lake_hash != a.pre_erosion_lake_hash || a.evolution_fluvial_erosion_hash
        != a.fluvial_erosion_hash || a.reconciliation_topography_hash != a.topography_hash
        || a.reconciliation_climate_hash != a.climate_hash || a.reconciliation_terrain_evolution_hash
        != a.terrain_evolution_hash || a.reconciliation_evolved_surface_hash != a.evolved_surface_hash
        || a.reconciliation_post_erosion_drainage_hash != a.post_erosion_drainage_hash
        || a.reconciliation_runoff_hash != a.reconciled_runoff_hash || a.reconciliation_lake_hash
        != a.reconciled_lake_hash || a.reconciliation_seasonal_hash != a.reconciled_seasonal_hash {
        return Err(
            WorldgenError::InvalidGeomorphology("WG-7D requires exact accepted WG-4/WG-5/WG-7A/WG-7B/WG-7C ancestry"),
        );
    }
    if hydrology_parameter_hash != reconciliation_parameter_hash {
        return Err(
            WorldgenError::InvalidGeomorphology("WG-7D hydrology parameters must match accepted WG-7C reconciliation"),
        );
    }
    Ok(())
}

/// The inputs are aligned exactly when every stage reports the topology's
/// sample count and the evolved surface has one elevation per sample.
pub proof fn lemma_aligned_means_one_topology(counts: InfillSampleCounts)
    ensures
        infill_inputs_aligned(counts) <==> counts.topography == counts.topology && counts.climate == counts.topology
            && counts.pre_erosion_drainage == counts.topology && counts.pre_erosion_lakes == counts.topology
            && counts.erosion == counts.topology && counts.evolution == counts.topology
            && counts.reconciliation == counts.topology && counts.evolved_elevation_len == counts.topology,
{
}

/// The ancestry is exact exactly when each recorded digest equals the digest
/// of the input it names.
pub proof fn lemma_exact_ancestry_means_equal_digests(ancestry: InfillAncestry)
    ensures
        infill_ancestry_exact(ancestry) <==> ancestry.evolution_topography_hash == ancestry.topography_hash
            && ancestry.evolution_drainage_hash == ancestry.pre_erosion_drainage_hash
            && ancestry.evolution_lake_hash == ancestry.pre_erosion_lake_hash
            && ancestry.evolution_fluvial_erosion_hash == ancestry.fluvial_erosion_hash
            && ancestry.reconciliation_topography_hash == ancestry.topography_hash
            && ancestry.reconciliation_climate_hash == ancestry.climate_hash
            && ancestry.reconciliation_terrain_evolution_hash == ancestry.terrain_evolution_hash
            && ancestry.reconciliation_evolved_surface_hash == ancestry.evolved_surface_hash
            && ancestry.reconciliation_post_erosion_drainage_hash == ancestry.post_erosion_drainage_hash
            && ancestry.reconciliation_runoff_hash == ancestry.reconciled_runoff_hash
            && ancestry.reconciliation_lake_hash == ancestry.reconciled_lake_hash
            && ancestry.reconciliation_seasonal_hash == ancestry.reconciled_seasonal_hash,
{
}

} // verus!
