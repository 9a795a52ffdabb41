//! Digests of the historical stage outputs: FNV-1a over a tag, the
//! upstream digests and every per-sample field. Floating-point fields enter
//! as the bit patterns of their values (`f32::to_bits`, `f64::to_bits`).

use vstd::prelude::*;
use vstd::string::StringSliceAdditionalSpecFns;
use crate::fnv::{
    fnv_fold, fnv_update, fnv_update_u16, fnv_update_u32, fnv_update_u64, hash_f32_bits, hash_u8, le_bytes,
    le_words16, le_words32, lemma_fnv_fold_concat, fnv_update_words16, FNV_OFFSET_BASIS,
};
use crate::seed::{derive_stage_seed, stage_seed_spec};

verus! {

/// Bytes of a digest tag: its text followed by one zero byte.
pub open spec fn tag_bytes(tag: &str) -> Seq<u8> {
    tag.spec_bytes() + seq![0u8]
}

/// A byte field preceded by its length as a little-endian `u64`.
pub open spec fn prefixed_bytes(values: Seq<u8>) -> Seq<u8> {
    le_bytes(values.len(), 8) + values
}

/// A field of `f32` bit patterns preceded by its length as a little-endian `u64`.
pub open spec fn prefixed_bits32(bits: Seq<u32>) -> Seq<u8> {
    le_bytes(bits.len(), 8) + le_words32(bits)
}

fn absorb_tag(hash: u64, tag: &str) -> (result: u64)
    ensures
        result == fnv_fold(hash, tag_bytes(tag)),
{
    let zero: [u8; 1] = [0u8];
    let h = fnv_update(hash, tag.as_bytes());
    proof {
        assert(zero@ =~= seq![0u8]);
        lemma_fnv_fold_concat(hash, tag.spec_bytes(), seq![0u8]);
    }
    fnv_update(h, zero.as_slice())
}

/// Digest tag of the historical tectonic morphology.
pub const HISTORICAL_MORPHOLOGY_TAG: &'static str = "geology:historical-tectonic-morphology:v1";

/// Namespace of the historical morphology stage seed.
pub const HISTORICAL_MORPHOLOGY_NAMESPACE: &'static str = "worldgen:geology:historical-tectonic-morphology:v1";

/// Per-sample fields of the historical tectonic morphology, in digest order.
pub struct MorphologyFields {
    pub latest_event_kind: Vec<u8>,
    pub latest_event_age_bits: Vec<u32>,
    pub rift_intensity_bits: Vec<u32>,
    pub rift_age_bits: Vec<u32>,
    pub shear_intensity_bits: Vec<u32>,
    pub shear_age_bits: Vec<u32>,
    pub suture_intensity_bits: Vec<u32>,
    pub suture_age_bits: Vec<u32>,
    pub accretion_intensity_bits: Vec<u32>,
    pub passive_margin_index_bits: Vec<u32>,
    pub active_orogen_intensity_bits: Vec<u32>,
    pub fossil_orogen_intensity_bits: Vec<u32>,
    pub cumulative_shortening_bits: Vec<u32>,
    pub cumulative_extension_bits: Vec<u32>,
    pub cumulative_shear_bits: Vec<u32>,
}

/// Byte stream of the morphology digest.
pub open spec fn morphology_digest_bytes(stage_seed: u64, history_hash: u64, tectonic_hash: u64, fields: MorphologyFields) -> Seq<u8> {
    tag_bytes(HISTORICAL_MORPHOLOGY_TAG)
        + le_bytes(stage_seed as nat, 8)
        + le_bytes(history_hash as nat, 8)
        + le_bytes(tectonic_hash as nat, 8)
        + prefixed_bytes(fields.latest_event_kind@)
        + prefixed_bits32(fields.latest_event_age_bits@)
        + prefixed_bits32(fields.rift_intensity_bits@)
        + prefixed_bits32(fields.rift_age_bits@)
        + prefixed_bits32(fields.shear_intensity_bits@)
        + prefixed_bits32(fields.shear_age_bits@)
        + prefixed_bits32(fields.suture_intensity_bits@)
        + prefixed_bits32(fields.suture_age_bits@)
        + prefixed_bits32(fields.accretion_intensity_bits@)
        + prefixed_bits32(fields.passive_margin_index_bits@)
        + prefixed_bits32(fields.active_orogen_intensity_bits@)
        + prefixed_bits32(fields.fossil_orogen_intensity_bits@)
        + prefixed_bits32(fields.cumulative_shortening_bits@)
        + prefixed_bits32(fields.cumulative_extension_bits@)
        + prefixed_bits32(fields.cumulative_shear_bits@)
}

/// Digest of the historical tectonic morphology of `seed`, over the history
/// and tectonic digests and every morphology field.
pub fn historical_morphology_hash(seed: &str, history_hash: u64, tectonic_hash: u64, fields: &MorphologyFields) -> (digest: u64)
    ensures
        digest == fnv_fold(
            FNV_OFFSET_BASIS,
            morphology_digest_bytes(
                stage_seed_spec(seed.spec_bytes(), HISTORICAL_MORPHOLOGY_NAMESPACE.spec_bytes()),
                history_hash,
                tectonic_hash,
                *fields,
            ),
        ),
{
    let stage_seed = derive_stage_seed(seed, HISTORICAL_MORPHOLOGY_NAMESPACE);
    let mut h: u64 = FNV_OFFSET_BASIS;
    let ghost mut stream: Seq<u8> = Seq::empty();
    proof {
        lemma_fnv_fold_concat(FNV_OFFSET_BASIS, stream, tag_bytes(HISTORICAL_MORPHOLOGY_TAG));
    }
    h = absorb_tag(h, HISTORICAL_MORPHOLOGY_TAG);
    proof {
        stream = stream + tag_bytes(HISTORICAL_MORPHOLOGY_TAG);
    }
    proof {
        lemma_fnv_fold_concat(FNV_OFFSET_BASIS, stream, le_bytes(stage_seed as nat, 8));
    }
    h = fnv_update_u64(h, stage_seed);
    proof {
        stream = stream + le_bytes(stage_seed as nat, 8);
    }
    proof {
        lemma_fnv_fold_concat(FNV_OFFSET_BASIS, stream, le_bytes(history_hash as nat, 8));
    }
    h = fnv_update_u64(h, history_hash);
    proof {
        stream = stream + le_bytes(history_hash as nat, 8);
    }
    proof {
        lemma_fnv_fold_concat(FNV_OFFSET_BASIS, stream, le_bytes(tectonic_hash as nat, 8));
    }
    h = fnv_update_u64(h, tectonic_hash);
    proof {
        stream = stream + le_bytes(tectonic_hash as nat, 8);
    }
    proof {
        lemma_fnv_fold_concat(FNV_OFFSET_BASIS, stream, prefixed_bytes(fields.latest_event_kind@));
    }
    h = hash_u8(h, fields.latest_event_kind.as_slice());
    proof {
        stream = stream + prefixed_bytes(fields.latest_event_kind@);
    }
    proof {
        lemma_fnv_fold_concat(FNV_OFFSET_BASIS, stream, prefixed_bits32(fields.latest_event_age_bits@));
    }
    h = hash_f32_bits(h, &fields.latest_event_age_bits);
    proof {
        stream = stream + prefixed_bits32(fields.latest_event_age_bits@);
    }
    proof {
        lemma_fnv_fold_concat(FNV_OFFSET_BASIS, stream, prefixed_bits32(fields.rift_intensity_bits@));
    }
    h = hash_f32_bits(h, &fields.rift_intensity_bits);
    proof {
        stream = stream + prefixed_bits32(fields.rift_intensity_bits@);
    }
    proof {
        lemma_fnv_fold_concat(FNV_OFFSET_BASIS, stream, prefixed_bits32(fields.rift_age_bits@));
    }
    h = hash_f32_bits(h, &fields.rift_age_bits);
    proof {
        stream = stream + prefixed_bits32(fields.rift_age_bits@);
    }
    proof {
        lemma_fnv_fold_concat(FNV_OFFSET_BASIS, stream, prefixed_bits32(fields.shear_intensity_bits@));
    }
    h = hash_f32_bits(h, &fields.shear_intensity_bits);
    proof {
        stream = stream + prefixed_bits32(fields.shear_intensity_bits@);
    }
    proof {
        lemma_fnv_fold_concat(FNV_OFFSET_BASIS, stream, prefixed_bits32(fields.shear_age_bits@));
    }
    h = hash_f32_bits(h, &fields.shear_age_bits);
    proof {
        stream = stream + prefixed_bits32(fields.shear_age_bits@);
    }
    proof {
        lemma_fnv_fold_concat(FNV_OFFSET_BASIS, stream, prefixed_bits32(fields.suture_intensity_bits@));
    }
    h = hash_f32_bits(h, &fields.suture_intensity_bits);
    proof {
        stream = stream + prefixed_bits32(fields.suture_intensity_bits@);
    }
    proof {
        lemma_fnv_fold_concat(FNV_OFFSET_BASIS, stream, prefixed_bits32(fields.suture_age_bits@));
    }
    h = hash_f32_bits(h, &fields.suture_age_bits);
    proof {
        stream = stream + prefixed_bits32(fields.suture_age_bits@);
    }
    proof {
        lemma_fnv_fold_concat(FNV_OFFSET_BASIS, stream, prefixed_bits32(fields.accretion_intensity_bits@));
    }
    h = hash_f32_bits(h, &fields.accretion_intensity_bits);
    proof {
        stream = stream + prefixed_bits32(fields.accretion_intensity_bits@);
    }
    proof {
        lemma_fnv_fold_concat(FNV_OFFSET_BASIS, stream, prefixed_bits32(fields.passive_margin_index_bits@));
    }
    h = hash_f32_bits(h, &fields.passive_margin_index_bits);
    proof {
        stream = stream + prefixed_bits32(fields.passive_margin_index_bits@);
    }
    proof {
        lemma_fnv_fold_concat(FNV_OFFSET_BASIS, stream, prefixed_bits32(fields.active_orogen_intensity_bits@));
    }
    h = hash_f32_bits(h, &fields.active_orogen_intensity_bits);
    proof {
        stream = stream + prefixed_bits32(fields.active_orogen_intensity_bits@);
    }
    proof {
        lemma_fnv_fold_concat(FNV_OFFSET_BASIS, stream, prefixed_bits32(fields.fossil_orogen_intensity_bits@));
    }
    h = hash_f32_bits(h, &fields.fossil_orogen_intensity_bits);
    proof {
        stream = stream + prefixed_bits32(fields.fossil_orogen_intensity_bits@);
    }
    proof {
        lemma_fnv_fold_concat(FNV_OFFSET_BASIS, stream, prefixed_bits32(fields.cumulative_shortening_bits@));
    }
    h = hash_f32_bits(h, &fields.cumulative_shortening_bits);
    proof {
        stream = stream + prefixed_bits32(fields.cumulative_shortening_bits@);
    }
    proof {
        lemma_fnv_fold_concat(FNV_OFFSET_BASIS, stream, prefixed_bits32(fields.cumulative_extension_bits@));
    }
    h = hash_f32_bits(h, &fields.cumulative_extension_bits);
    proof {
        stream = stream + prefixed_bits32(fields.cumulative_extension_bits@);
    }
    proof {
        lemma_fnv_fold_concat(FNV_OFFSET_BASIS, stream, prefixed_bits32(fields.cumulative_shear_bits@));
    }
    h = hash_f32_bits(h, &fields.cumulative_shear_bits);
    proof {
        stream = stream + prefixed_bits32(fields.cumulative_shear_bits@);
    }
    h
}

/// Digest tag of the event-driven orogen provinces.
pub const EVENT_DRIVEN_OROGEN_TAG: &'static str = "geology:event-driven-orogen-provinces:v1";

/// Per-sample fields of the orogen provinces, in digest order.
pub struct OrogenProvinceFields {
    pub province_kind: Vec<u8>,
    pub orogenic_intensity_bits: Vec<u32>,
    pub mountain_core_index_bits: Vec<u32>,
    pub crustal_root_index_bits: Vec<u32>,
    pub plateau_index_bits: Vec<u32>,
    pub fold_thrust_index_bits: Vec<u32>,
    pub foreland_basin_index_bits: Vec<u32>,
    pub suture_index_bits: Vec<u32>,
    pub transpression_index_bits: Vec<u32>,
    pub maturity_index_bits: Vec<u32>,
    pub shortening_index_bits: Vec<u32>,
    pub local_width_bits: Vec<u32>,
}

/// Byte stream of the event-driven orogen digest.
pub open spec fn event_driven_digest_bytes(base_hash: u64, morphology_hash: u64, fields: OrogenProvinceFields) -> Seq<u8> {
    tag_bytes(EVENT_DRIVEN_OROGEN_TAG)
        + le_bytes(base_hash as nat, 8)
        + le_bytes(morphology_hash as nat, 8)
        + prefixed_bytes(fields.province_kind@)
        + prefixed_bits32(fields.orogenic_intensity_bits@)
        + prefixed_bits32(fields.mountain_core_index_bits@)
        + prefixed_bits32(fields.crustal_root_index_bits@)
        + prefixed_bits32(fields.plateau_index_bits@)
        + prefixed_bits32(fields.fold_thrust_index_bits@)
        + prefixed_bits32(fields.foreland_basin_index_bits@)
        + prefixed_bits32(fields.suture_index_bits@)
        + prefixed_bits32(fields.transpression_index_bits@)
        + prefixed_bits32(fields.maturity_index_bits@)
        + prefixed_bits32(fields.shortening_index_bits@)
        + prefixed_bits32(fields.local_width_bits@)
}

/// Digest of orogen provinces reshaped by the historical events, over the
/// digest of the provinces before reshaping and the morphology digest.
pub fn event_driven_hash(base_hash: u64, morphology_hash: u64, fields: &OrogenProvinceFields) -> (digest: u64)
    ensures
        digest == fnv_fold(FNV_OFFSET_BASIS, event_driven_digest_bytes(base_hash, morphology_hash, *fields)),
{
    let mut h: u64 = FNV_OFFSET_BASIS;
    let ghost mut stream: Seq<u8> = Seq::empty();
    proof {
        lemma_fnv_fold_concat(FNV_OFFSET_BASIS, stream, tag_bytes(EVENT_DRIVEN_OROGEN_TAG));
    }
    h = absorb_tag(h, EVENT_DRIVEN_OROGEN_TAG);
    proof {
        stream = stream + tag_bytes(EVENT_DRIVEN_OROGEN_TAG);
    }
    proof {
        lemma_fnv_fold_concat(FNV_OFFSET_BASIS, stream, le_bytes(base_hash as nat, 8));
    }
    h = fnv_update_u64(h, base_hash);
    proof {
        stream = stream + le_bytes(base_hash as nat, 8);
    }
    proof {
        lemma_fnv_fold_concat(FNV_OFFSET_BASIS, stream, le_bytes(morphology_hash as nat, 8));
    }
    h = fnv_update_u64(h, morphology_hash);
    proof {
        stream = stream + le_bytes(morphology_hash as nat, 8);
    }
    proof {
        lemma_fnv_fold_concat(FNV_OFFSET_BASIS, stream, prefixed_bytes(fields.province_kind@));
    }
    h = hash_u8(h, fields.province_kind.as_slice());
    proof {
        stream = stream + prefixed_bytes(fields.province_kind@);
    }
    proof {
        lemma_fnv_fold_concat(FNV_OFFSET_BASIS, stream, prefixed_bits32(fields.orogenic_intensity_bits@));
    }
    h = hash_f32_bits(h, &fields.orogenic_intensity_bits);
    proof {
        stream = stream + prefixed_bits32(fields.orogenic_intensity_bits@);
    }
    proof {
        lemma_fnv_fold_concat(FNV_OFFSET_BASIS, stream, prefixed_bits32(fields.mountain_core_index_bits@));
    }
    h = hash_f32_bits(h, &fields.mountain_core_index_bits);
    proof {
        stream = stream + prefixed_bits32(fields.mountain_core_index_bits@);
    }
    proof {
        lemma_fnv_fold_concat(FNV_OFFSET_BASIS, stream, prefixed_bits32(fields.crustal_root_index_bits@));
    }
    h = hash_f32_bits(h, &fields.crustal_root_index_bits);
    proof {
        stream = stream + prefixed_bits32(fields.crustal_root_index_bits@);
    }
    proof {
        lemma_fnv_fold_concat(FNV_OFFSET_BASIS, stream, prefixed_bits32(fields.plateau_index_bits@));
    }
    h = hash_f32_bits(h, &fields.plateau_index_bits);
    proof {
        stream = stream + prefixed_bits32(fields.plateau_index_bits@);
    }
    proof {
        lemma_fnv_fold_concat(FNV_OFFSET_BASIS, stream, prefixed_bits32(fields.fold_thrust_index_bits@));
    }
    h = hash_f32_bits(h, &fields.fold_thrust_index_bits);
    proof {
        stream = stream + prefixed_bits32(fields.fold_thrust_index_bits@);
    }
    proof {
        lemma_fnv_fold_concat(FNV_OFFSET_BASIS, stream, prefixed_bits32(fields.foreland_basin_index_bits@));
    }
    h = hash_f32_bits(h, &fields.foreland_basin_index_bits);
    proof {
        stream = stream + prefixed_bits32(fields.foreland_basin_index_bits@);
    }
    proof {
        lemma_fnv_fold_concat(FNV_OFFSET_BASIS, stream, prefixed_bits32(fields.suture_index_bits@));
    }
    h = hash_f32_bits(h, &fields.suture_index_bits);
    proof {
        stream = stream + prefixed_bits32(fields.suture_index_bits@);
    }
    proof {
        lemma_fnv_fold_concat(FNV_OFFSET_BASIS, stream, prefixed_bits32(fields.transpression_index_bits@));
    }
    h = hash_f32_bits(h, &fields.transpression_index_bits);
    proof {
        stream = stream + prefixed_bits32(fields.transpression_index_bits@);
    }
    proof {
        lemma_fnv_fold_concat(FNV_OFFSET_BASIS, stream, prefixed_bits32(fields.maturity_index_bits@));
    }
    h = hash_f32_bits(h, &fields.maturity_index_bits);
    proof {
        stream = stream + prefixed_bits32(fields.maturity_index_bits@);
    }
    proof {
        lemma_fnv_fold_concat(FNV_OFFSET_BASIS, stream, prefixed_bits32(fields.shortening_index_bits@));
    }
    h = hash_f32_bits(h, &fields.shortening_index_bits);
    proof {
        stream = stream + prefixed_bits32(fields.shortening_index_bits@);
    }
    proof {
        lemma_fnv_fold_concat(FNV_OFFSET_BASIS, stream, prefixed_bits32(fields.local_width_bits@));
    }
    h = hash_f32_bits(h, &fields.local_width_bits);
    proof {
        stream = stream + prefixed_bits32(fields.local_width_bits@);
    }
    h
}

/// Digest tag of the pre-orogenic lithosphere built from material history.
pub const HISTORICAL_PRE_OROGENIC_TAG: &'static str = "geology:pre-orogenic-from-material-history:v1";

/// Per-sample fields of the pre-orogenic lithosphere.
pub struct PreOrogenicFields {
    pub inherited_structure_kind: Vec<u8>,
    pub intrinsic_strength_bits: Vec<u32>,
    pub intrinsic_weakness_bits: Vec<u32>,
    pub effective_elastic_thickness_bits: Vec<u32>,
    pub inherited_fabric_strength_bits: Vec<u32>,
    pub inherited_rift_memory_bits: Vec<u32>,
    pub inherited_shear_memory_bits: Vec<u32>,
    pub fragmentation_propensity_bits: Vec<u32>,
}

/// Byte stream of the pre-orogenic digest: the four strength fields, the
/// structure kinds, then the three memory fields.
pub open spec fn pre_orogenic_digest_bytes(base_hash: u64, morphology_hash: u64, fields: PreOrogenicFields) -> Seq<u8> {
    tag_bytes(HISTORICAL_PRE_OROGENIC_TAG)
        + le_bytes(base_hash as nat, 8)
        + le_bytes(morphology_hash as nat, 8)
        + prefixed_bits32(fields.intrinsic_strength_bits@)
        + prefixed_bits32(fields.intrinsic_weakness_bits@)
        + prefixed_bits32(fields.effective_elastic_thickness_bits@)
        + prefixed_bits32(fields.inherited_fabric_strength_bits@)
        + prefixed_bytes(fields.inherited_structure_kind@)
        + prefixed_bits32(fields.inherited_rift_memory_bits@)
        + prefixed_bits32(fields.inherited_shear_memory_bits@)
        + prefixed_bits32(fields.fragmentation_propensity_bits@)
}

/// Digest of the pre-orogenic lithosphere reshaped by material history.
pub fn historical_pre_hash(base_hash: u64, morphology_hash: u64, fields: &PreOrogenicFields) -> (digest: u64)
    ensures
        digest == fnv_fold(FNV_OFFSET_BASIS, pre_orogenic_digest_bytes(base_hash, morphology_hash, *fields)),
{
    let mut h: u64 = FNV_OFFSET_BASIS;
    let ghost mut stream: Seq<u8> = Seq::empty();
    proof {
        lemma_fnv_fold_concat(FNV_OFFSET_BASIS, stream, tag_bytes(HISTORICAL_PRE_OROGENIC_TAG));
    }
    h = absorb_tag(h, HISTORICAL_PRE_OROGENIC_TAG);
    proof {
        stream = stream + tag_bytes(HISTORICAL_PRE_OROGENIC_TAG);
    }
    proof {
        lemma_fnv_fold_concat(FNV_OFFSET_BASIS, stream, le_bytes(base_hash as nat, 8));
    }
    h = fnv_update_u64(h, base_hash);
    proof {
        stream = stream + le_bytes(base_hash as nat, 8);
    }
    proof {
        lemma_fnv_fold_concat(FNV_OFFSET_BASIS, stream, le_bytes(morphology_hash as nat, 8));
    }
    h = fnv_update_u64(h, morphology_hash);
    proof {
        stream = stream + le_bytes(morphology_hash as nat, 8);
    }
    proof {
        lemma_fnv_fold_concat(FNV_OFFSET_BASIS, stream, prefixed_bits32(fields.intrinsic_strength_bits@));
    }
    h = hash_f32_bits(h, &fields.intrinsic_strength_bits);
    proof {
        stream = stream + prefixed_bits32(fields.intrinsic_strength_bits@);
    }
    proof {
        lemma_fnv_fold_concat(FNV_OFFSET_BASIS, stream, prefixed_bits32(fields.intrinsic_weakness_bits@));
    }
    h = hash_f32_bits(h, &fields.intrinsic_weakness_bits);
    proof {
        stream = stream + prefixed_bits32(fields.intrinsic_weakness_bits@);
    }
    proof {
        lemma_fnv_fold_concat(FNV_OFFSET_BASIS, stream, prefixed_bits32(fields.effective_elastic_thickness_bits@));
    }
    h = hash_f32_bits(h, &fields.effective_elastic_thickness_bits);
    proof {
        stream = stream + prefixed_bits32(fields.effective_elastic_thickness_bits@);
    }
    proof {
        lemma_fnv_fold_concat(FNV_OFFSET_BASIS, stream, prefixed_bits32(fields.inherited_fabric_strength_bits@));
    }
    h = hash_f32_bits(h, &fields.inherited_fabric_strength_bits);
    proof {
        stream = stream + prefixed_bits32(fields.inherited_fabric_strength_bits@);
    }
    proof {
        lemma_fnv_fold_concat(FNV_OFFSET_BASIS, stream, prefixed_bytes(fields.inherited_structure_kind@));
    }
    h = hash_u8(h, fields.inherited_structure_kind.as_slice());
    proof {
        stream = stream + prefixed_bytes(fields.inherited_structure_kind@);
    }
    proof {
        lemma_fnv_fold_concat(FNV_OFFSET_BASIS, stream, prefixed_bits32(fields.inherited_rift_memory_bits@));
    }
    h = hash_f32_bits(h, &fields.inherited_rift_memory_bits);
    proof {
        stream = stream + prefixed_bits32(fields.inherited_rift_memory_bits@);
    }
    proof {
        lemma_fnv_fold_concat(FNV_OFFSET_BASIS, stream, prefixed_bits32(fields.inherited_shear_memory_bits@));
    }
    h = hash_f32_bits(h, &fields.inherited_shear_memory_bits);
    proof {
        stream = stream + prefixed_bits32(fields.inherited_shear_memory_bits@);
    }
    proof {
        lemma_fnv_fold_concat(FNV_OFFSET_BASIS, stream, prefixed_bits32(fields.fragmentation_propensity_bits@));
    }
    h = hash_f32_bits(h, &fields.fragmentation_propensity_bits);
    proof {
        stream = stream + prefixed_bits32(fields.fragmentation_propensity_bits@);
    }
    h
}

/// Digest tag of the modern tectonics projected from history.
pub const MODERN_TECTONICS_TAG: &'static str = "tectonics:historical-modern:v2";

/// What the modern tectonic digest reads of a plate.
#[derive(Clone, Copy, Debug, PartialEq, Eq)]
pub struct PlateDigestRecord {
    pub id: u16,
    pub seed_sample: u32,
    pub angular_velocity_bits: [u64; 3],
    pub area_bits: u64,
}

/// What the modern tectonic digest reads of a boundary edge.
#[derive(Clone, Copy, Debug, PartialEq, Eq)]
pub struct BoundaryDigestRecord {
    pub sample_a: u32,
    pub sample_b: u32,
    pub kind_code: u8,
    pub normal_rate_bits: u64,
    pub shear_rate_bits: u64,
}

/// Bytes of one plate in the modern tectonic digest.
pub open spec fn plate_bytes(plate: PlateDigestRecord) -> Seq<u8> {
    le_bytes(plate.id as nat, 2) + le_bytes(plate.seed_sample as nat, 4) + le_bytes(
        plate.angular_velocity_bits[0] as nat,
        8,
    ) + le_bytes(plate.angular_velocity_bits[1] as nat, 8) + le_bytes(plate.angular_velocity_bits[2] as nat, 8)
        + le_bytes(plate.area_bits as nat, 8)
}

/// Bytes of every plate, in order.
pub open spec fn plates_bytes(plates: Seq<PlateDigestRecord>) -> Seq<u8>
    decreases plates.len(),
{
    if plates.len() == 0 {
        Seq::empty()
    } else {
        plates_bytes(plates.drop_last()) + plate_bytes(plates.last())
    }
}

/// Bytes of one boundary edge in the modern tectonic digest.
pub open spec fn boundary_bytes(edge: BoundaryDigestRecord) -> Seq<u8> {
    le_bytes(edge.sample_a as nat, 4) + le_bytes(edge.sample_b as nat, 4) + seq![edge.kind_code] + le_bytes(
        edge.normal_rate_bits as nat,
        8,
    ) + le_bytes(edge.shear_rate_bits as nat, 8)
}

/// Bytes of every boundary edge, in order.
pub open spec fn boundaries_bytes(edges: Seq<BoundaryDigestRecord>) -> Seq<u8>
    decreases edges.len(),
{
    if edges.len() == 0 {
        Seq::empty()
    } else {
        boundaries_bytes(edges.drop_last()) + boundary_bytes(edges.last())
    }
}

/// Byte stream of the modern tectonic digest.
pub open spec fn modern_tectonic_digest_bytes(
    stage_seed: u64,
    plates: Seq<PlateDigestRecord>,
    owners: Seq<u16>,
    boundaries: Seq<BoundaryDigestRecord>,
    history_hash: u64,
) -> Seq<u8> {
    tag_bytes(MODERN_TECTONICS_TAG) + le_bytes(stage_seed as nat, 8) + le_bytes(history_hash as nat, 8)
        + plates_bytes(plates) + le_words16(owners) + boundaries_bytes(boundaries)
}

fn absorb_plate(hash: u64, plate: &PlateDigestRecord) -> (result: u64)
    ensures
        result == fnv_fold(hash, plate_bytes(*plate)),
{
    let ghost a = le_bytes(plate.id as nat, 2);
    let ghost b = le_bytes(plate.seed_sample as nat, 4);
    let ghost c = le_bytes(plate.angular_velocity_bits[0] as nat, 8);
    let ghost d = le_bytes(plate.angular_velocity_bits[1] as nat, 8);
    let ghost e = le_bytes(plate.angular_velocity_bits[2] as nat, 8);
    let ghost f = le_bytes(plate.area_bits as nat, 8);
    let h1 = fnv_update_u16(hash, plate.id);
    let h2 = fnv_update_u32(h1, plate.seed_sample);
    let h3 = fnv_update_u64(h2, plate.angular_velocity_bits[0]);
    let h4 = fnv_update_u64(h3, plate.angular_velocity_bits[1]);
    let h5 = fnv_update_u64(h4, plate.angular_velocity_bits[2]);
    let h6 = fnv_update_u64(h5, plate.area_bits);
    proof {
        lemma_fnv_fold_concat(hash, a, b);
        lemma_fnv_fold_concat(hash, a + b, c);
        lemma_fnv_fold_concat(hash, a + b + c, d);
        lemma_fnv_fold_concat(hash, a + b + c + d, e);
        lemma_fnv_fold_concat(hash, a + b + c + d + e, f);
    }
    h6
}

fn absorb_boundary(hash: u64, edge: &BoundaryDigestRecord) -> (result: u64)
    ensures
        result == fnv_fold(hash, boundary_bytes(*edge)),
{
    let ghost a = le_bytes(edge.sample_a as nat, 4);
    let ghost b = le_bytes(edge.sample_b as nat, 4);
    let ghost c = seq![edge.kind_code];
    let ghost d = le_bytes(edge.normal_rate_bits as nat, 8);
    let ghost e = le_bytes(edge.shear_rate_bits as nat, 8);
    let kind: [u8; 1] = [edge.kind_code];
    let h1 = fnv_update_u32(hash, edge.sample_a);
    let h2 = fnv_update_u32(h1, edge.sample_b);
    let h3 = fnv_update(h2, kind.as_slice());
    let h4 = fnv_update_u64(h3, edge.normal_rate_bits);
    let h5 = fnv_update_u64(h4, edge.shear_rate_bits);
    proof {
        assert(kind@ =~= c);
        lemma_fnv_fold_concat(hash, a, b);
        lemma_fnv_fold_concat(hash, a + b, c);
        lemma_fnv_fold_concat(hash, a + b + c, d);
        lemma_fnv_fold_concat(hash, a + b + c + d, e);
    }
    h5
}

/// Digest of the modern tectonics projected from history: plates, per-sample
/// owners and boundary edges after the stage seed and the history digest.
pub fn modern_tectonic_hash(
    stage_seed: u64,
    plates: &Vec<PlateDigestRecord>,
    owners: &Vec<u16>,
    boundaries: &Vec<BoundaryDigestRecord>,
    history_hash: u64,
) -> (digest: u64)
    ensures
        digest == fnv_fold(
            FNV_OFFSET_BASIS,
            modern_tectonic_digest_bytes(stage_seed, plates@, owners@, boundaries@, history_hash),
        ),
{
    let h0 = absorb_tag(FNV_OFFSET_BASIS, MODERN_TECTONICS_TAG);
    let h1 = fnv_update_u64(h0, stage_seed);
    let h2 = fnv_update_u64(h1, history_hash);
    let ghost head = tag_bytes(MODERN_TECTONICS_TAG) + le_bytes(stage_seed as nat, 8) + le_bytes(history_hash as nat, 8);
    proof {
        lemma_fnv_fold_concat(FNV_OFFSET_BASIS, tag_bytes(MODERN_TECTONICS_TAG), le_bytes(stage_seed as nat, 8));
        lemma_fnv_fold_concat(
            FNV_OFFSET_BASIS,
            tag_bytes(MODERN_TECTONICS_TAG) + le_bytes(stage_seed as nat, 8),
            le_bytes(history_hash as nat, 8),
        );
    }
    let mut h = h2;
    let mut i: usize = 0;
    while i < plates.len()
        invariant
            i <= plates@.len(),
            h == fnv_fold(FNV_OFFSET_BASIS, head + plates_bytes(plates@.take(i as int))),
        decreases plates@.len() - i,
    {
        proof {
            assert(plates@.take(i + 1).drop_last() =~= plates@.take(i as int));
            assert(head + plates_bytes(plates@.take(i + 1)) =~= head + plates_bytes(plates@.take(i as int))
                + plate_bytes(plates@[i as int]));
            lemma_fnv_fold_concat(
                FNV_OFFSET_BASIS,
                head + plates_bytes(plates@.take(i as int)),
                plate_bytes(plates@[i as int]),
            );
        }
        h = absorb_plate(h, &plates[i]);
        i = i + 1;
    }
    proof {
        assert(plates@.take(i as int) =~= plates@);
    }
    let ghost mid = head + plates_bytes(plates@);
    let h3 = fnv_update_words16(h, owners);
    proof {
        lemma_fnv_fold_concat(FNV_OFFSET_BASIS, mid, le_words16(owners@));
    }
    let ghost mid2 = mid + le_words16(owners@);
    h = h3;
    let mut j: usize = 0;
    while j < boundaries.len()
        invariant
            j <= boundaries@.len(),
            h == fnv_fold(FNV_OFFSET_BASIS, mid2 + boundaries_bytes(boundaries@.take(j as int))),
        decreases boundaries@.len() - j,
    {
        proof {
            assert(boundaries@.take(j + 1).drop_last() =~= boundaries@.take(j as int));
            assert(mid2 + boundaries_bytes(boundaries@.take(j + 1)) =~= mid2 + boundaries_bytes(
                boundaries@.take(j as int),
            ) + boundary_bytes(boundaries@[j as int]));
            lemma_fnv_fold_concat(
                FNV_OFFSET_BASIS,
                mid2 + boundaries_bytes(boundaries@.take(j as int)),
                boundary_bytes(boundaries@[j as int]),
            );
        }
        h = absorb_boundary(h, &boundaries[j]);
        j = j + 1;
    }
    proof {
        assert(boundaries@.take(j as int) =~= boundaries@);
        assert(plates@.take(0) =~= Seq::<PlateDigestRecord>::empty());
    }
    h
}

} // verus!
