//! Digests of the material-ancestry stages: the historical lithosphere, its
//! epoch lineage, the forward plate evolution and the identity inherited by
//! the fine topology. Each is FNV-1a over a byte stream of tags, seeds, the
//! per-sample identity rasters and the fragment and event records.

use vstd::prelude::*;
use vstd::string::StringSliceAdditionalSpecFns;
use crate::digests::tag_bytes;
use crate::fnv::{
    fnv_fold, fnv_update, fnv_update_u16, fnv_update_u32, fnv_update_u64, fnv_update_words16, fnv_update_words32,
    fnv_update_words64, le_bytes, le_words16, le_words32, le_words64, lemma_fnv_fold_concat, FNV_OFFSET_BASIS,
};

verus! {

/// A running FNV-1a digest with the bytes it has absorbed so far.
pub struct DigestState {
    pub hash: u64,
    pub absorbed: Ghost<Seq<u8>>,
}

impl DigestState {
    /// The hash is FNV-1a over the absorbed bytes.
    pub open spec fn wf(&self) -> bool {
        self.hash == fnv_fold(FNV_OFFSET_BASIS, self.absorbed@)
    }

    /// An empty digest.
    pub fn new() -> (digest: Self)
        ensures
            digest.wf(),
            digest.absorbed@ == Seq::<u8>::empty(),
    {
        DigestState { hash: FNV_OFFSET_BASIS, absorbed: Ghost(Seq::empty()) }
    }

    /// Absorbs raw bytes.
    pub fn bytes(&mut self, bytes: &[u8])
        requires
            old(self).wf(),
        ensures
            final(self).wf(),
            final(self).absorbed@ == old(self).absorbed@ + bytes@,
    {
        proof {
            lemma_fnv_fold_concat(FNV_OFFSET_BASIS, self.absorbed@, bytes@);
        }
        self.hash = fnv_update(self.hash, bytes);
        self.absorbed = Ghost(self.absorbed@ + bytes@);
    }

    /// Absorbs the little-endian bytes of a `u16`.
    pub fn u16(&mut self, value: u16)
        requires
            old(self).wf(),
        ensures
            final(self).wf(),
            final(self).absorbed@ == old(self).absorbed@ + le_bytes(value as nat, 2),
    {
        proof {
            lemma_fnv_fold_concat(FNV_OFFSET_BASIS, self.absorbed@, le_bytes(value as nat, 2));
        }
        self.hash = fnv_update_u16(self.hash, value);
        self.absorbed = Ghost(self.absorbed@ + le_bytes(value as nat, 2));
    }

    /// Absorbs the little-endian bytes of a `u32`.
    pub fn u32(&mut self, value: u32)
        requires
            old(self).wf(),
        ensures
            final(self).wf(),
            final(self).absorbed@ == old(self).absorbed@ + le_bytes(value as nat, 4),
    {
        proof {
            lemma_fnv_fold_concat(FNV_OFFSET_BASIS, self.absorbed@, le_bytes(value as nat, 4));
        }
        self.hash = fnv_update_u32(self.hash, value);
        self.absorbed = Ghost(self.absorbed@ + le_bytes(value as nat, 4));
    }

    /// Absorbs the little-endian bytes of a `u64`.
    pub fn u64(&mut self, value: u64)
        requires
            old(self).wf(),
        ensures
            final(self).wf(),
            final(self).absorbed@ == old(self).absorbed@ + le_bytes(value as nat, 8),
    {
        proof {
            lemma_fnv_fold_concat(FNV_OFFSET_BASIS, self.absorbed@, le_bytes(value as nat, 8));
        }
        self.hash = fnv_update_u64(self.hash, value);
        self.absorbed = Ghost(self.absorbed@ + le_bytes(value as nat, 8));
    }

    /// Absorbs every `u16` word in order.
    pub fn words16(&mut self, values: &Vec<u16>)
        requires
            old(self).wf(),
        ensures
            final(self).wf(),
            final(self).absorbed@ == old(self).absorbed@ + le_words16(values@),
    {
        proof {
            lemma_fnv_fold_concat(FNV_OFFSET_BASIS, self.absorbed@, le_words16(values@));
        }
        self.hash = fnv_update_words16(self.hash, values);
        self.absorbed = Ghost(self.absorbed@ + le_words16(values@));
    }

    /// Absorbs every `u32` word in order.
    pub fn words32(&mut self, values: &Vec<u32>)
        requires
            old(self).wf(),
        ensures
            final(self).wf(),
            final(self).absorbed@ == old(self).absorbed@ + le_words32(values@),
    {
        proof {
            lemma_fnv_fold_concat(FNV_OFFSET_BASIS, self.absorbed@, le_words32(values@));
        }
        self.hash = fnv_update_words32(self.hash, values);
        self.absorbed = Ghost(self.absorbed@ + le_words32(values@));
    }

    /// Absorbs every `u64` word in order.
    pub fn words64(&mut self, values: &Vec<u64>)
        requires
            old(self).wf(),
        ensures
            final(self).wf(),
            final(self).absorbed@ == old(self).absorbed@ + le_words64(values@),
    {
        proof {
            lemma_fnv_fold_concat(FNV_OFFSET_BASIS, self.absorbed@, le_words64(values@));
        }
        self.hash = fnv_update_words64(self.hash, values);
        self.absorbed = Ghost(self.absorbed@ + le_words64(values@));
    }
}

/// Concatenation of the encodings of `records`, in order.
pub open spec fn flatten_records<T>(records: Seq<T>, encode: spec_fn(T) -> Seq<u8>) -> Seq<u8>
    decreases records.len(),
{
    if records.len() == 0 {
        Seq::empty()
    } else {
        flatten_records(records.drop_last(), encode) + encode(records.last())
    }
}

/// Per-sample identity rasters of the material ancestry.
pub struct IdentityRasters {
    pub origin_plate_ids: Vec<u16>,
    pub fragment_ids: Vec<u16>,
    pub current_plate_ids: Vec<u16>,
    pub crust_kind: Vec<u8>,
    /// Bit patterns of the `f32` crust birth ages.
    pub crust_birth_age_bits: Vec<u32>,
}

/// Bytes of the identity rasters: the three id rasters as `u16` words, the
/// crust kinds as raw bytes, then the birth-age bit patterns.
pub open spec fn rasters_bytes(rasters: IdentityRasters) -> Seq<u8> {
    le_words16(rasters.origin_plate_ids@) + le_words16(rasters.fragment_ids@) + le_words16(
        rasters.current_plate_ids@,
    ) + rasters.crust_kind@ + le_words32(rasters.crust_birth_age_bits@)
}

/// What the lineage digests read of a crust fragment.
#[derive(Clone, Copy, Debug, PartialEq, Eq)]
pub struct FragmentDigestRecord {
    pub id: u16,
    pub parent_fragment_id: Option<u16>,
    pub origin_plate_id: u16,
    pub current_plate_id: u16,
    pub seed_sample: u32,
    pub sample_count: u32,
    pub area_bits: u64,
}

/// What the lineage digests read of a historical event.
#[derive(Clone, Copy, Debug, PartialEq, Eq)]
pub struct EventDigestRecord {
    pub id: u32,
    pub kind_code: u8,
    pub epoch: u8,
    pub age_bits: u32,
    pub plate_a: u16,
    pub plate_b: u16,
    pub fragment_a: u16,
    pub fragment_b: u16,
    pub geometry_sample_a: u32,
    pub geometry_sample_b: u32,
}

/// Fragment bytes of the historical lithosphere digest.
pub open spec fn history_fragment_bytes(f: FragmentDigestRecord) -> Seq<u8> {
    le_bytes(f.id as nat, 2) + le_bytes(f.origin_plate_id as nat, 2) + le_bytes(f.current_plate_id as nat, 2)
        + le_bytes(f.seed_sample as nat, 4)
}

/// Event header: id, kind and epoch, age.
pub open spec fn event_head_bytes(e: EventDigestRecord) -> Seq<u8> {
    le_bytes(e.id as nat, 4) + seq![e.kind_code, e.epoch] + le_bytes(e.age_bits as nat, 4)
}

/// Event bytes of the historical lithosphere digest.
pub open spec fn history_event_bytes(e: EventDigestRecord) -> Seq<u8> {
    event_head_bytes(e) + le_bytes(e.plate_a as nat, 2) + le_bytes(e.plate_b as nat, 2)
}

/// Fragment bytes of the epoch lineage digest; a missing parent reads as `u16::MAX`.
pub open spec fn lineage_fragment_bytes(f: FragmentDigestRecord) -> Seq<u8> {
    le_bytes(f.id as nat, 2) + le_bytes(
        (match f.parent_fragment_id {
            Some(p) => p,
            None => 0xffffu16,
        }) as nat,
        2,
    ) + le_bytes(f.origin_plate_id as nat, 2) + le_bytes(f.current_plate_id as nat, 2) + le_bytes(
        f.seed_sample as nat,
        4,
    ) + le_bytes(f.sample_count as nat, 4) + le_bytes(f.area_bits as nat, 8)
}

/// Event bytes of the epoch lineage digest.
pub open spec fn lineage_event_bytes(e: EventDigestRecord) -> Seq<u8> {
    history_event_bytes(e) + le_bytes(e.fragment_a as nat, 2) + le_bytes(e.fragment_b as nat, 2) + le_bytes(
        e.geometry_sample_a as nat,
        4,
    ) + le_bytes(e.geometry_sample_b as nat, 4)
}

/// Event bytes of the forward evolution digest.
pub open spec fn forward_event_bytes(e: EventDigestRecord) -> Seq<u8> {
    event_head_bytes(e) + le_bytes(e.fragment_a as nat, 2) + le_bytes(e.fragment_b as nat, 2) + le_bytes(
        e.geometry_sample_a as nat,
        4,
    ) + le_bytes(e.geometry_sample_b as nat, 4)
}

fn absorb_rasters(digest: &mut DigestState, rasters: &IdentityRasters)
    requires
        old(digest).wf(),
    ensures
        final(digest).wf(),
        final(digest).absorbed@ == old(digest).absorbed@ + rasters_bytes(*rasters),
{
    let ghost start = digest.absorbed@;
    digest.words16(&rasters.origin_plate_ids);
    digest.words16(&rasters.fragment_ids);
    digest.words16(&rasters.current_plate_ids);
    digest.bytes(rasters.crust_kind.as_slice());
    digest.words32(&rasters.crust_birth_age_bits);
    proof {
        assert(digest.absorbed@ =~= start + rasters_bytes(*rasters));
    }
}

fn absorb_event_head(digest: &mut DigestState, e: &EventDigestRecord)
    requires
        old(digest).wf(),
    ensures
        final(digest).wf(),
        final(digest).absorbed@ == old(digest).absorbed@ + event_head_bytes(*e),
{
    let ghost start = digest.absorbed@;
    let pair: [u8; 2] = [e.kind_code, e.epoch];
    digest.u32(e.id);
    digest.bytes(pair.as_slice());
    digest.u32(e.age_bits);
    proof {
        assert(pair@ =~= seq![e.kind_code, e.epoch]);
        assert(digest.absorbed@ =~= start + event_head_bytes(*e));
    }
}

/// Stage id of the historical lithosphere.
pub const HISTORICAL_LITHOSPHERE_STAGE_ID: &'static str = "geology:historical-lithosphere";

/// Byte stream of the historical lithosphere digest.
pub open spec fn history_digest_bytes(
    derived_seed: u64,
    rasters: IdentityRasters,
    fragments: Seq<FragmentDigestRecord>,
    events: Seq<EventDigestRecord>,
) -> Seq<u8> {
    HISTORICAL_LITHOSPHERE_STAGE_ID.spec_bytes() + le_bytes(derived_seed as nat, 8) + rasters_bytes(rasters)
        + flatten_records(fragments, |f: FragmentDigestRecord| history_fragment_bytes(f)) + flatten_records(
        events,
        |e: EventDigestRecord| history_event_bytes(e),
    )
}

/// Digest of the historical lithosphere: its stage seed, identity rasters,
/// fragments and events.
pub fn history_hash(
    derived_seed: u64,
    rasters: &IdentityRasters,
    fragments: &Vec<FragmentDigestRecord>,
    events: &Vec<EventDigestRecord>,
) -> (digest: u64)
    ensures
        digest == fnv_fold(FNV_OFFSET_BASIS, history_digest_bytes(derived_seed, *rasters, fragments@, events@)),
{
    let mut d = DigestState::new();
    d.bytes(HISTORICAL_LITHOSPHERE_STAGE_ID.as_bytes());
    d.u64(derived_seed);
    absorb_rasters(&mut d, rasters);
    let ghost head = d.absorbed@;
    let ghost enc_f = |f: FragmentDigestRecord| history_fragment_bytes(f);
    let mut i: usize = 0;
    while i < fragments.len()
        invariant
            d.wf(),
            i <= fragments@.len(),
            d.absorbed@ == head + flatten_records(fragments@.take(i as int), enc_f),
            enc_f == (|f: FragmentDigestRecord| history_fragment_bytes(f)),
        decreases fragments@.len() - i,
    {
        let f = fragments[i];
        let ghost before = d.absorbed@;
        d.u16(f.id);
        d.u16(f.origin_plate_id);
        d.u16(f.current_plate_id);
        d.u32(f.seed_sample);
        proof {
            assert(fragments@.take(i + 1).drop_last() =~= fragments@.take(i as int));
            assert(d.absorbed@ =~= before + history_fragment_bytes(f));
            assert(d.absorbed@ =~= head + flatten_records(fragments@.take(i + 1), enc_f));
        }
        i = i + 1;
    }
    proof {
        assert(fragments@.take(i as int) =~= fragments@);
    }
    let ghost mid = d.absorbed@;
    let ghost enc_e = |e: EventDigestRecord| history_event_bytes(e);
    let mut j: usize = 0;
    while j < events.len()
        invariant
            d.wf(),
            j <= events@.len(),
            d.absorbed@ == mid + flatten_records(events@.take(j as int), enc_e),
            enc_e == (|e: EventDigestRecord| history_event_bytes(e)),
        decreases events@.len() - j,
    {
        let e = events[j];
        let ghost before = d.absorbed@;
        absorb_event_head(&mut d, &e);
        d.u16(e.plate_a);
        d.u16(e.plate_b);
        proof {
            assert(events@.take(j + 1).drop_last() =~= events@.take(j as int));
            assert(d.absorbed@ =~= before + history_event_bytes(e));
            assert(d.absorbed@ =~= mid + flatten_records(events@.take(j + 1), enc_e));
        }
        j = j + 1;
    }
    proof {
        assert(events@.take(j as int) =~= events@);
        assert(d.absorbed@ =~= history_digest_bytes(derived_seed, *rasters, fragments@, events@));
    }
    d.hash
}

fn absorb_lineage_fragment(digest: &mut DigestState, f: &FragmentDigestRecord)
    requires
        old(digest).wf(),
    ensures
        final(digest).wf(),
        final(digest).absorbed@ == old(digest).absorbed@ + lineage_fragment_bytes(*f),
{
    let ghost start = digest.absorbed@;
    let parent = match f.parent_fragment_id {
        Some(p) => p,
        None => 0xffffu16,
    };
    digest.u16(f.id);
    digest.u16(parent);
    digest.u16(f.origin_plate_id);
    digest.u16(f.current_plate_id);
    digest.u32(f.seed_sample);
    digest.u32(f.sample_count);
    digest.u64(f.area_bits);
    proof {
        assert(digest.absorbed@ =~= start + lineage_fragment_bytes(*f));
    }
}

fn absorb_event_tail(digest: &mut DigestState, e: &EventDigestRecord)
    requires
        old(digest).wf(),
    ensures
        final(digest).wf(),
        final(digest).absorbed@ == old(digest).absorbed@ + le_bytes(e.fragment_a as nat, 2) + le_bytes(
            e.fragment_b as nat,
            2,
        ) + le_bytes(e.geometry_sample_a as nat, 4) + le_bytes(e.geometry_sample_b as nat, 4),
{
    digest.u16(e.fragment_a);
    digest.u16(e.fragment_b);
    digest.u32(e.geometry_sample_a);
    digest.u32(e.geometry_sample_b);
}

/// Digest tag of the bounded epochs.
pub const HISTORICAL_EPOCHS_TAG: &'static str = "geology:historical-lithosphere:epochs:v1";

/// Byte stream of the epoch lineage digest.
pub open spec fn lineage_digest_bytes(
    stage_seed: u64,
    derived_seed: u64,
    rasters: IdentityRasters,
    fragments: Seq<FragmentDigestRecord>,
    events: Seq<EventDigestRecord>,
) -> Seq<u8> {
    tag_bytes(HISTORICAL_EPOCHS_TAG) + le_bytes(stage_seed as nat, 8) + le_bytes(derived_seed as nat, 8)
        + rasters_bytes(rasters) + flatten_records(fragments, |f: FragmentDigestRecord| lineage_fragment_bytes(f))
        + flatten_records(events, |e: EventDigestRecord| lineage_event_bytes(e))
}

/// Digest of the fragment lineage after the bounded epochs: the epoch stage
/// seed, the historical stage seed, the identity rasters, every fragment with
/// its parent, and every event with its fragments and anchor samples.
pub fn lineage_hash(
    stage_seed: u64,
    derived_seed: u64,
    rasters: &IdentityRasters,
    fragments: &Vec<FragmentDigestRecord>,
    events: &Vec<EventDigestRecord>,
) -> (digest: u64)
    ensures
        digest == fnv_fold(
            FNV_OFFSET_BASIS,
            lineage_digest_bytes(stage_seed, derived_seed, *rasters, fragments@, events@),
        ),
{
    let zero: [u8; 1] = [0u8];
    let mut d = DigestState::new();
    d.bytes(HISTORICAL_EPOCHS_TAG.as_bytes());
    d.bytes(zero.as_slice());
    proof {
        assert(zero@ =~= seq![0u8]);
    }
    d.u64(stage_seed);
    d.u64(derived_seed);
    absorb_rasters(&mut d, rasters);
    let ghost head = d.absorbed@;
    let ghost enc_f = |f: FragmentDigestRecord| lineage_fragment_bytes(f);
    let mut i: usize = 0;
    while i < fragments.len()
        invariant
            d.wf(),
            i <= fragments@.len(),
            d.absorbed@ == head + flatten_records(fragments@.take(i as int), enc_f),
            enc_f == (|f: FragmentDigestRecord| lineage_fragment_bytes(f)),
        decreases fragments@.len() - i,
    {
        let f = fragments[i];
        absorb_lineage_fragment(&mut d, &f);
        proof {
            assert(fragments@.take(i + 1).drop_last() =~= fragments@.take(i as int));
            assert(d.absorbed@ =~= head + flatten_records(fragments@.take(i + 1), enc_f));
        }
        i = i + 1;
    }
    proof {
        assert(fragments@.take(i as int) =~= fragments@);
    }
    let ghost mid = d.absorbed@;
    let ghost enc_e = |e: EventDigestRecord| lineage_event_bytes(e);
    let mut j: usize = 0;
    while j < events.len()
        invariant
            d.wf(),
            j <= events@.len(),
            d.absorbed@ == mid + flatten_records(events@.take(j as int), enc_e),
            enc_e == (|e: EventDigestRecord| lineage_event_bytes(e)),
        decreases events@.len() - j,
    {
        let e = events[j];
        let ghost before = d.absorbed@;
        absorb_event_head(&mut d, &e);
        d.u16(e.plate_a);
        d.u16(e.plate_b);
        absorb_event_tail(&mut d, &e);
        proof {
            assert(events@.take(j + 1).drop_last() =~= events@.take(j as int));
            assert(d.absorbed@ =~= before + lineage_event_bytes(e));
            assert(d.absorbed@ =~= mid + flatten_records(events@.take(j + 1), enc_e));
        }
        j = j + 1;
    }
    proof {
        assert(events@.take(j as int) =~= events@);
        assert(d.absorbed@ =~= lineage_digest_bytes(stage_seed, derived_seed, *rasters, fragments@, events@));
    }
    d.hash
}

/// Namespace of the forward plate evolution, also the head of its digest.
pub const FORWARD_PLATE_NAMESPACE: &'static str = "worldgen:geology:forward-plate-evolution:v1";

/// Per-sample state left by the forward plate evolution, as the digest reads it.
pub struct ForwardDigestFields {
    pub origin_plate_ids: Vec<u16>,
    pub fragment_ids: Vec<u16>,
    pub current_plate_ids: Vec<u16>,
    /// Bit patterns of the `f64` angular velocity components, three per plate.
    pub velocity_component_bits: Vec<u64>,
    /// Bit patterns of the `f32` lithospheric weakness.
    pub weakness_bits: Vec<u32>,
    pub crust_kind: Vec<u8>,
    /// Bit patterns of the `f32` crust birth ages.
    pub crust_birth_age_bits: Vec<u32>,
}

/// Byte stream of the forward evolution digest.
pub open spec fn forward_digest_bytes(
    stage_seed: u64,
    history_hash: u64,
    fields: ForwardDigestFields,
    events: Seq<EventDigestRecord>,
) -> Seq<u8> {
    FORWARD_PLATE_NAMESPACE.spec_bytes() + le_bytes(stage_seed as nat, 8) + le_bytes(history_hash as nat, 8)
        + le_words16(fields.origin_plate_ids@) + le_words16(fields.fragment_ids@) + le_words16(
        fields.current_plate_ids@,
    ) + le_words64(fields.velocity_component_bits@) + le_words32(fields.weakness_bits@) + fields.crust_kind@
        + le_words32(fields.crust_birth_age_bits@) + flatten_records(
        events,
        |e: EventDigestRecord| forward_event_bytes(e),
    )
}

/// Digest of the forward plate evolution: stage seed, historical digest,
/// identity rasters, plate motions, weakness, crust and events.
pub fn forward_history_hash(
    stage_seed: u64,
    history_hash: u64,
    fields: &ForwardDigestFields,
    events: &Vec<EventDigestRecord>,
) -> (digest: u64)
    ensures
        digest == fnv_fold(FNV_OFFSET_BASIS, forward_digest_bytes(stage_seed, history_hash, *fields, events@)),
{
    let mut d = DigestState::new();
    d.bytes(FORWARD_PLATE_NAMESPACE.as_bytes());
    d.u64(stage_seed);
    d.u64(history_hash);
    d.words16(&fields.origin_plate_ids);
    d.words16(&fields.fragment_ids);
    d.words16(&fields.current_plate_ids);
    d.words64(&fields.velocity_component_bits);
    d.words32(&fields.weakness_bits);
    d.bytes(fields.crust_kind.as_slice());
    d.words32(&fields.crust_birth_age_bits);
    let ghost mid = d.absorbed@;
    let ghost enc_e = |e: EventDigestRecord| forward_event_bytes(e);
    let mut j: usize = 0;
    while j < events.len()
        invariant
            d.wf(),
            j <= events@.len(),
            d.absorbed@ == mid + flatten_records(events@.take(j as int), enc_e),
            enc_e == (|e: EventDigestRecord| forward_event_bytes(e)),
        decreases events@.len() - j,
    {
        let e = events[j];
        let ghost before = d.absorbed@;
        absorb_event_head(&mut d, &e);
        absorb_event_tail(&mut d, &e);
        proof {
            assert(events@.take(j + 1).drop_last() =~= events@.take(j as int));
            assert(d.absorbed@ =~= before + forward_event_bytes(e));
            assert(d.absorbed@ =~= mid + flatten_records(events@.take(j + 1), enc_e));
        }
        j = j + 1;
    }
    proof {
        assert(events@.take(j as int) =~= events@);
        assert(d.absorbed@ =~= forward_digest_bytes(stage_seed, history_hash, *fields, events@));
    }
    d.hash
}

/// Stage id of the identity inherited by the fine topology.
pub const HISTORICAL_INHERITANCE_STAGE_ID: &'static str = "geology:historical-inheritance";

/// Digest of the identity rasters refined onto the fine topology, after the
/// historical digest and the refinement provenance digest.
pub fn identity_hash(history_hash: u64, provenance_hash: u64, rasters: &IdentityRasters) -> (digest: u64)
    ensures
        digest == fnv_fold(
            FNV_OFFSET_BASIS,
            HISTORICAL_INHERITANCE_STAGE_ID.spec_bytes() + le_bytes(history_hash as nat, 8) + le_bytes(
                provenance_hash as nat,
                8,
            ) + rasters_bytes(*rasters),
        ),
{
    let mut d = DigestState::new();
    d.bytes(HISTORICAL_INHERITANCE_STAGE_ID.as_bytes());
    d.u64(history_hash);
    d.u64(provenance_hash);
    absorb_rasters(&mut d, rasters);
    d.hash
}

/// Digest tag of the crust projected from material history.
pub const HISTORICAL_CRUST_TAG: &'static str = "geology:historical-crust-projection:v2";

/// Per-sample crust fields, as the geology digest reads them; the `f32`
/// fields enter as bit patterns, in this order.
pub struct GeologyDigestFields {
    pub crust_kind: Vec<u8>,
    pub crust_province_id: Vec<u16>,
    pub crust_age_bits: Vec<u32>,
    pub oceanic_age_bits: Vec<u32>,
    pub continental_basement_age_bits: Vec<u32>,
    pub last_tectonic_reworking_age_bits: Vec<u32>,
    pub continental_stability_index_bits: Vec<u32>,
    pub crust_thickness_bits: Vec<u32>,
    pub crust_density_bits: Vec<u32>,
    pub buoyancy_index_bits: Vec<u32>,
    pub orogenic_history_bits: Vec<u32>,
    pub rift_history_bits: Vec<u32>,
    pub ridge_history_bits: Vec<u32>,
    pub subduction_history_bits: Vec<u32>,
    pub trench_history_bits: Vec<u32>,
    pub volcanic_arc_history_bits: Vec<u32>,
    pub transform_history_bits: Vec<u32>,
    pub subsidence_history_bits: Vec<u32>,
    pub basin_potential_bits: Vec<u32>,
    pub crustal_strain_bits: Vec<u32>,
}

/// Byte stream of the geology digest.
pub open spec fn geology_digest_bytes(stage_seed: u64, history_hash: u64, fields: GeologyDigestFields) -> Seq<u8> {
    tag_bytes(HISTORICAL_CRUST_TAG) + le_bytes(stage_seed as nat, 8) + le_bytes(history_hash as nat, 8)
        + fields.crust_kind@ + le_words16(fields.crust_province_id@)
        + le_words32(fields.crust_age_bits@)
        + le_words32(fields.oceanic_age_bits@)
        + le_words32(fields.continental_basement_age_bits@)
        + le_words32(fields.last_tectonic_reworking_age_bits@)
        + le_words32(fields.continental_stability_index_bits@)
        + le_words32(fields.crust_thickness_bits@)
        + le_words32(fields.crust_density_bits@)
        + le_words32(fields.buoyancy_index_bits@)
        + le_words32(fields.orogenic_history_bits@)
        + le_words32(fields.rift_history_bits@)
        + le_words32(fields.ridge_history_bits@)
        + le_words32(fields.subduction_history_bits@)
        + le_words32(fields.trench_history_bits@)
        + le_words32(fields.volcanic_arc_history_bits@)
        + le_words32(fields.transform_history_bits@)
        + le_words32(fields.subsidence_history_bits@)
        + le_words32(fields.basin_potential_bits@)
        + le_words32(fields.crustal_strain_bits@)
}

/// Digest of the crust projected from material history.
pub fn geology_hash(stage_seed: u64, fields: &GeologyDigestFields, history_hash: u64) -> (digest: u64)
    ensures
        digest == fnv_fold(FNV_OFFSET_BASIS, geology_digest_bytes(stage_seed, history_hash, *fields)),
{
    let zero: [u8; 1] = [0u8];
    let mut d = DigestState::new();
    d.bytes(HISTORICAL_CRUST_TAG.as_bytes());
    d.bytes(zero.as_slice());
    proof {
        assert(zero@ =~= seq![0u8]);
    }
    d.u64(stage_seed);
    d.u64(history_hash);
    d.bytes(fields.crust_kind.as_slice());
    d.words16(&fields.crust_province_id);
    d.words32(&fields.crust_age_bits);
    d.words32(&fields.oceanic_age_bits);
    d.words32(&fields.continental_basement_age_bits);
    d.words32(&fields.last_tectonic_reworking_age_bits);
    d.words32(&fields.continental_stability_index_bits);
    d.words32(&fields.crust_thickness_bits);
    d.words32(&fields.crust_density_bits);
    d.words32(&fields.buoyancy_index_bits);
    d.words32(&fields.orogenic_history_bits);
    d.words32(&fields.rift_history_bits);
    d.words32(&fields.ridge_history_bits);
    d.words32(&fields.subduction_history_bits);
    d.words32(&fields.trench_history_bits);
    d.words32(&fields.volcanic_arc_history_bits);
    d.words32(&fields.transform_history_bits);
    d.words32(&fields.subsidence_history_bits);
    d.words32(&fields.basin_potential_bits);
    d.words32(&fields.crustal_strain_bits);
    proof {
        assert(d.absorbed@ =~= geology_digest_bytes(stage_seed, history_hash, *fields));
    }
    d.hash
}

} // verus!
