//! Inherited structures of the pre-orogenic lithosphere and the structural
//! zones the lithosphere stage projects from them.

use vstd::prelude::*;

verus! {

/// Kind of structure the pre-orogenic lithosphere inherited at a sample.
#[derive(Clone, Copy, Debug, PartialEq, Eq)]
pub enum InheritedStructureKind {
    Absent,
    PaleoSuture,
    InheritedRift,
    ShearZone,
    ContinentalMargin,
    CratonBoundary,
}

/// Kind of structural zone carried by the lithosphere at a sample.
#[derive(Clone, Copy, Debug, PartialEq, Eq)]
pub enum StructuralZoneKind {
    Absent,
    Suture,
    Rift,
    Transform,
    ContinentalMargin,
}

/// The inherited structures that act as explicit mechanical weaknesses:
/// paleo-sutures, inherited rifts, shear zones and continental margins.
pub open spec fn is_mechanical_structure(kind: InheritedStructureKind) -> bool {
    match kind {
        InheritedStructureKind::PaleoSuture | InheritedStructureKind::InheritedRift
        | InheritedStructureKind::ShearZone | InheritedStructureKind::ContinentalMargin => true,
        _ => false,
    }
}

/// Whether an inherited structure is an explicit mechanical weakness.
pub fn explicit_mechanical_structure(kind: InheritedStructureKind) -> (explicit: bool)
    ensures
        explicit == is_mechanical_structure(kind),
{
    match kind {
        InheritedStructureKind::PaleoSuture | InheritedStructureKind::InheritedRift
        | InheritedStructureKind::ShearZone | InheritedStructureKind::ContinentalMargin => true,
        _ => false,
    }
}

/// Zone projected from an inherited structure: a paleo-suture becomes a
/// suture, an inherited rift a rift, a shear zone a transform zone, a
/// continental margin stays a margin; anything else carries no zone.
pub open spec fn zone_of(kind: InheritedStructureKind) -> StructuralZoneKind {
    match kind {
        InheritedStructureKind::PaleoSuture => StructuralZoneKind::Suture,
        InheritedStructureKind::InheritedRift => StructuralZoneKind::Rift,
        InheritedStructureKind::ShearZone => StructuralZoneKind::Transform,
        InheritedStructureKind::ContinentalMargin => StructuralZoneKind::ContinentalMargin,
        _ => StructuralZoneKind::Absent,
    }
}

/// A structure projects to a zone exactly when it is an explicit mechanical
/// weakness.
pub proof fn lemma_zone_iff_mechanical(kind: InheritedStructureKind)
    ensures
        zone_of(kind) != StructuralZoneKind::Absent <==> is_mechanical_structure(kind),
{
}

/// Each explicit weakness names its zone: a paleo-suture projects to a
/// suture, an inherited rift to a rift, a shear zone to a transform zone and
/// a continental margin to a margin; distinct weaknesses give distinct zones.
pub proof fn lemma_zone_names(kind: InheritedStructureKind, other: InheritedStructureKind)
    ensures
        kind == InheritedStructureKind::PaleoSuture ==> zone_of(kind) == StructuralZoneKind::Suture,
        kind == InheritedStructureKind::InheritedRift ==> zone_of(kind) == StructuralZoneKind::Rift,
        kind == InheritedStructureKind::ShearZone ==> zone_of(kind) == StructuralZoneKind::Transform,
        kind == InheritedStructureKind::ContinentalMargin ==> zone_of(kind) == StructuralZoneKind::ContinentalMargin,
        is_mechanical_structure(kind) && is_mechanical_structure(other) && kind != other ==> zone_of(kind) != zone_of(
            other,
        ),
{
}

/// Projects every sample's inherited structure onto its structural zone.
pub fn project_structural_zones(structures: &Vec<InheritedStructureKind>) -> (zones: Vec<StructuralZoneKind>)
    ensures
        zones@.len() == structures@.len(),
        forall|i: int| 0 <= i < structures@.len() ==> #[trigger] zones@[i] == zone_of(structures@[i]),
{
    let mut zones: Vec<StructuralZoneKind> = Vec::new();
    let mut i: usize = 0;
    while i < structures.len()
        invariant
            i <= structures@.len(),
            zones@.len() == i,
            forall|j: int| 0 <= j < i ==> #[trigger] zones@[j] == zone_of(structures@[j]),
        decreases structures@.len() - i,
    {
        let zone = match structures[i] {
            InheritedStructureKind::PaleoSuture => StructuralZoneKind::Suture,
            InheritedStructureKind::InheritedRift => StructuralZoneKind::Rift,
            InheritedStructureKind::ShearZone => StructuralZoneKind::Transform,
            InheritedStructureKind::ContinentalMargin => StructuralZoneKind::ContinentalMargin,
            _ => StructuralZoneKind::Absent,
        };
        zones.push(zone);
        i = i + 1;
    }
    zones
}

/// Number of the first `m` zones that are of kind `kind`.
pub open spec fn zone_count(zones: Seq<StructuralZoneKind>, kind: StructuralZoneKind, m: int) -> nat
    decreases m,
{
    if m <= 0 {
        0
    } else {
        zone_count(zones, kind, m - 1) + if zones[m - 1] == kind {
            1nat
        } else {
            0nat
        }
    }
}

proof fn lemma_zone_count_bound(zones: Seq<StructuralZoneKind>, kind: StructuralZoneKind, m: int)
    requires
        0 <= m,
    ensures
        zone_count(zones, kind, m) <= m,
    decreases m,
{
    if m > 0 {
        lemma_zone_count_bound(zones, kind, m - 1);
    }
}

/// Sample counts of the four structural zone kinds.
#[derive(Clone, Copy, Debug, PartialEq, Eq)]
pub struct StructuralZoneCounts {
    pub suture: u32,
    pub rift: u32,
    pub transform: u32,
    pub continental_margin: u32,
}

/// Counts the samples of each structural zone kind.
pub fn count_structural_zones(zones: &Vec<StructuralZoneKind>) -> (counts: StructuralZoneCounts)
    requires
        zones@.len() <= u32::MAX,
    ensures
        counts.suture == zone_count(zones@, StructuralZoneKind::Suture, zones@.len() as int),
        counts.rift == zone_count(zones@, StructuralZoneKind::Rift, zones@.len() as int),
        counts.transform == zone_count(zones@, StructuralZoneKind::Transform, zones@.len() as int),
        counts.continental_margin == zone_count(
            zones@,
            StructuralZoneKind::ContinentalMargin,
            zones@.len() as int,
        ),
{
    let mut counts = StructuralZoneCounts { suture: 0, rift: 0, transform: 0, continental_margin: 0 };
    let mut i: usize = 0;
    while i < zones.len()
        invariant
            i <= zones@.len(),
            zones@.len() <= u32::MAX,
            counts.suture == zone_count(zones@, StructuralZoneKind::Suture, i as int),
            counts.rift == zone_count(zones@, StructuralZoneKind::Rift, i as int),
            counts.transform == zone_count(zones@, StructuralZoneKind::Transform, i as int),
            counts.continental_margin == zone_count(zones@, StructuralZoneKind::ContinentalMargin, i as int),
        decreases zones@.len() - i,
    {
        proof {
            lemma_zone_count_bound(zones@, StructuralZoneKind::Suture, i as int);
            lemma_zone_count_bound(zones@, StructuralZoneKind::Rift, i as int);
            lemma_zone_count_bound(zones@, StructuralZoneKind::Transform, i as int);
            lemma_zone_count_bound(zones@, StructuralZoneKind::ContinentalMargin, i as int);
        }
        match zones[i] {
            StructuralZoneKind::Suture => counts.suture = counts.suture + 1,
            StructuralZoneKind::Rift => counts.rift = counts.rift + 1,
            StructuralZoneKind::Transform => counts.transform = counts.transform + 1,
            StructuralZoneKind::ContinentalMargin => counts.continental_margin = counts.continental_margin + 1,
            StructuralZoneKind::Absent => {},
        }
        i = i + 1;
    }
    counts
}

} // verus!
