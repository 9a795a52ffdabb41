//! Crust and plate-boundary vocabulary with its numeric codes, the
//! classification of boundaries into geological regimes, and the local
//! stabilization of boundary kinds along a shared plate pair.

use vstd::prelude::*;

verus! {

/// Material class of the crust at a sample.
#[derive(Clone, Copy, Debug, PartialEq, Eq)]
pub enum CrustKind {
    Oceanic,
    Transitional,
    Continental,
}

impl CrustKind {
    /// Numeric code of the class.
    pub open spec fn code_spec(self) -> u8 {
        match self {
            CrustKind::Oceanic => 1,
            CrustKind::Transitional => 2,
            CrustKind::Continental => 3,
        }
    }

    /// Numeric code: oceanic 1, transitional 2, continental 3.
    pub fn code(&self) -> (code: u8)
        ensures
            code == self.code_spec(),
    {
        match self {
            CrustKind::Oceanic => 1,
            CrustKind::Transitional => 2,
            CrustKind::Continental => 3,
        }
    }
}

/// Class of a stored crust code; unknown codes read as oceanic.
pub open spec fn crust_kind_spec(value: u8) -> CrustKind {
    if value == 3 {
        CrustKind::Continental
    } else if value == 2 {
        CrustKind::Transitional
    } else {
        CrustKind::Oceanic
    }
}

/// Decodes a stored crust code; unknown codes read as oceanic.
pub fn crust_kind(value: u8) -> (kind: CrustKind)
    ensures
        kind == crust_kind_spec(value),
{
    if value == 3 {
        CrustKind::Continental
    } else if value == 2 {
        CrustKind::Transitional
    } else {
        CrustKind::Oceanic
    }
}

/// Decoding a code gives back the class it encodes.
pub proof fn lemma_crust_code_roundtrip(kind: CrustKind)
    ensures
        crust_kind_spec(kind.code_spec()) == kind,
{
}

/// Codes other than the transitional and continental codes read as oceanic
/// crust, and only the continental code reads as continental.
pub proof fn lemma_unknown_codes_are_oceanic(value: u8)
    ensures
        value != 2 && value != 3 ==> crust_kind_spec(value) == CrustKind::Oceanic,
        (crust_kind_spec(value) == CrustKind::Continental) <==> value == 3,
        (crust_kind_spec(value) == CrustKind::Transitional) <==> value == 2,
{
}

/// Relative size class of a plate.
#[derive(Clone, Copy, Debug, PartialEq, Eq)]
pub enum PlateScaleClass {
    Major,
    Intermediate,
    Minor,
}

impl PlateScaleClass {
    /// Numeric code of the class.
    pub open spec fn code_spec(self) -> u8 {
        match self {
            PlateScaleClass::Major => 1,
            PlateScaleClass::Intermediate => 2,
            PlateScaleClass::Minor => 3,
        }
    }

    /// Numeric code: major 1, intermediate 2, minor 3.
    pub fn code(&self) -> (code: u8)
        ensures
            code == self.code_spec(),
    {
        match self {
            PlateScaleClass::Major => 1,
            PlateScaleClass::Intermediate => 2,
            PlateScaleClass::Minor => 3,
        }
    }
}

/// Geological regime of a plate boundary.
#[derive(Clone, Copy, Debug, PartialEq, Eq)]
pub enum GeologicalBoundaryRegime {
    OceanicSubduction,
    OceanContinentSubduction,
    ContinentalCollision,
    OceanicRidge,
    ContinentalRift,
    TransitionalDivergence,
    Transform,
}

impl GeologicalBoundaryRegime {
    /// Numeric code of the regime.
    pub open spec fn code_spec(self) -> u8 {
        match self {
            GeologicalBoundaryRegime::OceanicSubduction => 1,
            GeologicalBoundaryRegime::OceanContinentSubduction => 2,
            GeologicalBoundaryRegime::ContinentalCollision => 3,
            GeologicalBoundaryRegime::OceanicRidge => 4,
            GeologicalBoundaryRegime::ContinentalRift => 5,
            GeologicalBoundaryRegime::TransitionalDivergence => 6,
            GeologicalBoundaryRegime::Transform => 7,
        }
    }

    /// Numeric code, 1 to 7 in declaration order.
    pub fn code(&self) -> (code: u8)
        ensures
            code == self.code_spec(),
    {
        match self {
            GeologicalBoundaryRegime::OceanicSubduction => 1,
            GeologicalBoundaryRegime::OceanContinentSubduction => 2,
            GeologicalBoundaryRegime::ContinentalCollision => 3,
            GeologicalBoundaryRegime::OceanicRidge => 4,
            GeologicalBoundaryRegime::ContinentalRift => 5,
            GeologicalBoundaryRegime::TransitionalDivergence => 6,
            GeologicalBoundaryRegime::Transform => 7,
        }
    }
}

/// Which side of a boundary sinks.
#[derive(Clone, Copy, Debug, PartialEq, Eq)]
pub enum SubductionPolarity {
    Absent,
    PlateA,
    PlateB,
}

impl SubductionPolarity {
    /// Numeric code of the polarity.
    pub open spec fn code_spec(self) -> u8 {
        match self {
            SubductionPolarity::Absent => 0,
            SubductionPolarity::PlateA => 1,
            SubductionPolarity::PlateB => 2,
        }
    }

    /// Numeric code: none 0, plate A 1, plate B 2.
    pub fn code(&self) -> (code: u8)
        ensures
            code == self.code_spec(),
    {
        match self {
            SubductionPolarity::Absent => 0,
            SubductionPolarity::PlateA => 1,
            SubductionPolarity::PlateB => 2,
        }
    }
}

/// Relative motion class of a plate boundary.
#[derive(Clone, Copy, Debug, PartialEq, Eq)]
pub enum PlateBoundaryKind {
    Convergent,
    Divergent,
    Transform,
}

/// Request of the crust and geological-history stage.
#[derive(Clone, Debug, PartialEq, Eq)]
pub struct GeologyRequest {
    pub seed: String,
}

impl GeologyRequest {
    /// A request for `seed`.
    pub fn new(seed: &str) -> (request: Self)
        ensures
            request.seed@ == seed@,
    {
        GeologyRequest { seed: seed.to_owned() }
    }
}

/// Regime and subduction polarity of a boundary between crust of classes
/// `a` and `b`; when both sides are oceanic under convergence the side that is
/// not more buoyant (`a_sinks`) subducts.
pub open spec fn geological_regime_spec(
    kind: PlateBoundaryKind,
    a: CrustKind,
    b: CrustKind,
    a_sinks: bool,
) -> (GeologicalBoundaryRegime, SubductionPolarity) {
    match kind {
        PlateBoundaryKind::Transform => (GeologicalBoundaryRegime::Transform, SubductionPolarity::Absent),
        PlateBoundaryKind::Divergent => if a == CrustKind::Oceanic && b == CrustKind::Oceanic {
            (GeologicalBoundaryRegime::OceanicRidge, SubductionPolarity::Absent)
        } else if a == CrustKind::Continental && b == CrustKind::Continental {
            (GeologicalBoundaryRegime::ContinentalRift, SubductionPolarity::Absent)
        } else {
            (GeologicalBoundaryRegime::TransitionalDivergence, SubductionPolarity::Absent)
        },
        PlateBoundaryKind::Convergent => if a == CrustKind::Oceanic && b == CrustKind::Oceanic {
            (
                GeologicalBoundaryRegime::OceanicSubduction,
                if a_sinks {
                    SubductionPolarity::PlateA
                } else {
                    SubductionPolarity::PlateB
                },
            )
        } else if a == CrustKind::Oceanic {
            (GeologicalBoundaryRegime::OceanContinentSubduction, SubductionPolarity::PlateA)
        } else if b == CrustKind::Oceanic {
            (GeologicalBoundaryRegime::OceanContinentSubduction, SubductionPolarity::PlateB)
        } else {
            (GeologicalBoundaryRegime::ContinentalCollision, SubductionPolarity::Absent)
        },
    }
}

/// Classifies a boundary edge from the crust codes at its two samples;
/// `a_sinks` tells whether sample A is not more buoyant than sample B.
pub fn classify_geological_boundary(
    kinds: &Vec<u8>,
    edge: &BoundaryEdge,
    a_sinks: bool,
) -> (result: (GeologicalBoundaryRegime, SubductionPolarity))
    requires
        edge.sample_a < kinds@.len(),
        edge.sample_b < kinds@.len(),
    ensures
        result == geological_regime_spec(
            edge.kind,
            crust_kind_spec(kinds@[edge.sample_a as int]),
            crust_kind_spec(kinds@[edge.sample_b as int]),
            a_sinks,
        ),
{
    let a = crust_kind(kinds[edge.sample_a as usize]);
    let b = crust_kind(kinds[edge.sample_b as usize]);
    match edge.kind {
        PlateBoundaryKind::Transform => (GeologicalBoundaryRegime::Transform, SubductionPolarity::Absent),
        PlateBoundaryKind::Divergent => {
            match (a, b) {
                (CrustKind::Oceanic, CrustKind::Oceanic) => (
                    GeologicalBoundaryRegime::OceanicRidge,
                    SubductionPolarity::Absent,
                ),
                (CrustKind::Continental, CrustKind::Continental) => (
                    GeologicalBoundaryRegime::ContinentalRift,
                    SubductionPolarity::Absent,
                ),
                _ => (GeologicalBoundaryRegime::TransitionalDivergence, SubductionPolarity::Absent),
            }
        },
        PlateBoundaryKind::Convergent => {
            match (a, b) {
                (CrustKind::Oceanic, CrustKind::Oceanic) => {
                    let polarity = if a_sinks {
                        SubductionPolarity::PlateA
                    } else {
                        SubductionPolarity::PlateB
                    };
                    (GeologicalBoundaryRegime::OceanicSubduction, polarity)
                },
                (CrustKind::Oceanic, _) => (
                    GeologicalBoundaryRegime::OceanContinentSubduction,
                    SubductionPolarity::PlateA,
                ),
                (_, CrustKind::Oceanic) => (
                    GeologicalBoundaryRegime::OceanContinentSubduction,
                    SubductionPolarity::PlateB,
                ),
                _ => (GeologicalBoundaryRegime::ContinentalCollision, SubductionPolarity::Absent),
            }
        },
    }
}

/// Exactly the subduction regimes carry a sinking side.
pub proof fn lemma_polarity_iff_subduction(kind: PlateBoundaryKind, a: CrustKind, b: CrustKind, a_sinks: bool)
    ensures
        ({
            let (regime, polarity) = geological_regime_spec(kind, a, b, a_sinks);
            (polarity != SubductionPolarity::Absent) <==> (regime == GeologicalBoundaryRegime::OceanicSubduction
                || regime == GeologicalBoundaryRegime::OceanContinentSubduction)
        }),
        ({
            let (regime, polarity) = geological_regime_spec(kind, a, b, a_sinks);
            regime == GeologicalBoundaryRegime::OceanContinentSubduction ==> (polarity
                == SubductionPolarity::PlateA <==> a == CrustKind::Oceanic)
        }),
{
}

/// Under convergence, a boundary with exactly one oceanic side is an
/// ocean-continent subduction in which the oceanic side sinks, whatever the
/// relative buoyancy says.
pub proof fn lemma_single_ocean_subducts(a: CrustKind, b: CrustKind, a_sinks: bool)
    requires
        (a == CrustKind::Oceanic) != (b == CrustKind::Oceanic),
    ensures
        geological_regime_spec(PlateBoundaryKind::Convergent, a, b, a_sinks) == (
            GeologicalBoundaryRegime::OceanContinentSubduction,
            if a == CrustKind::Oceanic {
                SubductionPolarity::PlateA
            } else {
                SubductionPolarity::PlateB
            },
        ),
{
}

/// Under convergence, two oceanic sides give an oceanic subduction in which
/// the less buoyant side sinks, and two non-oceanic sides a continental
/// collision without subduction.
pub proof fn lemma_convergent_regimes(a: CrustKind, b: CrustKind, a_sinks: bool)
    ensures
        a == CrustKind::Oceanic && b == CrustKind::Oceanic ==> geological_regime_spec(
            PlateBoundaryKind::Convergent,
            a,
            b,
            a_sinks,
        ) == (
            GeologicalBoundaryRegime::OceanicSubduction,
            if a_sinks {
                SubductionPolarity::PlateA
            } else {
                SubductionPolarity::PlateB
            },
        ),
        a != CrustKind::Oceanic && b != CrustKind::Oceanic ==> geological_regime_spec(
            PlateBoundaryKind::Convergent,
            a,
            b,
            a_sinks,
        ) == (GeologicalBoundaryRegime::ContinentalCollision, SubductionPolarity::Absent),
{
}

/// Divergence between two oceanic sides is a ridge, between two continental
/// sides a rift, and otherwise a transitional divergence; transform motion
/// is a transform regime. None of them subducts.
pub proof fn lemma_non_convergent_regimes(kind: PlateBoundaryKind, a: CrustKind, b: CrustKind, a_sinks: bool)
    requires
        kind != PlateBoundaryKind::Convergent,
    ensures
        geological_regime_spec(kind, a, b, a_sinks).1 == SubductionPolarity::Absent,
        kind == PlateBoundaryKind::Transform ==> geological_regime_spec(kind, a, b, a_sinks).0
            == GeologicalBoundaryRegime::Transform,
        kind == PlateBoundaryKind::Divergent ==> geological_regime_spec(kind, a, b, a_sinks).0 == if a
            == CrustKind::Oceanic && b == CrustKind::Oceanic {
            GeologicalBoundaryRegime::OceanicRidge
        } else if a == CrustKind::Continental && b == CrustKind::Continental {
            GeologicalBoundaryRegime::ContinentalRift
        } else {
            GeologicalBoundaryRegime::TransitionalDivergence
        },
{
}

/// Swapping the two sides of a boundary (and which side is the less
/// buoyant) keeps the regime and swaps the sinking side.
pub proof fn lemma_classification_symmetric(kind: PlateBoundaryKind, a: CrustKind, b: CrustKind, a_sinks: bool)
    ensures
        ({
            let (regime, polarity) = geological_regime_spec(kind, a, b, a_sinks);
            let (swapped_regime, swapped_polarity) = geological_regime_spec(kind, b, a, !a_sinks);
            &&& swapped_regime == regime
            &&& swapped_polarity == match polarity {
                SubductionPolarity::PlateA => SubductionPolarity::PlateB,
                SubductionPolarity::PlateB => SubductionPolarity::PlateA,
                SubductionPolarity::Absent => SubductionPolarity::Absent,
            }
        }),
{
}

/// Classifies every boundary edge; `a_sinks[e]` tells whether sample A of
/// edge `e` is not more buoyant than sample B.
pub fn build_geological_boundaries(
    kinds: &Vec<u8>,
    edges: &Vec<BoundaryEdge>,
    a_sinks: &Vec<bool>,
) -> (classes: Vec<(GeologicalBoundaryRegime, SubductionPolarity)>)
    requires
        a_sinks@.len() == edges@.len(),
        forall|e: int|
            0 <= e < edges@.len() ==> (#[trigger] edges@[e]).sample_a < kinds@.len() && edges@[e].sample_b
                < kinds@.len(),
    ensures
        classes@.len() == edges@.len(),
        forall|e: int|
            0 <= e < edges@.len() ==> #[trigger] classes@[e] == geological_regime_spec(
                edges@[e].kind,
                crust_kind_spec(kinds@[edges@[e].sample_a as int]),
                crust_kind_spec(kinds@[edges@[e].sample_b as int]),
                a_sinks@[e],
            ),
{
    let mut classes: Vec<(GeologicalBoundaryRegime, SubductionPolarity)> = Vec::new();
    let mut e: usize = 0;
    while e < edges.len()
        invariant
            e <= edges@.len(),
            a_sinks@.len() == edges@.len(),
            classes@.len() == e,
            forall|f: int|
                0 <= f < edges@.len() ==> (#[trigger] edges@[f]).sample_a < kinds@.len() && edges@[f].sample_b
                    < kinds@.len(),
            forall|f: int|
                0 <= f < e ==> #[trigger] classes@[f] == geological_regime_spec(
                    edges@[f].kind,
                    crust_kind_spec(kinds@[edges@[f].sample_a as int]),
                    crust_kind_spec(kinds@[edges@[f].sample_b as int]),
                    a_sinks@[f],
                ),
        decreases edges@.len() - e,
    {
        let class = classify_geological_boundary(kinds, &edges[e], a_sinks[e]);
        classes.push(class);
        e = e + 1;
    }
    classes
}

/// Number of boundaries classified under the regime with code `code`.
pub open spec fn regime_count(classes: Seq<(GeologicalBoundaryRegime, SubductionPolarity)>, code: u8) -> nat
    decreases classes.len(),
{
    if classes.len() == 0 {
        0
    } else {
        regime_count(classes.drop_last(), code) + if classes.last().0.code_spec() == code {
            1nat
        } else {
            0nat
        }
    }
}

/// Number of boundaries per regime, indexed by regime code minus one.
pub fn regime_edge_counts(classes: &Vec<(GeologicalBoundaryRegime, SubductionPolarity)>) -> (counts: [u32; 7])
    requires
        classes@.len() <= u32::MAX,
    ensures
        forall|c: int| 0 <= c < 7 ==> #[trigger] counts@[c] == regime_count(classes@, (c + 1) as u8),
{
    let mut counts: [u32; 7] = [0u32; 7];
    let mut i: usize = 0;
    while i < classes.len()
        invariant
            i <= classes@.len() <= u32::MAX,
            forall|c: int| 0 <= c < 7 ==> #[trigger] counts@[c] == regime_count(classes@.take(i as int), (c + 1) as u8),
            forall|c: int| 0 <= c < 7 ==> #[trigger] regime_count(classes@.take(i as int), (c + 1) as u8) <= i,
        decreases classes@.len() - i,
    {
        let code = classes[i].0.code();
        proof {
            assert(classes@.take(i + 1).drop_last() =~= classes@.take(i as int));
            assert(1 <= code <= 7);
            assert(regime_count(classes@.take(i as int), code) <= i) by {
                assert(regime_count(classes@.take(i as int), ((code - 1) + 1) as u8) <= i);
            }
        }
        let slot = (code - 1) as usize;
        counts.set(slot, counts[slot] + 1);
        proof {
            assert forall|c: int| 0 <= c < 7 implies #[trigger] counts@[c] == regime_count(
                classes@.take(i + 1),
                (c + 1) as u8,
            ) by {}
            assert forall|c: int| 0 <= c < 7 implies #[trigger] regime_count(classes@.take(i + 1), (c + 1) as u8)
                <= i + 1 by {
                assert(regime_count(classes@.take(i as int), (c + 1) as u8) <= i);
            }
        }
        i = i + 1;
    }
    proof {
        assert(classes@.take(i as int) =~= classes@);
    }
    counts
}

/// Regime codes of the classified boundaries, in order.
pub fn boundary_regime_codes(classes: &Vec<(GeologicalBoundaryRegime, SubductionPolarity)>) -> (codes: Vec<u8>)
    ensures
        codes@.len() == classes@.len(),
        forall|e: int| 0 <= e < classes@.len() ==> #[trigger] codes@[e] == classes@[e].0.code_spec(),
{
    let mut codes: Vec<u8> = Vec::new();
    let mut e: usize = 0;
    while e < classes.len()
        invariant
            e <= classes@.len(),
            codes@.len() == e,
            forall|f: int| 0 <= f < e ==> #[trigger] codes@[f] == classes@[f].0.code_spec(),
        decreases classes@.len() - e,
    {
        codes.push(classes[e].0.code());
        e = e + 1;
    }
    codes
}

/// Scale class codes of the plates, in plate order.
pub fn plate_scale_class_codes(classes: &Vec<PlateScaleClass>) -> (codes: Vec<u8>)
    ensures
        codes@.len() == classes@.len(),
        forall|p: int| 0 <= p < classes@.len() ==> #[trigger] codes@[p] == classes@[p].code_spec(),
{
    let mut codes: Vec<u8> = Vec::new();
    let mut p: usize = 0;
    while p < classes.len()
        invariant
            p <= classes@.len(),
            codes@.len() == p,
            forall|q: int| 0 <= q < p ==> #[trigger] codes@[q] == classes@[q].code_spec(),
        decreases classes@.len() - p,
    {
        codes.push(classes[p].code());
        p = p + 1;
    }
    codes
}

/// Subduction polarity codes of the classified boundaries, in order.
pub fn subduction_polarity_codes(classes: &Vec<(GeologicalBoundaryRegime, SubductionPolarity)>) -> (codes: Vec<
    u8,
>)
    ensures
        codes@.len() == classes@.len(),
        forall|e: int| 0 <= e < classes@.len() ==> #[trigger] codes@[e] == classes@[e].1.code_spec(),
{
    let mut codes: Vec<u8> = Vec::new();
    let mut e: usize = 0;
    while e < classes.len()
        invariant
            e <= classes@.len(),
            codes@.len() == e,
            forall|f: int| 0 <= f < e ==> #[trigger] codes@[f] == classes@[f].1.code_spec(),
        decreases classes@.len() - e,
    {
        codes.push(classes[e].1.code());
        e = e + 1;
    }
    codes
}

/// Band of the normal share of the relative boundary motion, `|normal| / speed`.
#[derive(Clone, Copy, Debug, PartialEq, Eq)]
pub enum NormalBand {
    /// Below 0.30.
    BelowThirty,
    /// From 0.30 up to 0.35.
    BelowThirtyFive,
    /// From 0.35 up to 0.50.
    BelowHalf,
    /// At least 0.50.
    AtLeastHalf,
    /// Not a number (motion with a non-finite rate): every threshold
    /// comparison on it is false.
    Unordered,
}

/// One boundary edge between two neighboring samples owned by different
/// plates, with what the stabilization pass reads of its relative motion.
#[derive(Clone, Copy, Debug, PartialEq, Eq)]
pub struct BoundaryEdge {
    pub sample_a: u32,
    pub sample_b: u32,
    pub plate_a: u16,
    pub plate_b: u16,
    pub kind: PlateBoundaryKind,
    /// The normal rate is negative (the plates close).
    pub converging: bool,
    pub normal_band: NormalBand,
}

/// The unordered plate pair of an edge, lower id first.
pub open spec fn boundary_pair_spec(edge: BoundaryEdge) -> (u16, u16) {
    if edge.plate_a < edge.plate_b {
        (edge.plate_a, edge.plate_b)
    } else {
        (edge.plate_b, edge.plate_a)
    }
}

/// The unordered plate pair of an edge, lower id first.
pub fn boundary_pair(edge: &BoundaryEdge) -> (pair: (u16, u16))
    ensures
        pair == boundary_pair_spec(*edge),
{
    if edge.plate_a < edge.plate_b {
        (edge.plate_a, edge.plate_b)
    } else {
        (edge.plate_b, edge.plate_a)
    }
}

/// Indices of the edges touching sample `x`, in edge order; an edge is
/// listed once per endpoint equal to `x`.
pub open spec fn incident_list(edges: Seq<BoundaryEdge>, x: u32) -> Seq<usize>
    decreases edges.len(),
{
    if edges.len() == 0 {
        Seq::empty()
    } else {
        let f = (edges.len() - 1) as usize;
        let e = edges.last();
        let base = incident_list(edges.drop_last(), x);
        let with_a = if e.sample_a == x {
            base.push(f)
        } else {
            base
        };
        if e.sample_b == x {
            with_a.push(f)
        } else {
            with_a
        }
    }
}

/// Entries of `list` other than `own` whose edge joins the plate pair `pair`
/// and had kind `kind` before the pass.
pub open spec fn kind_support(
    list: Seq<usize>,
    edges: Seq<BoundaryEdge>,
    own: int,
    pair: (u16, u16),
    kind: PlateBoundaryKind,
) -> nat
    decreases list.len(),
{
    if list.len() == 0 {
        0
    } else {
        let f = list.last() as int;
        kind_support(list.drop_last(), edges, own, pair, kind) + if f != own && boundary_pair_spec(edges[f]) == pair
            && edges[f].kind == kind {
            1nat
        } else {
            0nat
        }
    }
}

/// Neighbor votes for `kind` around edge `e`, saturating at 255.
pub open spec fn neighbor_votes(edges: Seq<BoundaryEdge>, e: int, kind: PlateBoundaryKind) -> nat {
    let edge = edges[e];
    let pair = boundary_pair_spec(edge);
    let raw = kind_support(incident_list(edges, edge.sample_a), edges, e, pair, kind) + kind_support(
        incident_list(edges, edge.sample_b),
        edges,
        e,
        pair,
        kind,
    );
    if raw > 255 {
        255
    } else {
        raw
    }
}

/// Kind of one edge after a stabilization pass, from its own kind, motion
/// and the votes of the neighboring edges of the same plate pair.
pub open spec fn stabilized_kind(
    current: PlateBoundaryKind,
    converging: bool,
    band: NormalBand,
    convergent: nat,
    divergent: nat,
    transform: nat,
) -> PlateBoundaryKind {
    let signed = if converging {
        PlateBoundaryKind::Convergent
    } else {
        PlateBoundaryKind::Divergent
    };
    let signed_support = if converging {
        convergent
    } else {
        divergent
    };
    let opposite_support = if converging {
        divergent
    } else {
        convergent
    };
    if transform >= 2 && transform > signed_support && band != NormalBand::AtLeastHalf && band
        != NormalBand::Unordered {
        PlateBoundaryKind::Transform
    } else if current == PlateBoundaryKind::Transform && signed_support >= 2 && signed_support > transform && (band
        == NormalBand::BelowHalf || band == NormalBand::AtLeastHalf) {
        signed
    } else if current != PlateBoundaryKind::Transform && band == NormalBand::BelowThirty && (transform > 0
        || opposite_support >= 2) {
        PlateBoundaryKind::Transform
    } else {
        current
    }
}

/// One stabilization pass: every edge is re-decided from the kinds before the pass.
pub open spec fn stabilize_pass(edges: Seq<BoundaryEdge>) -> Seq<BoundaryEdge> {
    Seq::new(
        edges.len(),
        |e: int|
            BoundaryEdge {
                kind: stabilized_kind(
                    edges[e].kind,
                    edges[e].converging,
                    edges[e].normal_band,
                    neighbor_votes(edges, e, PlateBoundaryKind::Convergent),
                    neighbor_votes(edges, e, PlateBoundaryKind::Divergent),
                    neighbor_votes(edges, e, PlateBoundaryKind::Transform),
                ),
                ..edges[e]
            },
    )
}

/// A convergent or divergent edge none of whose same-pair neighbors is a
/// transform and fewer than two of which have the opposite signed kind keeps
/// its kind: agreement of the neighbors never turns it into a transform.
pub proof fn lemma_agreeing_edge_keeps_kind(
    current: PlateBoundaryKind,
    converging: bool,
    band: NormalBand,
    convergent: nat,
    divergent: nat,
    transform: nat,
)
    requires
        current != PlateBoundaryKind::Transform,
        transform == 0,
        (if converging {
            divergent
        } else {
            convergent
        }) < 2,
    ensures
        stabilized_kind(current, converging, band, convergent, divergent, transform) == current,
{
}

/// A convergent or divergent edge never flips to the other signed kind: it
/// stays, or becomes a transform, and it becomes a transform only with a
/// normal share below one half.
pub proof fn lemma_signed_edge_never_flips(
    current: PlateBoundaryKind,
    converging: bool,
    band: NormalBand,
    convergent: nat,
    divergent: nat,
    transform: nat,
)
    requires
        current != PlateBoundaryKind::Transform,
    ensures
        ({
            let next = stabilized_kind(current, converging, band, convergent, divergent, transform);
            &&& next == current || next == PlateBoundaryKind::Transform
            &&& next == PlateBoundaryKind::Transform ==> (band == NormalBand::BelowThirty
                || band == NormalBand::BelowThirtyFive || band == NormalBand::BelowHalf)
        }),
{
}

/// A transform edge leaves the transform kind only for the kind of its own
/// signed motion, backed by at least two such neighbors outnumbering the
/// transform neighbors, and with a normal share of at least 0.35.
pub proof fn lemma_transform_edge_reopens(
    converging: bool,
    band: NormalBand,
    convergent: nat,
    divergent: nat,
    transform: nat,
)
    ensures
        ({
            let next = stabilized_kind(
                PlateBoundaryKind::Transform,
                converging,
                band,
                convergent,
                divergent,
                transform,
            );
            let own = if converging {
                convergent
            } else {
                divergent
            };
            next != PlateBoundaryKind::Transform ==> {
                &&& next == (if converging {
                    PlateBoundaryKind::Convergent
                } else {
                    PlateBoundaryKind::Divergent
                })
                &&& own >= 2 && own > transform
                &&& (band == NormalBand::BelowHalf || band == NormalBand::AtLeastHalf)
            }
        }),
{
}

/// At least two transform neighbors that outnumber the neighbors of the
/// edge's own signed kind make an edge with normal share below one half a
/// transform.
pub proof fn lemma_transform_majority_wins(
    current: PlateBoundaryKind,
    converging: bool,
    band: NormalBand,
    convergent: nat,
    divergent: nat,
    transform: nat,
)
    requires
        transform >= 2,
        transform > (if converging {
            convergent
        } else {
            divergent
        }),
        band == NormalBand::BelowThirty || band == NormalBand::BelowThirtyFive || band == NormalBand::BelowHalf,
    ensures
        stabilized_kind(current, converging, band, convergent, divergent, transform) == PlateBoundaryKind::Transform,
{
}

/// In a stabilization pass, an edge of signed kind whose same-pair neighbors
/// include no transform and fewer than two edges of the opposite signed kind
/// keeps its kind.
pub proof fn lemma_pass_keeps_agreeing_edge(edges: Seq<BoundaryEdge>, e: int)
    requires
        0 <= e < edges.len(),
        edges[e].kind != PlateBoundaryKind::Transform,
        neighbor_votes(edges, e, PlateBoundaryKind::Transform) == 0,
        neighbor_votes(
            edges,
            e,
            if edges[e].converging {
                PlateBoundaryKind::Divergent
            } else {
                PlateBoundaryKind::Convergent
            },
        ) < 2,
    ensures
        stabilize_pass(edges)[e].kind == edges[e].kind,
{
    lemma_agreeing_edge_keeps_kind(
        edges[e].kind,
        edges[e].converging,
        edges[e].normal_band,
        neighbor_votes(edges, e, PlateBoundaryKind::Convergent),
        neighbor_votes(edges, e, PlateBoundaryKind::Divergent),
        neighbor_votes(edges, e, PlateBoundaryKind::Transform),
    );
}

proof fn lemma_incident_bounds(edges: Seq<BoundaryEdge>, x: u32)
    ensures
        forall|i: int| 0 <= i < incident_list(edges, x).len() ==> #[trigger] incident_list(edges, x)[i] < edges.len(),
    decreases edges.len(),
{
    if edges.len() > 0 {
        lemma_incident_bounds(edges.drop_last(), x);
        let f = (edges.len() - 1) as usize;
        let e = edges.last();
        let base = incident_list(edges.drop_last(), x);
        let with_a = if e.sample_a == x {
            base.push(f)
        } else {
            base
        };
        assert forall|i: int| 0 <= i < with_a.len() implies #[trigger] with_a[i] < edges.len() by {
            if i < base.len() {
                assert(with_a[i] == base[i]);
            }
        }
        let full = incident_list(edges, x);
        assert forall|i: int| 0 <= i < full.len() implies #[trigger] full[i] < edges.len() by {
            if i < with_a.len() {
                assert(full[i] == with_a[i]);
            }
        }
    }
}

proof fn lemma_incident_kinds_only(edges: Seq<BoundaryEdge>, other: Seq<BoundaryEdge>, x: u32)
    requires
        edges.len() == other.len(),
        forall|i: int| 0 <= i < edges.len() ==> (#[trigger] edges[i]).sample_a == other[i].sample_a && edges[i].sample_b
            == other[i].sample_b,
    ensures
        incident_list(edges, x) == incident_list(other, x),
    decreases edges.len(),
{
    if edges.len() > 0 {
        lemma_incident_kinds_only(edges.drop_last(), other.drop_last(), x);
    }
}

fn sat_increment(c: u8) -> (r: u8)
    ensures
        r == if c == 255 {
            255
        } else {
            c + 1
        },
{
    if c < 255 {
        c + 1
    } else {
        c
    }
}

/// Adds the votes of one incident list to saturating counters.
fn add_votes(
    list: &Vec<usize>,
    edges: &Vec<BoundaryEdge>,
    own: usize,
    counts: (u8, u8, u8),
) -> (result: (u8, u8, u8))
    requires
        forall|i: int| 0 <= i < list@.len() ==> #[trigger] list@[i] < edges@.len(),
        own < edges@.len(),
    ensures
        ({
            let pair = boundary_pair_spec(edges@[own as int]);
            let c = counts.0 + kind_support(list@, edges@, own as int, pair, PlateBoundaryKind::Convergent);
            let d = counts.1 + kind_support(list@, edges@, own as int, pair, PlateBoundaryKind::Divergent);
            let t = counts.2 + kind_support(list@, edges@, own as int, pair, PlateBoundaryKind::Transform);
            &&& result.0 == if c > 255 {
                255
            } else {
                c
            }
            &&& result.1 == if d > 255 {
                255
            } else {
                d
            }
            &&& result.2 == if t > 255 {
                255
            } else {
                t
            }
        }),
{
    let pair = boundary_pair(&edges[own]);
    let mut c = counts.0;
    let mut d = counts.1;
    let mut t = counts.2;
    let mut j: usize = 0;
    while j < list.len()
        invariant
            forall|i: int| 0 <= i < list@.len() ==> #[trigger] list@[i] < edges@.len(),
            own < edges@.len(),
            pair == boundary_pair_spec(edges@[own as int]),
            j <= list@.len(),
            ({
                let cc = counts.0 + kind_support(list@.take(j as int), edges@, own as int, pair, PlateBoundaryKind::Convergent);
                c == if cc > 255 {
                    255
                } else {
                    cc
                }
            }),
            ({
                let dd = counts.1 + kind_support(list@.take(j as int), edges@, own as int, pair, PlateBoundaryKind::Divergent);
                d == if dd > 255 {
                    255
                } else {
                    dd
                }
            }),
            ({
                let tt = counts.2 + kind_support(list@.take(j as int), edges@, own as int, pair, PlateBoundaryKind::Transform);
                t == if tt > 255 {
                    255
                } else {
                    tt
                }
            }),
        decreases list@.len() - j,
    {
        assert(list@.take(j + 1).drop_last() =~= list@.take(j as int));
        let f = list[j];
        let other = boundary_pair(&edges[f]);
        if f != own && other.0 == pair.0 && other.1 == pair.1 {
            match edges[f].kind {
                PlateBoundaryKind::Convergent => {
                    c = sat_increment(c);
                },
                PlateBoundaryKind::Divergent => {
                    d = sat_increment(d);
                },
                PlateBoundaryKind::Transform => {
                    t = sat_increment(t);
                },
            }
        }
        j = j + 1;
    }
    assert(list@.take(j as int) =~= list@);
    (c, d, t)
}

fn stabilized_kind_exec(
    current: PlateBoundaryKind,
    converging: bool,
    band: NormalBand,
    convergent: u8,
    divergent: u8,
    transform: u8,
) -> (kind: PlateBoundaryKind)
    ensures
        kind == stabilized_kind(
            current,
            converging,
            band,
            convergent as nat,
            divergent as nat,
            transform as nat,
        ),
{
    let signed = if converging {
        PlateBoundaryKind::Convergent
    } else {
        PlateBoundaryKind::Divergent
    };
    let signed_support = if converging {
        convergent
    } else {
        divergent
    };
    let opposite_support = if converging {
        divergent
    } else {
        convergent
    };
    let below_half = match band {
        NormalBand::AtLeastHalf | NormalBand::Unordered => false,
        _ => true,
    };
    let from_thirty_five = match band {
        NormalBand::BelowHalf | NormalBand::AtLeastHalf => true,
        _ => false,
    };
    let below_thirty = match band {
        NormalBand::BelowThirty => true,
        _ => false,
    };
    let is_transform = match current {
        PlateBoundaryKind::Transform => true,
        _ => false,
    };
    if transform >= 2 && transform > signed_support && below_half {
        PlateBoundaryKind::Transform
    } else if is_transform && signed_support >= 2 && signed_support > transform && from_thirty_five {
        signed
    } else if !is_transform && below_thirty && (transform > 0 || opposite_support >= 2) {
        PlateBoundaryKind::Transform
    } else {
        current
    }
}

fn stabilize_once(incident: &Vec<Vec<usize>>, boundaries: &mut Vec<BoundaryEdge>)
    requires
        forall|e: int|
            0 <= e < old(boundaries)@.len() ==> (#[trigger] old(boundaries)@[e]).sample_a < incident@.len()
                && old(boundaries)@[e].sample_b < incident@.len(),
        forall|x: int| 0 <= x < incident@.len() ==> (#[trigger] incident@[x])@ == incident_list(old(boundaries)@, x as u32),
    ensures
        final(boundaries)@ == stabilize_pass(old(boundaries)@),
{
    let previous = boundaries.clone();
    let ghost prev = previous@;
    assert(prev == old(boundaries)@);
    let mut e: usize = 0;
    while e < boundaries.len()
        invariant
            prev == previous@,
            boundaries@.len() == prev.len(),
            forall|x: int|
                0 <= x < prev.len() ==> (#[trigger] prev[x]).sample_a < incident@.len() && prev[x].sample_b
                    < incident@.len(),
            forall|x: int| 0 <= x < incident@.len() ==> (#[trigger] incident@[x])@ == incident_list(prev, x as u32),
            e <= prev.len(),
            forall|i: int| 0 <= i < e ==> #[trigger] boundaries@[i] == stabilize_pass(prev)[i],
            forall|i: int| e <= i < prev.len() ==> #[trigger] boundaries@[i] == prev[i],
        decreases prev.len() - e,
    {
        let edge = previous[e];
        let list_a = &incident[edge.sample_a as usize];
        let list_b = &incident[edge.sample_b as usize];
        proof {
            lemma_incident_bounds(prev, edge.sample_a);
            lemma_incident_bounds(prev, edge.sample_b);
        }
        let first = add_votes(list_a, &previous, e, (0, 0, 0));
        let votes = add_votes(list_b, &previous, e, first);
        let next = stabilized_kind_exec(edge.kind, edge.converging, edge.normal_band, votes.0, votes.1, votes.2);
        boundaries.set(e, BoundaryEdge { kind: next, ..edge });
        e = e + 1;
    }
    assert(boundaries@ =~= stabilize_pass(prev));
}

/// Removes one-edge regime chatter along a plate pair: two passes in which an
/// edge follows the kinds of the other edges of the same pair sharing one of
/// its samples, without overruling a decisive normal motion.
pub fn stabilize_boundary_kinds(sample_count: u32, boundaries: &mut Vec<BoundaryEdge>)
    requires
        forall|e: int|
            0 <= e < old(boundaries)@.len() ==> (#[trigger] old(boundaries)@[e]).sample_a < sample_count
                && old(boundaries)@[e].sample_b < sample_count,
    ensures
        final(boundaries)@ == stabilize_pass(stabilize_pass(old(boundaries)@)),
{
    let ghost edges = boundaries@;
    let n = sample_count as usize;
    let mut incident: Vec<Vec<usize>> = Vec::new();
    let mut x: usize = 0;
    while x < n
        invariant
            x <= n,
            incident@.len() == x,
            forall|y: int| 0 <= y < x ==> (#[trigger] incident@[y])@ == Seq::<usize>::empty(),
        decreases n - x,
    {
        incident.push(Vec::new());
        x = x + 1;
    }
    let mut i: usize = 0;
    while i < boundaries.len()
        invariant
            edges == boundaries@,
            n == sample_count,
            incident@.len() == n,
            i <= edges.len(),
            forall|e: int|
                0 <= e < edges.len() ==> (#[trigger] edges[e]).sample_a < sample_count && edges[e].sample_b
                    < sample_count,
            forall|y: int| 0 <= y < n ==> (#[trigger] incident@[y])@ == incident_list(edges.take(i as int), y as u32),
        decreases edges.len() - i,
    {
        let edge = boundaries[i];
        proof {
            assert(edges.take(i + 1).drop_last() =~= edges.take(i as int));
            assert(edges.take(i + 1).last() == edge);
        }
        incident[edge.sample_a as usize].push(i);
        incident[edge.sample_b as usize].push(i);
        i = i + 1;
    }
    assert(edges.take(i as int) =~= edges);
    stabilize_once(&incident, boundaries);
    let ghost once = boundaries@;
    proof {
        assert forall|y: int| 0 <= y < incident@.len() implies (#[trigger] incident@[y])@ == incident_list(once, y as u32) by {
            lemma_incident_kinds_only(edges, once, y as u32);
        }
    }
    stabilize_once(&incident, boundaries);
}

} // verus!
