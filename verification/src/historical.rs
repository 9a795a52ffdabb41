//! Historical lithosphere bookkeeping: event vocabulary, the stage request,
//! the ancestral plate budget, plate-group merging and relabelling, and the
//! validation of the fragment lineage produced by bounded epochs.

use vstd::prelude::*;
use crate::error::WorldgenError;
use crate::geology::PlateBoundaryKind;
use crate::hex::{hash_hex, hex_chars};

verus! {

/// Number of bounded historical epochs.
pub const HISTORICAL_EPOCH_COUNT: u8 = 8;

/// Kind of a recorded historical tectonic event.
#[derive(Clone, Copy, Debug, PartialEq, Eq)]
pub enum HistoricalEventKind {
    Rift,
    Spreading,
    Subduction,
    Collision,
    Transform,
    Accretion,
    Capture,
}

impl HistoricalEventKind {
    /// Numeric code of the kind.
    pub open spec fn code_spec(self) -> u8 {
        match self {
            HistoricalEventKind::Rift => 1,
            HistoricalEventKind::Spreading => 2,
            HistoricalEventKind::Subduction => 3,
            HistoricalEventKind::Collision => 4,
            HistoricalEventKind::Transform => 5,
            HistoricalEventKind::Accretion => 6,
            HistoricalEventKind::Capture => 7,
        }
    }

    /// Numeric code, 1 to 7 in declaration order.
    pub fn code(&self) -> (code: u8)
        ensures
            code == self.code_spec(),
    {
        match self {
            HistoricalEventKind::Rift => 1,
            HistoricalEventKind::Spreading => 2,
            HistoricalEventKind::Subduction => 3,
            HistoricalEventKind::Collision => 4,
            HistoricalEventKind::Transform => 5,
            HistoricalEventKind::Accretion => 6,
            HistoricalEventKind::Capture => 7,
        }
    }
}

/// Request of the historical lithosphere stage.
#[derive(Clone, Debug, PartialEq, Eq)]
pub struct HistoricalLithosphereRequest {
    pub seed: String,
    pub modern_plate_count: u16,
}

impl HistoricalLithosphereRequest {
    /// A request for `seed` ending in `modern_plate_count` present-day plates.
    pub fn new(seed: &str, modern_plate_count: u16) -> (request: Self)
        ensures
            request.seed@ == seed@,
            request.modern_plate_count == modern_plate_count,
    {
        HistoricalLithosphereRequest { seed: seed.to_owned(), modern_plate_count }
    }
}

/// Crust code of oceanic material.
pub const OCEANIC_CRUST_CODE: u8 = 1;

/// Event recorded for an ancestral boundary of the given kind between crust
/// codes `crust_a` and `crust_b`.
pub open spec fn event_kind_spec(kind: PlateBoundaryKind, crust_a: u8, crust_b: u8) -> HistoricalEventKind {
    let oceanic_a = crust_a == OCEANIC_CRUST_CODE;
    let oceanic_b = crust_b == OCEANIC_CRUST_CODE;
    match kind {
        PlateBoundaryKind::Divergent => if oceanic_a && oceanic_b {
            HistoricalEventKind::Spreading
        } else {
            HistoricalEventKind::Rift
        },
        PlateBoundaryKind::Transform => HistoricalEventKind::Transform,
        PlateBoundaryKind::Convergent => if !oceanic_a && !oceanic_b {
            HistoricalEventKind::Collision
        } else if oceanic_a && oceanic_b {
            HistoricalEventKind::Subduction
        } else {
            HistoricalEventKind::Accretion
        },
    }
}

/// Event recorded for an ancestral boundary between two crust codes.
pub fn event_kind_for_boundary(kind: PlateBoundaryKind, crust_a: u8, crust_b: u8) -> (event: HistoricalEventKind)
    ensures
        event == event_kind_spec(kind, crust_a, crust_b),
{
    match kind {
        PlateBoundaryKind::Divergent => {
            if crust_a == OCEANIC_CRUST_CODE && crust_b == OCEANIC_CRUST_CODE {
                HistoricalEventKind::Spreading
            } else {
                HistoricalEventKind::Rift
            }
        },
        PlateBoundaryKind::Transform => HistoricalEventKind::Transform,
        PlateBoundaryKind::Convergent => {
            if crust_a != OCEANIC_CRUST_CODE && crust_b != OCEANIC_CRUST_CODE {
                HistoricalEventKind::Collision
            } else if crust_a == OCEANIC_CRUST_CODE && crust_b == OCEANIC_CRUST_CODE {
                HistoricalEventKind::Subduction
            } else {
                HistoricalEventKind::Accretion
            }
        },
    }
}

/// The event kind does not depend on which side is called A.
pub proof fn lemma_event_kind_symmetric(kind: PlateBoundaryKind, crust_a: u8, crust_b: u8)
    ensures
        event_kind_spec(kind, crust_a, crust_b) == event_kind_spec(kind, crust_b, crust_a),
{
}

/// A convergent ancestral boundary is a subduction exactly when both sides
/// are oceanic, a collision exactly when neither is, and an accretion when
/// exactly one side is oceanic.
pub proof fn lemma_convergent_event_kinds(crust_a: u8, crust_b: u8)
    ensures
        (event_kind_spec(PlateBoundaryKind::Convergent, crust_a, crust_b) == HistoricalEventKind::Subduction) <==> (
        crust_a == 1 && crust_b == 1),
        (event_kind_spec(PlateBoundaryKind::Convergent, crust_a, crust_b) == HistoricalEventKind::Collision) <==> (
        crust_a != 1 && crust_b != 1),
        (event_kind_spec(PlateBoundaryKind::Convergent, crust_a, crust_b) == HistoricalEventKind::Accretion) <==> (
        (crust_a == 1) != (crust_b == 1)),
{
}

/// A divergent ancestral boundary is seafloor spreading exactly when both
/// sides are oceanic and a rift otherwise; a transform boundary records a
/// transform.
pub proof fn lemma_other_event_kinds(crust_a: u8, crust_b: u8)
    ensures
        event_kind_spec(PlateBoundaryKind::Divergent, crust_a, crust_b) == if crust_a == 1 && crust_b == 1 {
            HistoricalEventKind::Spreading
        } else {
            HistoricalEventKind::Rift
        },
        event_kind_spec(PlateBoundaryKind::Transform, crust_a, crust_b) == HistoricalEventKind::Transform,
{
}

/// Number of ancestral plates for `modern` present-day plates on a mesh of
/// `sample_count` samples: three per modern plate, capped by the supported
/// maximum and by the sample count, never fewer than the modern count.
pub open spec fn ancestral_count_spec(modern: u16, sample_count: u32, max_plates: u16) -> u16 {
    let target: int = if 3 * modern > u16::MAX {
        u16::MAX as int
    } else {
        3 * modern
    };
    let sample_limit: int = if sample_count > u16::MAX {
        u16::MAX as int
    } else {
        sample_count as int
    };
    let capped = if target > max_plates {
        max_plates as int
    } else {
        target
    };
    let capped = if capped > sample_limit {
        sample_limit
    } else {
        capped
    };
    (if capped < modern {
        modern as int
    } else {
        capped
    }) as u16
}

/// Ancestral plate budget for the historical stage, for a tectonic model
/// supporting `min_plates..=max_plates` plates.
pub fn ancestral_plate_count(
    modern_plate_count: u16,
    sample_count: u32,
    min_plates: u16,
    max_plates: u16,
) -> (result: Result<u16, WorldgenError>)
    ensures
        !(min_plates <= modern_plate_count <= max_plates) ==> result == Err::<u16, WorldgenError>(
            WorldgenError::InvalidLithosphere(
                "historical lithosphere modern plate count is outside the supported tectonic range",
            ),
        ),
        min_plates <= modern_plate_count <= max_plates && sample_count < modern_plate_count ==> result == Err::<
            u16,
            WorldgenError,
        >(
            WorldgenError::InvalidLithosphere(
                "historical lithosphere requires at least one topology sample per modern plate",
            ),
        ),
        min_plates <= modern_plate_count <= max_plates && sample_count >= modern_plate_count ==> result == Ok::<
            u16,
            WorldgenError,
        >(ancestral_count_spec(modern_plate_count, sample_count, max_plates)),
{
    if !(min_plates <= modern_plate_count && modern_plate_count <= max_plates) {
        return Err(
            WorldgenError::InvalidLithosphere(
                "historical lithosphere modern plate count is outside the supported tectonic range",
            ),
        );
    }
    if sample_count < modern_plate_count as u32 {
        return Err(
            WorldgenError::InvalidLithosphere(
                "historical lithosphere requires at least one topology sample per modern plate",
            ),
        );
    }
    let tripled: u32 = modern_plate_count as u32 * 3;
    let target: u16 = if tripled > 65535 {
        65535
    } else {
        tripled as u16
    };
    let target = if target < modern_plate_count {
        modern_plate_count
    } else {
        target
    };
    let sample_limit: u16 = if sample_count > 65535 {
        65535
    } else {
        sample_count as u16
    };
    let capped = if target > max_plates {
        max_plates
    } else {
        target
    };
    let capped = if capped > sample_limit {
        sample_limit
    } else {
        capped
    };
    Ok(
        if capped < modern_plate_count {
            modern_plate_count
        } else {
            capped
        },
    )
}

/// The budget never undercuts the modern plate count nor exceeds the sample count.
pub proof fn lemma_ancestral_count_bounds(modern: u16, sample_count: u32, max_plates: u16)
    requires
        modern <= max_plates,
        sample_count >= modern,
    ensures
        modern <= ancestral_count_spec(modern, sample_count, max_plates) <= max_plates,
        ancestral_count_spec(modern, sample_count, max_plates) <= sample_count,
{
}

/// The budget is the smallest of three plates per modern plate, the
/// supported maximum and the sample count.
pub proof fn lemma_ancestral_budget_is_minimum(modern: u16, sample_count: u32, max_plates: u16)
    requires
        modern <= max_plates,
        sample_count >= modern,
    ensures
        ({
            let budget = ancestral_count_spec(modern, sample_count, max_plates) as int;
            &&& budget <= 3 * modern && budget <= max_plates && budget <= sample_count
            &&& budget == 3 * modern || budget == max_plates || budget == sample_count
        }),
{
}

/// Relabels every member of group `remove` as group `keep`.
pub fn merge_groups(groups: &mut Vec<u16>, keep: u16, remove: u16)
    ensures
        final(groups)@.len() == old(groups)@.len(),
        forall|i: int|
            0 <= i < old(groups)@.len() ==> #[trigger] final(groups)@[i] == if old(groups)@[i] == remove {
                keep
            } else {
                old(groups)@[i]
            },
{
    let mut i: usize = 0;
    while i < groups.len()
        invariant
            i <= groups@.len(),
            groups@.len() == old(groups)@.len(),
            forall|j: int|
                0 <= j < i ==> #[trigger] groups@[j] == if old(groups)@[j] == remove {
                    keep
                } else {
                    old(groups)@[j]
                },
            forall|j: int| i <= j < groups@.len() ==> #[trigger] groups@[j] == old(groups)@[j],
        decreases groups@.len() - i,
    {
        if groups[i] == remove {
            groups.set(i, keep);
        }
        i = i + 1;
    }
}

/// Distinct labels of `s` in order of first occurrence.
pub open spec fn first_occurrences(s: Seq<u16>) -> Seq<u16>
    decreases s.len(),
{
    if s.len() == 0 {
        Seq::empty()
    } else {
        let d = first_occurrences(s.drop_last());
        if d.contains(s.last()) {
            d
        } else {
            d.push(s.last())
        }
    }
}

proof fn lemma_first_occurrences(s: Seq<u16>)
    ensures
        forall|i: int| 0 <= i < s.len() ==> first_occurrences(s).contains(#[trigger] s[i]),
        forall|k: int| 0 <= k < first_occurrences(s).len() ==> s.contains(#[trigger] first_occurrences(s)[k]),
        first_occurrences(s).no_duplicates(),
        first_occurrences(s).len() <= s.len(),
    decreases s.len(),
{
    if s.len() > 0 {
        let t = s.drop_last();
        lemma_first_occurrences(t);
        let d = first_occurrences(t);
        assert forall|i: int| 0 <= i < s.len() implies first_occurrences(s).contains(#[trigger] s[i]) by {
            if i < s.len() - 1 {
                assert(t[i] == s[i]);
                assert(d.contains(s[i]));
                if !d.contains(s.last()) {
                    let k = choose|k: int| 0 <= k < d.len() && d[k] == s[i];
                    assert(d.push(s.last())[k] == s[i]);
                }
            } else {
                if !d.contains(s.last()) {
                    assert(d.push(s.last())[d.len() as int] == s.last());
                }
            }
        }
        assert forall|k: int| 0 <= k < first_occurrences(s).len() implies s.contains(
            #[trigger] first_occurrences(s)[k],
        ) by {
            if k < d.len() {
                assert(first_occurrences(s)[k] == d[k]);
                assert(t.contains(d[k]));
                let i = choose|i: int| 0 <= i < t.len() && t[i] == d[k];
                assert(s[i] == d[k]);
            } else {
                assert(s[s.len() - 1] == s.last());
            }
        }
    }
}

proof fn lemma_index_of_unique(s: Seq<u16>, x: u16, k: int)
    requires
        s.no_duplicates(),
        0 <= k < s.len(),
        s[k] == x,
    ensures
        s.index_of(x) == k,
{
    assert(s.contains(x));
}

/// A list of pairwise distinct 16-bit labels has at most 65536 entries.
proof fn lemma_distinct_labels_bounded(s: Seq<u16>)
    requires
        s.no_duplicates(),
    ensures
        s.len() <= 65536,
{
    let t = s.map_values(|x: u16| x as int);
    assert(t.no_duplicates()) by {
        assert forall|i: int, j: int| 0 <= i < t.len() && 0 <= j < t.len() && i != j implies t[i] != t[j] by {
            assert(s[i] != s[j]);
        }
    }
    t.unique_seq_to_set();
    vstd::set_lib::lemma_int_range(0, 65536);
    assert(t.to_set().subset_of(vstd::set_lib::set_int_range(0, 65536))) by {
        assert forall|v: int| t.to_set().contains(v) implies vstd::set_lib::set_int_range(0, 65536).contains(v) by {
            assert(t.contains(v));
            let k = choose|k: int| 0 <= k < t.len() && t[k] == v;
            assert(t[k] == s[k] as int);
        }
    }
    vstd::set_lib::lemma_len_subset(t.to_set(), vstd::set_lib::set_int_range(0, 65536));
}

/// Dense relabelling keeps the partition: two samples get the same dense id
/// exactly when they had the same label, and dense ids stay below the number
/// of distinct labels.
pub proof fn lemma_compaction_preserves_groups(s: Seq<u16>, i: int, j: int)
    requires
        0 <= i < s.len(),
        0 <= j < s.len(),
    ensures
        0 <= first_occurrences(s).index_of(s[i]) < first_occurrences(s).len(),
        first_occurrences(s).index_of(s[i]) == first_occurrences(s).index_of(s[j]) <==> s[i] == s[j],
{
    lemma_first_occurrences(s);
    let d = first_occurrences(s);
    assert(d.contains(s[i]));
    assert(d.contains(s[j]));
}

/// Replaces every group label by its rank among the distinct labels in order
/// of first occurrence, so that the groups become dense ids `0, 1, 2, ...`.
pub fn compact_groups(groups: &Vec<u16>) -> (dense: Vec<u16>)
    ensures
        dense@.len() == groups@.len(),
        forall|i: int|
            0 <= i < groups@.len() ==> #[trigger] dense@[i] as int == first_occurrences(groups@).index_of(
                groups@[i],
            ),
{
    let n = groups.len();
    // rank[label] = dense id + 1 of a label already seen, 0 if unseen
    let mut rank: Vec<u32> = vec![0u32; 65536];
    let mut next: u32 = 0;
    let mut dense: Vec<u16> = Vec::new();
    let mut i: usize = 0;
    proof {
        lemma_first_occurrences(groups@.take(0));
    }
    while i < n
        invariant
            n == groups@.len(),
            i <= n,
            rank@.len() == 65536,
            next as int == first_occurrences(groups@.take(i as int)).len(),
            next <= i,
            dense@.len() == i,
            forall|label: int|
                0 <= label < 65536 ==> (#[trigger] rank@[label] == 0 <==> !first_occurrences(
                    groups@.take(i as int),
                ).contains(label as u16)),
            forall|label: int|
                0 <= label < 65536 && rank@[label] != 0 ==> #[trigger] rank@[label] - 1 == first_occurrences(
                    groups@.take(i as int),
                ).index_of(label as u16),
            forall|j: int|
                0 <= j < i ==> #[trigger] dense@[j] as int == first_occurrences(groups@.take(i as int)).index_of(
                    groups@[j],
                ),
            first_occurrences(groups@.take(i as int)).no_duplicates(),
            forall|j: int| 0 <= j < i ==> first_occurrences(groups@.take(i as int)).contains(#[trigger] groups@[j]),
        decreases n - i,
    {
        let label = groups[i];
        let ghost before = first_occurrences(groups@.take(i as int));
        let ghost after = first_occurrences(groups@.take(i + 1));
        proof {
            assert(groups@.take(i + 1).drop_last() =~= groups@.take(i as int));
            assert(groups@.take(i + 1).last() == label);
            lemma_first_occurrences(groups@.take(i + 1));
        }
        if rank[label as usize] == 0 {
            proof {
                assert(after == before.push(label));
                assert forall|j: int| 0 <= j < i implies #[trigger] before.index_of(groups@[j]) == after.index_of(
                    groups@[j],
                ) by {
                    let k = before.index_of(groups@[j]);
                    assert(after[k] == groups@[j]);
                    lemma_index_of_unique(after, groups@[j], k);
                }
                assert(after[before.len() as int] == label);
                lemma_index_of_unique(after, label, before.len() as int);
                lemma_distinct_labels_bounded(after);
            }
            next = next + 1;
            rank.set(label as usize, next);
        } else {
            proof {
                assert(after == before);
            }
        }
        proof {
            lemma_distinct_labels_bounded(after);
            assert(after.contains(label)) by {
                assert(groups@.take(i + 1)[i as int] == label);
            }
        }
        let id = rank[label as usize] - 1;
        dense.push(id as u16);
        proof {
            assert forall|lab: int|
                0 <= lab < 65536 && rank@[lab] != 0 implies #[trigger] rank@[lab] - 1 == after.index_of(
                lab as u16,
            ) by {
                if lab != label as int && after != before {
                    let k = before.index_of(lab as u16);
                    assert(after[k] == lab as u16);
                    lemma_index_of_unique(after, lab as u16, k);
                }
            }
            assert forall|j: int| 0 <= j < i + 1 implies after.contains(#[trigger] groups@[j]) by {
                assert(groups@.take(i + 1)[j] == groups@[j]);
            }
            assert forall|lab: int| 0 <= lab < 65536 implies (#[trigger] rank@[lab] == 0 <==> !after.contains(
                lab as u16,
            )) by {
                if after != before {
                    if lab == label as int {
                        assert(after[before.len() as int] == label);
                    } else if before.contains(lab as u16) {
                        let k = before.index_of(lab as u16);
                        assert(after[k] == lab as u16);
                    } else if after.contains(lab as u16) {
                        let k = choose|k: int| 0 <= k < after.len() && after[k] == lab as u16;
                        if k < before.len() {
                            assert(before[k] == after[k]);
                        }
                    }
                }
            }
        }
        i = i + 1;
    }
    proof {
        assert(groups@.take(n as int) =~= groups@);
    }
    dense
}

/// Lineage part of a persistent crust fragment: its dense id, the fragment
/// it split from, and the ancestral plate whose material it carries.
#[derive(Clone, Copy, Debug, PartialEq, Eq)]
pub struct FragmentLineage {
    pub id: u16,
    pub parent_fragment_id: Option<u16>,
    pub origin_plate_id: u16,
}

/// Fragment `i` has its dense id, an earlier parent (if any), and the
/// parent's ancestral provenance.
pub open spec fn fragment_ok(frs: Seq<FragmentLineage>, i: int) -> bool {
    &&& frs[i].id == i
    &&& match frs[i].parent_fragment_id {
        Some(p) => p < frs[i].id && p < frs.len() && frs[p as int].origin_plate_id == frs[i].origin_plate_id,
        None => true,
    }
}

/// Every fragment satisfies the lineage rules.
pub open spec fn lineage_valid(frs: Seq<FragmentLineage>) -> bool {
    forall|i: int| 0 <= i < frs.len() ==> #[trigger] fragment_ok(frs, i)
}

/// Message of the first rule that fragment `i` breaks.
pub open spec fn fragment_fault(frs: Seq<FragmentLineage>, i: int) -> &'static str {
    if frs[i].id != i {
        "historical fragment ids are not dense lineage indices"
    } else if match frs[i].parent_fragment_id {
        Some(p) => p >= frs[i].id || p >= frs.len(),
        None => false,
    } {
        "historical fragment parent graph is not acyclic"
    } else {
        "historical fragment split changed ancestral material provenance"
    }
}

/// Every sample references an existing fragment.
pub open spec fn sample_fragments_valid(fragment_ids: Seq<u16>, fragment_count: nat) -> bool {
    forall|j: int| 0 <= j < fragment_ids.len() ==> #[trigger] fragment_ids[j] < fragment_count
}

/// Every event lies inside the bounded epoch schedule.
pub open spec fn event_epochs_valid(epochs: Seq<u8>) -> bool {
    forall|j: int| 0 <= j < epochs.len() ==> #[trigger] epochs[j] < HISTORICAL_EPOCH_COUNT
}

/// Checks the fragment lineage left by the bounded epochs: fragments in id
/// order, then the per-sample fragment ids, then the event epochs. The first
/// broken rule is reported.
pub fn validate_lineage(
    fragments: &Vec<FragmentLineage>,
    fragment_ids: &Vec<u16>,
    event_epochs: &Vec<u8>,
) -> (result: Result<(), WorldgenError>)
    ensures
        result is Ok ==> forall|i: int|
            0 <= i < fragments@.len() ==> {
                &&& (#[trigger] fragments@[i]).id == i
                &&& fragments@[i].parent_fragment_id matches Some(p) ==> p < i && fragments@[p as int].origin_plate_id
                    == fragments@[i].origin_plate_id
            },
        result is Ok ==> forall|s: int| 0 <= s < fragment_ids@.len() ==> #[trigger] fragment_ids@[s] < fragments@.len(),
        result is Ok ==> forall|e: int| 0 <= e < event_epochs@.len() ==> #[trigger] event_epochs@[e] < HISTORICAL_EPOCH_COUNT,
        result is Ok <==> lineage_valid(fragments@) && sample_fragments_valid(fragment_ids@, fragments@.len())
            && event_epochs_valid(event_epochs@),
        result matches Err(e) ==> {
            ||| exists|k: int|
                0 <= k < fragments@.len() && !fragment_ok(fragments@, k) && (forall|j: int|
                    0 <= j < k ==> #[trigger] fragment_ok(fragments@, j)) && e == WorldgenError::InvalidLithosphere(
                    fragment_fault(fragments@, k),
                )
            ||| lineage_valid(fragments@) && !sample_fragments_valid(fragment_ids@, fragments@.len()) && e
                == WorldgenError::InvalidLithosphere("historical epoch split produced an invalid sample fragment id")
            ||| lineage_valid(fragments@) && sample_fragments_valid(fragment_ids@, fragments@.len())
                && !event_epochs_valid(event_epochs@) && e == WorldgenError::InvalidLithosphere(
                "historical event lies outside the bounded epoch schedule",
            )
        },
{
    let n = fragments.len();
    let mut i: usize = 0;
    while i < n
        invariant
            n == fragments@.len(),
            i <= n,
            forall|j: int| 0 <= j < i ==> #[trigger] fragment_ok(fragments@, j),
        decreases n - i,
    {
        let fragment = fragments[i];
        if fragment.id as usize != i {
            proof {
                assert(!fragment_ok(fragments@, i as int));
            }
            return Err(WorldgenError::InvalidLithosphere("historical fragment ids are not dense lineage indices"));
        }
        match fragment.parent_fragment_id {
            Some(parent) => {
                if parent >= fragment.id || parent as usize >= n {
                    proof {
                        assert(!fragment_ok(fragments@, i as int));
                    }
                    return Err(WorldgenError::InvalidLithosphere("historical fragment parent graph is not acyclic"));
                }
                if fragments[parent as usize].origin_plate_id != fragment.origin_plate_id {
                    proof {
                        assert(!fragment_ok(fragments@, i as int));
                    }
                    return Err(
                        WorldgenError::InvalidLithosphere(
                            "historical fragment split changed ancestral material provenance",
                        ),
                    );
                }
            },
            None => {},
        }
        i = i + 1;
    }
    let mut j: usize = 0;
    while j < fragment_ids.len()
        invariant
            j <= fragment_ids@.len(),
            n == fragments@.len(),
            lineage_valid(fragments@),
            forall|k: int| 0 <= k < j ==> #[trigger] fragment_ids@[k] < n,
        decreases fragment_ids@.len() - j,
    {
        if fragment_ids[j] as usize >= n {
            proof {
                assert(!sample_fragments_valid(fragment_ids@, fragments@.len()));
            }
            return Err(
                WorldgenError::InvalidLithosphere("historical epoch split produced an invalid sample fragment id"),
            );
        }
        j = j + 1;
    }
    let mut e: usize = 0;
    while e < event_epochs.len()
        invariant
            e <= event_epochs@.len(),
            lineage_valid(fragments@),
            sample_fragments_valid(fragment_ids@, fragments@.len()),
            forall|k: int| 0 <= k < e ==> #[trigger] event_epochs@[k] < HISTORICAL_EPOCH_COUNT,
        decreases event_epochs@.len() - e,
    {
        if event_epochs[e] >= HISTORICAL_EPOCH_COUNT {
            proof {
                assert(!event_epochs_valid(event_epochs@));
            }
            return Err(WorldgenError::InvalidLithosphere("historical event lies outside the bounded epoch schedule"));
        }
        e = e + 1;
    }
    proof {
        assert forall|k: int| 0 <= k < fragments@.len() implies {
            &&& (#[trigger] fragments@[k]).id == k
            &&& fragments@[k].parent_fragment_id matches Some(p) ==> p < k && fragments@[p as int].origin_plate_id
                == fragments@[k].origin_plate_id
        } by {
            assert(fragment_ok(fragments@, k));
        }
    }
    Ok(())
}

/// Root ancestor of fragment `i`, following parent links.
pub open spec fn lineage_root(frs: Seq<FragmentLineage>, i: int) -> int
    decreases i,
{
    if i <= 0 || i >= frs.len() {
        i
    } else {
        match frs[i].parent_fragment_id {
            Some(p) => if p < i {
                lineage_root(frs, p as int)
            } else {
                i
            },
            None => i,
        }
    }
}

/// In a valid lineage every fragment descends from a parentless root fragment
/// with no larger id that carries the same ancestral plate material.
pub proof fn lemma_lineage_root(frs: Seq<FragmentLineage>, i: int)
    requires
        lineage_valid(frs),
        0 <= i < frs.len(),
    ensures
        0 <= lineage_root(frs, i) <= i,
        frs[lineage_root(frs, i)].parent_fragment_id is None,
        frs[lineage_root(frs, i)].origin_plate_id == frs[i].origin_plate_id,
    decreases i,
{
    assert(fragment_ok(frs, i));
    if i > 0 {
        match frs[i].parent_fragment_id {
            Some(p) => {
                lemma_lineage_root(frs, p as int);
            },
            None => {},
        }
    } else {
        match frs[i].parent_fragment_id {
            Some(p) => {
                assert(p < frs[i].id);
            },
            None => {},
        }
    }
}

/// Per-class sample counts and digest of the historical morphology stage.
#[derive(Clone, Copy, Debug, PartialEq, Eq)]
pub struct HistoricalMorphologyMetrics {
    pub sample_count: u32,
    pub event_count: u32,
    pub active_orogen_sample_count: u32,
    pub fossil_orogen_sample_count: u32,
    pub internal_fossil_orogen_sample_count: u32,
    pub passive_margin_sample_count: u32,
    pub suture_sample_count: u32,
    pub rift_sample_count: u32,
    pub shear_sample_count: u32,
    pub morphology_hash: u64,
}

impl HistoricalMorphologyMetrics {
    /// The morphology digest as sixteen lowercase hex digits.
    pub fn morphology_hash_hex(&self) -> (text: String)
        ensures
            text@ == hex_chars(self.morphology_hash as nat, 16),
    {
        hash_hex(self.morphology_hash)
    }
}

/// Some event is anchored at a sample outside the topology.
pub open spec fn event_geometry_out_of_range(event_samples: Seq<(u32, u32)>, sample_count: u32) -> bool {
    exists|j: int|
        0 <= j < event_samples.len() && (#[trigger] event_samples[j].0 >= sample_count || event_samples[j].1
            >= sample_count)
}

/// Checks the inputs of the historical morphology stage: per-sample rasters
/// match the topology, the modern ownership is the one projected from the
/// historical material, and every event is anchored at existing samples.
pub fn validate_morphology_inputs(
    sample_count: u32,
    fragment_ids_len: usize,
    current_plate_ids: &Vec<u16>,
    crust_kind_len: usize,
    tectonic_plate_ids: &Vec<u16>,
    event_samples: &Vec<(u32, u32)>,
) -> (result: Result<(), WorldgenError>)
    ensures
        ({
            let aligned = fragment_ids_len == sample_count && current_plate_ids@.len() == sample_count
                && crust_kind_len == sample_count && tectonic_plate_ids@.len() == sample_count;
            &&& !aligned ==> result == Err::<(), WorldgenError>(
                WorldgenError::InvalidLithosphere("historical morphology inputs do not match topology"),
            )
            &&& aligned && tectonic_plate_ids@ != current_plate_ids@ ==> result == Err::<(), WorldgenError>(
                WorldgenError::InvalidLithosphere(
                    "historical morphology requires modern ownership projected from historical material",
                ),
            )
            &&& aligned && tectonic_plate_ids@ == current_plate_ids@ && event_geometry_out_of_range(
                event_samples@,
                sample_count,
            ) ==> result == Err::<(), WorldgenError>(
                WorldgenError::InvalidLithosphere("historical morphology event geometry references an invalid sample"),
            )
            &&& aligned && tectonic_plate_ids@ == current_plate_ids@ && !event_geometry_out_of_range(
                event_samples@,
                sample_count,
            ) ==> result == Ok::<(), WorldgenError>(())
        }),
{
    let count = sample_count as usize;
    if fragment_ids_len != count || current_plate_ids.len() != count || crust_kind_len != count
        || tectonic_plate_ids.len() != count {
        return Err(WorldgenError::InvalidLithosphere("historical morphology inputs do not match topology"));
    }
    let mut i: usize = 0;
    while i < count
        invariant
            count == sample_count,
            fragment_ids_len == sample_count,
            crust_kind_len == sample_count,
            count == current_plate_ids@.len(),
            count == tectonic_plate_ids@.len(),
            i <= count,
            forall|j: int| 0 <= j < i ==> #[trigger] tectonic_plate_ids@[j] == current_plate_ids@[j],
        decreases count - i,
    {
        if tectonic_plate_ids[i] != current_plate_ids[i] {
            proof {
                assert(tectonic_plate_ids@[i as int] != current_plate_ids@[i as int]);
                assert(tectonic_plate_ids@ != current_plate_ids@);
            }
            return Err(
                WorldgenError::InvalidLithosphere(
                    "historical morphology requires modern ownership projected from historical material",
                ),
            );
        }
        i = i + 1;
    }
    proof {
        assert(tectonic_plate_ids@ =~= current_plate_ids@);
    }
    let mut e: usize = 0;
    while e < event_samples.len()
        invariant
            count == sample_count,
            fragment_ids_len == sample_count,
            crust_kind_len == sample_count,
            count == current_plate_ids@.len(),
            count == tectonic_plate_ids@.len(),
            tectonic_plate_ids@ == current_plate_ids@,
            e <= event_samples@.len(),
            forall|j: int|
                0 <= j < e ==> #[trigger] event_samples@[j].0 < sample_count && event_samples@[j].1 < sample_count,
        decreases event_samples@.len() - e,
    {
        let (a, b) = event_samples[e];
        if a >= sample_count || b >= sample_count {
            proof {
                assert(event_samples@[e as int].0 >= sample_count || event_samples@[e as int].1 >= sample_count);
            }
            return Err(
                WorldgenError::InvalidLithosphere("historical morphology event geometry references an invalid sample"),
            );
        }
        e = e + 1;
    }
    Ok(())
}

} // verus!
