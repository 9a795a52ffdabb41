//! The event skeleton of the ancestral history: one event per plate pair
//! that shares a boundary, in pair order, then one capture event for every
//! ancestral plate merged into a group, in group order. Ages, displacements
//! and strengths are floating-point and are derived from the skeleton's
//! stream values outside this module.

use vstd::prelude::*;
use crate::fnv::{mix64, mix64_spec};
use crate::geology::{boundary_pair, boundary_pair_spec, BoundaryEdge};
use crate::historical::{event_kind_for_boundary, event_kind_spec, HistoricalEventKind};

verus! {

/// Lexicographic order on plate pairs.
pub open spec fn pair_before(a: (u16, u16), b: (u16, u16)) -> bool {
    a.0 < b.0 || (a.0 == b.0 && a.1 < b.1)
}

/// Edge `i` is the first edge of its plate pair.
pub open spec fn first_of_pair(edges: Seq<BoundaryEdge>, i: int) -> bool {
    forall|j: int| 0 <= j < i ==> boundary_pair_spec(#[trigger] edges[j]) != boundary_pair_spec(edges[i])
}

/// `reps` lists the first edge of every plate pair, in pair order.
pub open spec fn is_pair_representatives(edges: Seq<BoundaryEdge>, reps: Seq<usize>) -> bool {
    &&& forall|k: int| 0 <= k < reps.len() ==> (#[trigger] reps[k]) < edges.len() && first_of_pair(edges, reps[k] as int)
    &&& forall|k1: int, k2: int|
        0 <= k1 < k2 < reps.len() ==> pair_before(
            boundary_pair_spec(edges[#[trigger] reps[k1] as int]),
            boundary_pair_spec(edges[#[trigger] reps[k2] as int]),
        )
    &&& forall|i: int| 0 <= i < edges.len() && first_of_pair(edges, i) ==> exists|k: int| 0 <= k < reps.len() && reps[k] == i
}

/// The pair comes after the last listed pair (every pair does when none is listed).
spec fn above_last(last: Option<(u16, u16)>, q: (u16, u16)) -> bool {
    match last {
        Some(l) => pair_before(l, q),
        None => true,
    }
}

spec fn pair_rank(p: (u16, u16)) -> int {
    p.0 * 65536 + p.1 + 1
}

fn pair_is_before(a: (u16, u16), b: (u16, u16)) -> (before: bool)
    ensures
        before == pair_before(a, b),
{
    a.0 < b.0 || (a.0 == b.0 && a.1 < b.1)
}

/// The first boundary edge of every plate pair, in increasing pair order.
pub fn pair_representatives(edges: &Vec<BoundaryEdge>) -> (reps: Vec<usize>)
    ensures
        is_pair_representatives(edges@, reps@),
{
    let n = edges.len();
    let mut reps: Vec<usize> = Vec::new();
    let mut last: Option<(u16, u16)> = None;
    loop
        invariant
            n == edges@.len(),
            forall|k: int| 0 <= k < reps@.len() ==> (#[trigger] reps@[k]) < n && first_of_pair(edges@, reps@[k] as int),
            forall|k1: int, k2: int|
                0 <= k1 < k2 < reps@.len() ==> pair_before(
                    boundary_pair_spec(edges@[#[trigger] reps@[k1] as int]),
                    boundary_pair_spec(edges@[#[trigger] reps@[k2] as int]),
                ),
            reps@.len() == 0 <==> last is None,
            last matches Some(l) ==> l == boundary_pair_spec(edges@[reps@[reps@.len() - 1] as int]),
            forall|i: int|
                0 <= i < n && first_of_pair(edges@, i) && (last matches Some(l) && !pair_before(
                    l,
                    boundary_pair_spec(edges@[i]),
                )) ==> exists|k: int| 0 <= k < reps@.len() && reps@[k] == i,
        ensures
            is_pair_representatives(edges@, reps@),
        decreases 0x1_0000_0000 - match last {
            Some(l) => pair_rank(l),
            None => 0,
        },
    {
        let mut best: Option<((u16, u16), usize)> = None;
        let mut i: usize = 0;
        while i < n
            invariant
                n == edges@.len(),
                i <= n,
                match best {
                    Some((p, b)) => {
                        &&& b < i
                        &&& p == boundary_pair_spec(edges@[b as int])
                        &&& (last matches Some(l) ==> pair_before(l, p))
                        &&& first_of_pair(edges@, b as int)
                        &&& forall|j: int|
                            0 <= j < i && above_last(last, boundary_pair_spec(edges@[j]))
                                ==> !pair_before(boundary_pair_spec(#[trigger] edges@[j]), p)
                    },
                    None => forall|j: int|
                        0 <= j < i ==> !above_last(last, boundary_pair_spec(#[trigger] edges@[j])),
                },
            decreases n - i,
        {
            let p = boundary_pair(&edges[i]);
            let above = match last {
                Some(l) => pair_is_before(l, p),
                None => true,
            };
            if above {
                let better = match best {
                    Some((bp, _)) => pair_is_before(p, bp),
                    None => true,
                };
                if better {
                    proof {
                        assert forall|j: int| 0 <= j < i implies boundary_pair_spec(#[trigger] edges@[j])
                            != boundary_pair_spec(edges@[i as int]) by {
                        }
                    }
                    best = Some((p, i));
                }
            }
            i = i + 1;
        }
        match best {
            None => {
                proof {
                    assert(i == n);
                    assert(forall|j: int|
                        0 <= j < n ==> !above_last(last, boundary_pair_spec(#[trigger] edges@[j])));
                    assert forall|x: int| 0 <= x < n && first_of_pair(edges@, x) implies exists|k: int|
                        0 <= k < reps@.len() && reps@[k] == x by {
                        assert(!above_last(last, boundary_pair_spec(edges@[x])));
                    }
                }
                break ;
            },
            Some((p, b)) => {
                let ghost old_reps = reps@;
                let ghost old_last = last;
                reps.push(b);
                last = Some(p);
                proof {
                    assert forall|i: int|
                        0 <= i < n && first_of_pair(edges@, i) && !pair_before(p, boundary_pair_spec(edges@[i]))
                            implies exists|k: int| 0 <= k < reps@.len() && reps@[k] == i by {
                        let q = boundary_pair_spec(edges@[i]);
                        if old_last matches Some(l) && !pair_before(l, q) {
                            let k = choose|k: int| 0 <= k < old_reps.len() && old_reps[k] == i;
                            assert(reps@[k] == i);
                        } else {
                            assert(!pair_before(q, p));
                            assert(q == p);
                            if i < b {
                                assert(boundary_pair_spec(edges@[i]) != boundary_pair_spec(edges@[b as int]));
                            } else if b < i {
                                assert(boundary_pair_spec(edges@[b as int]) != boundary_pair_spec(edges@[i]));
                            }
                            assert(reps@[reps@.len() - 1] == i);
                        }
                    }
                    assert forall|k1: int, k2: int| 0 <= k1 < k2 < reps@.len() implies pair_before(
                        boundary_pair_spec(edges@[#[trigger] reps@[k1] as int]),
                        boundary_pair_spec(edges@[#[trigger] reps@[k2] as int]),
                    ) by {
                        if k2 == reps@.len() - 1 && k1 < k2 {
                            if k1 < old_reps.len() - 1 {
                                assert(pair_before(
                                    boundary_pair_spec(edges@[old_reps[k1] as int]),
                                    boundary_pair_spec(edges@[old_reps[old_reps.len() - 1] as int]),
                                ));
                            }
                        }
                    }
                }
            },
        }
    }
    reps
}

/// Plate `o` is the first (lowest) member of its group.
pub open spec fn group_leader(groups: Seq<u16>, o: int) -> bool {
    forall|j: int| 0 <= j < o ==> #[trigger] groups[j] != groups[o]
}

/// Capture order: by group, then by plate.
pub open spec fn capture_before(groups: Seq<u16>, o1: int, o2: int) -> bool {
    groups[o1] < groups[o2] || (groups[o1] == groups[o2] && o1 < o2)
}

/// `caps` lists every plate that is not the leader of its group, in capture order.
pub open spec fn is_capture_order(groups: Seq<u16>, caps: Seq<usize>) -> bool {
    &&& forall|k: int| 0 <= k < caps.len() ==> (#[trigger] caps[k]) < groups.len() && !group_leader(groups, caps[k] as int)
    &&& forall|k1: int, k2: int|
        0 <= k1 < k2 < caps.len() ==> capture_before(groups, #[trigger] caps[k1] as int, #[trigger] caps[k2] as int)
    &&& forall|o: int| 0 <= o < groups.len() && !group_leader(groups, o) ==> exists|k: int| 0 <= k < caps.len() && caps[k] == o
}

/// The plate comes after the last listed plate in capture order.
spec fn after_last_capture(groups: Seq<u16>, last: Option<usize>, o: int) -> bool {
    match last {
        Some(l) => capture_before(groups, l as int, o),
        None => true,
    }
}

spec fn capture_rank(groups: Seq<u16>, o: int) -> int {
    groups[o] * (groups.len() + 1) + o + 1
}

proof fn lemma_capture_rank_order(g1: int, o1: int, g2: int, o2: int, n: int)
    by (nonlinear_arith)
    requires
        0 <= o1 < n,
        0 <= o2 < n,
        0 <= g1 <= 65535,
        0 <= g2 <= 65535,
        g1 < g2 || (g1 == g2 && o1 < o2),
    ensures
        g1 * (n + 1) + o1 + 1 < g2 * (n + 1) + o2 + 1,
        g2 * (n + 1) + o2 + 1 <= (n + 1) * 65536,
{
}

proof fn lemma_capture_rank_bound(g: int, o: int, n: int)
    by (nonlinear_arith)
    requires
        0 <= o < n,
        0 <= g <= 65535,
    ensures
        0 < g * (n + 1) + o + 1 <= (n + 1) * 65536,
{
}

/// Which plates lead their group.
fn group_leaders(groups: &Vec<u16>) -> (leader: Vec<bool>)
    ensures
        leader@.len() == groups@.len(),
        forall|o: int| 0 <= o < groups@.len() ==> #[trigger] leader@[o] == group_leader(groups@, o),
{
    let n = groups.len();
    let mut leader: Vec<bool> = Vec::new();
    let mut o: usize = 0;
    while o < n
        invariant
            n == groups@.len(),
            o <= n,
            leader@.len() == o,
            forall|x: int| 0 <= x < o ==> #[trigger] leader@[x] == group_leader(groups@, x),
        decreases n - o,
    {
        let mut first = true;
        let mut j: usize = 0;
        while j < o
            invariant
                n == groups@.len(),
                o < n,
                j <= o,
                first == forall|y: int| 0 <= y < j ==> #[trigger] groups@[y] != groups@[o as int],
            decreases o - j,
        {
            if groups[j] == groups[o] {
                first = false;
            }
            j = j + 1;
        }
        leader.push(first);
        o = o + 1;
    }
    leader
}

/// Every plate that is not the first of its group, ordered by group and then by plate.
pub fn capture_order(groups: &Vec<u16>) -> (caps: Vec<usize>)
    ensures
        is_capture_order(groups@, caps@),
{
    let n = groups.len();
    let leader = group_leaders(groups);
    let mut caps: Vec<usize> = Vec::new();
    let mut last: Option<usize> = None;
    loop
        invariant
            n == groups@.len(),
            leader@.len() == n,
            forall|o: int| 0 <= o < n ==> #[trigger] leader@[o] == group_leader(groups@, o),
            forall|k: int| 0 <= k < caps@.len() ==> (#[trigger] caps@[k]) < n && !group_leader(groups@, caps@[k] as int),
            forall|k1: int, k2: int|
                0 <= k1 < k2 < caps@.len() ==> capture_before(groups@, #[trigger] caps@[k1] as int, #[trigger] caps@[k2] as int),
            caps@.len() == 0 <==> last is None,
            last matches Some(l) ==> l == caps@[caps@.len() - 1] && l < n,
            forall|o: int|
                0 <= o < n && !group_leader(groups@, o) && !after_last_capture(groups@, last, o) ==> exists|k: int|
                    0 <= k < caps@.len() && caps@[k] == o,
        ensures
            is_capture_order(groups@, caps@),
        decreases (n + 1) * 65536 + 1 - match last {
            Some(l) => capture_rank(groups@, l as int),
            None => 0,
        },
    {
        let mut best: Option<usize> = None;
        let mut o: usize = 0;
        while o < n
            invariant
                n == groups@.len(),
                leader@.len() == n,
                forall|x: int| 0 <= x < n ==> #[trigger] leader@[x] == group_leader(groups@, x),
                last matches Some(l) ==> l < n,
                o <= n,
                match best {
                    Some(b) => {
                        &&& b < o
                        &&& !group_leader(groups@, b as int)
                        &&& after_last_capture(groups@, last, b as int)
                        &&& forall|x: int|
                            0 <= x < o && !group_leader(groups@, x) && after_last_capture(groups@, last, x) ==> !capture_before(
                                groups@,
                                x,
                                b as int,
                            )
                    },
                    None => forall|x: int|
                        0 <= x < o ==> group_leader(groups@, x) || !after_last_capture(groups@, last, x),
                },
            decreases n - o,
        {
            if !leader[o] {
                let after = match last {
                    Some(l) => groups[l] < groups[o] || (groups[l] == groups[o] && l < o),
                    None => true,
                };
                if after {
                    let better = match best {
                        Some(b) => groups[o] < groups[b] || (groups[o] == groups[b] && o < b),
                        None => true,
                    };
                    if better {
                        best = Some(o);
                    }
                }
            }
            o = o + 1;
        }
        match best {
            None => {
                proof {
                    assert forall|x: int| 0 <= x < n && !group_leader(groups@, x) implies exists|k: int|
                        0 <= k < caps@.len() && caps@[k] == x by {
                        assert(!after_last_capture(groups@, last, x));
                    }
                }
                break ;
            },
            Some(b) => {
                let ghost old_caps = caps@;
                let ghost old_last = last;
                caps.push(b);
                last = Some(b);
                proof {
                    lemma_capture_rank_bound(groups@[b as int] as int, b as int, n as int);
                    if let Some(l) = old_last {
                        lemma_capture_rank_order(
                            groups@[l as int] as int,
                            l as int,
                            groups@[b as int] as int,
                            b as int,
                            n as int,
                        );
                    }
                    assert forall|k1: int, k2: int| 0 <= k1 < k2 < caps@.len() implies capture_before(
                        groups@,
                        #[trigger] caps@[k1] as int,
                        #[trigger] caps@[k2] as int,
                    ) by {
                        if k2 == caps@.len() - 1 && k1 < old_caps.len() - 1 {
                            assert(capture_before(
                                groups@,
                                old_caps[k1] as int,
                                old_caps[old_caps.len() - 1] as int,
                            ));
                        }
                    }
                    assert forall|x: int|
                        0 <= x < n && !group_leader(groups@, x) && !after_last_capture(groups@, last, x) implies exists|k: int|
                        0 <= k < caps@.len() && caps@[k] == x by {
                        if !after_last_capture(groups@, old_last, x) {
                            let k = choose|k: int| 0 <= k < old_caps.len() && old_caps[k] == x;
                            assert(caps@[k] == x);
                        } else {
                            assert(x == b);
                            assert(caps@[caps@.len() - 1] == x);
                        }
                    }
                }
            },
        }
    }
    caps
}

/// Index of the first of the first `n` entries equal to `value`, or -1.
pub open spec fn first_with(values: Seq<u16>, value: u16, n: int) -> int
    decreases n,
{
    if n <= 0 {
        -1
    } else {
        let f = first_with(values, value, n - 1);
        if f >= 0 {
            f
        } else if values[n - 1] == value {
            n - 1
        } else {
            -1
        }
    }
}

proof fn lemma_first_with(values: Seq<u16>, value: u16, n: int)
    requires
        0 <= n <= values.len(),
    ensures
        -1 <= first_with(values, value, n) < n,
        first_with(values, value, n) >= 0 ==> values[first_with(values, value, n)] == value,
        forall|j: int|
            0 <= j < n && (first_with(values, value, n) < 0 || j < first_with(values, value, n)) ==> #[trigger] values[j]
                != value,
    decreases n,
{
    if n > 0 {
        lemma_first_with(values, value, n - 1);
    }
}

proof fn lemma_first_with_prefix(values: Seq<u16>, value: u16, n: int, m: int)
    requires
        0 <= m <= n,
        first_with(values, value, m) >= 0,
    ensures
        first_with(values, value, n) == first_with(values, value, m),
    decreases n - m,
{
    if n > m {
        lemma_first_with_prefix(values, value, n - 1, m);
    }
}

/// Event stream of a plate pair.
pub open spec fn pair_stream(seed: u64, a: u16, b: u16) -> u64 {
    seed ^ vstd::wrapping::u64_specs::wrapping_mul(a as u64, 0x9e37_79b9_7f4a_7c15)
        ^ vstd::wrapping::u64_specs::wrapping_mul(b as u64, 0xbf58_476d_1ce4_e5b9)
}

/// Event stream of a capture of plate `captured` by the group led by `anchor`.
pub open spec fn capture_stream(seed: u64, anchor: u16, captured: u16) -> u64 {
    seed ^ vstd::wrapping::u64_specs::wrapping_mul(anchor as u64, 0xd6e8_feb8_6659_fd93)
        ^ vstd::wrapping::u64_specs::wrapping_mul(captured as u64, 0xa5a3_56d9_2d85_85ad)
}

/// Integer part of one historical event; its age, displacement and strength
/// are drawn from `stream` (and, for a boundary event, the boundary's rates).
#[derive(Clone, Copy, Debug, PartialEq, Eq)]
pub struct EventSkeleton {
    pub id: u32,
    pub kind: HistoricalEventKind,
    pub epoch: u8,
    pub stream: u64,
    pub plate_a: u16,
    pub plate_b: u16,
    pub fragment_a: u16,
    pub fragment_b: u16,
    pub geometry_sample_a: u32,
    pub geometry_sample_b: u32,
    /// Boundary edge the event was drawn from; `None` for a capture.
    pub boundary: Option<usize>,
}

/// Event drawn from the representative edge `r` of its plate pair.
pub open spec fn boundary_event(
    edges: Seq<BoundaryEdge>,
    fragment_ids: Seq<u16>,
    crust_kind: Seq<u8>,
    seed: u64,
    r: int,
    id: int,
) -> EventSkeleton {
    let e = edges[r];
    let pair = boundary_pair_spec(e);
    let stream = pair_stream(seed, pair.0, pair.1);
    EventSkeleton {
        id: id as u32,
        kind: event_kind_spec(e.kind, crust_kind[e.sample_a as int], crust_kind[e.sample_b as int]),
        epoch: (mix64_spec(stream) % 8) as u8,
        stream,
        plate_a: pair.0,
        plate_b: pair.1,
        fragment_a: fragment_ids[e.sample_a as int],
        fragment_b: fragment_ids[e.sample_b as int],
        geometry_sample_a: e.sample_a,
        geometry_sample_b: e.sample_b,
        boundary: Some(r as usize),
    }
}

/// Leader of the group of plate `o`.
pub open spec fn group_anchor(groups: Seq<u16>, o: int) -> int {
    first_with(groups, groups[o], groups.len() as int)
}

/// Sample `s`'s fragment starts on a sample of plate `anchor`.
pub open spec fn fragment_starts_on(fragment_ids: Seq<u16>, plate_ids: Seq<u16>, anchor: u16, s: int) -> bool {
    let t = first_with(fragment_ids, fragment_ids[s], fragment_ids.len() as int);
    0 <= t < plate_ids.len() && plate_ids[t] == anchor
}

/// First of the first `n` samples whose fragment starts on plate `anchor`, or -1.
pub open spec fn first_anchor_sample(fragment_ids: Seq<u16>, plate_ids: Seq<u16>, anchor: u16, n: int) -> int
    decreases n,
{
    if n <= 0 {
        -1
    } else {
        let f = first_anchor_sample(fragment_ids, plate_ids, anchor, n - 1);
        if f >= 0 {
            f
        } else if fragment_starts_on(fragment_ids, plate_ids, anchor, n - 1) {
            n - 1
        } else {
            -1
        }
    }
}

/// Fragment of the first sample whose fragment starts on a sample of plate
/// `anchor`; 0 when there is none.
pub open spec fn anchor_fragment(fragment_ids: Seq<u16>, plate_ids: Seq<u16>, anchor: u16) -> u16 {
    let s = first_anchor_sample(fragment_ids, plate_ids, anchor, fragment_ids.len() as int);
    if s >= 0 {
        fragment_ids[s]
    } else {
        0
    }
}

/// Fragment of the first sample of plate `captured`; `fallback` when it owns none.
pub open spec fn captured_fragment(fragment_ids: Seq<u16>, plate_ids: Seq<u16>, captured: u16, fallback: u16) -> u16 {
    let s = first_with(plate_ids, captured, plate_ids.len() as int);
    if s >= 0 {
        fragment_ids[s]
    } else {
        fallback
    }
}

/// Capture of plate `o` by the leader of its group.
pub open spec fn capture_event(
    groups: Seq<u16>,
    fragment_ids: Seq<u16>,
    plate_ids: Seq<u16>,
    seed_samples: Seq<u32>,
    seed: u64,
    o: int,
    id: int,
) -> EventSkeleton {
    let anchor = group_anchor(groups, o);
    let fragment_a = anchor_fragment(fragment_ids, plate_ids, anchor as u16);
    EventSkeleton {
        id: id as u32,
        kind: HistoricalEventKind::Capture,
        epoch: 0,
        stream: capture_stream(seed, anchor as u16, o as u16),
        plate_a: anchor as u16,
        plate_b: o as u16,
        fragment_a,
        fragment_b: captured_fragment(fragment_ids, plate_ids, o as u16, fragment_a),
        geometry_sample_a: seed_samples[anchor],
        geometry_sample_b: seed_samples[o],
        boundary: None,
    }
}

/// The event of a boundary joins its plate pair, lower id first, at the two
/// samples of the representative edge and their fragments; its kind follows
/// the edge's motion and the crust at both samples, its epoch lies in the
/// schedule, and it records the edge it was drawn from.
pub proof fn lemma_boundary_event_fields(
    edges: Seq<BoundaryEdge>,
    fragment_ids: Seq<u16>,
    crust_kind: Seq<u8>,
    seed: u64,
    r: int,
    id: int,
)
    ensures
        ({
            let ev = boundary_event(edges, fragment_ids, crust_kind, seed, r, id);
            let e = edges[r];
            &&& ev.plate_a <= ev.plate_b
            &&& (ev.plate_a == e.plate_a && ev.plate_b == e.plate_b) || (ev.plate_a == e.plate_b && ev.plate_b
                == e.plate_a)
            &&& ev.geometry_sample_a == e.sample_a && ev.geometry_sample_b == e.sample_b
            &&& ev.fragment_a == fragment_ids[e.sample_a as int] && ev.fragment_b == fragment_ids[e.sample_b as int]
            &&& ev.kind == event_kind_spec(e.kind, crust_kind[e.sample_a as int], crust_kind[e.sample_b as int])
            &&& ev.epoch < 8
            &&& ev.boundary == Some(r as usize)
            &&& ev.stream == pair_stream(seed, ev.plate_a, ev.plate_b)
        }),
{
}

/// The capture of a plate that does not lead its group is a capture event
/// at epoch 0 whose first plate is the group's leader: the lowest plate of
/// the same group, below the captured one; it records no boundary.
pub proof fn lemma_capture_event_fields(
    groups: Seq<u16>,
    fragment_ids: Seq<u16>,
    plate_ids: Seq<u16>,
    seed_samples: Seq<u32>,
    seed: u64,
    o: int,
    id: int,
)
    requires
        0 <= o < groups.len(),
        groups.len() <= 65536,
        !group_leader(groups, o),
    ensures
        ({
            let ev = capture_event(groups, fragment_ids, plate_ids, seed_samples, seed, o, id);
            &&& ev.kind == HistoricalEventKind::Capture
            &&& ev.epoch == 0
            &&& ev.plate_b == o
            &&& ev.plate_a < o
            &&& groups[ev.plate_a as int] == groups[o]
            &&& forall|j: int| 0 <= j < ev.plate_a ==> #[trigger] groups[j] != groups[o]
            &&& ev.boundary is None
        }),
{
    lemma_first_with(groups, groups[o], groups.len() as int);
    let a = first_with(groups, groups[o], groups.len() as int);
    let j = choose|j: int| 0 <= j < o && #[trigger] groups[j] == groups[o];
    assert(a >= 0 && a <= j);
}

fn first_with_value(values: &Vec<u16>, value: u16) -> (index: Option<usize>)
    ensures
        match index {
            Some(i) => i as int == first_with(values@, value, values@.len() as int),
            None => first_with(values@, value, values@.len() as int) < 0,
        },
{
    let mut i: usize = 0;
    while i < values.len()
        invariant
            i <= values@.len(),
            first_with(values@, value, i as int) < 0,
        decreases values@.len() - i,
    {
        if values[i] == value {
            proof {
                assert(first_with(values@, value, i + 1) == i);
                lemma_first_with_prefix(values@, value, values@.len() as int, i + 1);
            }
            return Some(i);
        }
        i = i + 1;
    }
    None
}

fn anchor_fragment_of(fragment_ids: &Vec<u16>, plate_ids: &Vec<u16>, anchor: u16) -> (fragment: u16)
    ensures
        fragment == anchor_fragment(fragment_ids@, plate_ids@, anchor),
{
    let mut s: usize = 0;
    while s < fragment_ids.len()
        invariant
            s <= fragment_ids@.len(),
            first_anchor_sample(fragment_ids@, plate_ids@, anchor, s as int) < 0,
        decreases fragment_ids@.len() - s,
    {
        let first = first_with_value(fragment_ids, fragment_ids[s]);
        let hit = match first {
            Some(t) => t < plate_ids.len() && plate_ids[t] == anchor,
            None => false,
        };
        if hit {
            proof {
                assert(first_anchor_sample(fragment_ids@, plate_ids@, anchor, s + 1) == s);
                lemma_first_anchor_prefix(fragment_ids@, plate_ids@, anchor, fragment_ids@.len() as int, s + 1);
            }
            return fragment_ids[s];
        }
        s = s + 1;
    }
    0
}

proof fn lemma_first_anchor_prefix(fragment_ids: Seq<u16>, plate_ids: Seq<u16>, anchor: u16, n: int, m: int)
    requires
        0 <= m <= n,
        first_anchor_sample(fragment_ids, plate_ids, anchor, m) >= 0,
    ensures
        first_anchor_sample(fragment_ids, plate_ids, anchor, n) == first_anchor_sample(fragment_ids, plate_ids, anchor, m),
    decreases n - m,
{
    if n > m {
        lemma_first_anchor_prefix(fragment_ids, plate_ids, anchor, n - 1, m);
    }
}

/// The event skeleton of the ancestral history: one event per plate pair
/// that shares a boundary, drawn from the pair's first edge, in pair order;
/// then one capture per plate that is not the first of its group, in group
/// order. Event ids count up from zero in that order.
pub fn build_event_skeletons(
    edges: &Vec<BoundaryEdge>,
    fragment_ids: &Vec<u16>,
    crust_kind: &Vec<u8>,
    groups: &Vec<u16>,
    plate_ids: &Vec<u16>,
    seed_samples: &Vec<u32>,
    seed: u64,
) -> (events: Vec<EventSkeleton>)
    requires
        forall|e: int|
            0 <= e < edges@.len() ==> {
                &&& (#[trigger] edges@[e]).sample_a < fragment_ids@.len()
                &&& edges@[e].sample_b < fragment_ids@.len()
                &&& edges@[e].sample_a < crust_kind@.len()
                &&& edges@[e].sample_b < crust_kind@.len()
            },
        forall|o: int|
            0 <= o < groups@.len() && !group_leader(groups@, o) ==> #[trigger] first_with(
                plate_ids@,
                o as u16,
                plate_ids@.len() as int,
            ) < fragment_ids@.len(),
        seed_samples@.len() == groups@.len(),
        groups@.len() <= 65536,
        edges@.len() + groups@.len() <= u32::MAX,
    ensures
        exists|reps: Seq<usize>, caps: Seq<usize>|
            {
                &&& is_pair_representatives(edges@, reps)
                &&& is_capture_order(groups@, caps)
                &&& events@.len() == reps.len() + caps.len()
                &&& forall|k: int|
                    0 <= k < reps.len() ==> #[trigger] events@[k] == boundary_event(
                        edges@,
                        fragment_ids@,
                        crust_kind@,
                        seed,
                        reps[k] as int,
                        k,
                    )
                &&& forall|k: int|
                    0 <= k < caps.len() ==> #[trigger] events@[reps.len() + k] == capture_event(
                        groups@,
                        fragment_ids@,
                        plate_ids@,
                        seed_samples@,
                        seed,
                        caps[k] as int,
                        reps.len() + k,
                    )
            },
{
    let reps = pair_representatives(edges);
    let mut events: Vec<EventSkeleton> = Vec::new();
    let mut k: usize = 0;
    proof {
        // distinct first edges, so no more representatives than edges
        lemma_reps_bounded(edges@, reps@);
    }
    while k < reps.len()
        invariant
            is_pair_representatives(edges@, reps@),
            reps@.len() <= edges@.len(),
            k <= reps@.len(),
            events@.len() == k,
            forall|e: int|
                0 <= e < edges@.len() ==> {
                    &&& (#[trigger] edges@[e]).sample_a < fragment_ids@.len()
                    &&& edges@[e].sample_b < fragment_ids@.len()
                    &&& edges@[e].sample_a < crust_kind@.len()
                    &&& edges@[e].sample_b < crust_kind@.len()
                },
            edges@.len() + groups@.len() <= u32::MAX,
            forall|j: int|
                0 <= j < k ==> #[trigger] events@[j] == boundary_event(
                    edges@,
                    fragment_ids@,
                    crust_kind@,
                    seed,
                    reps@[j] as int,
                    j,
                ),
        decreases reps@.len() - k,
    {
        let r = reps[k];
        let e = edges[r];
        let (a, b) = boundary_pair(&e);
        let stream = seed ^ (a as u64).wrapping_mul(0x9e37_79b9_7f4a_7c15) ^ (b as u64).wrapping_mul(
            0xbf58_476d_1ce4_e5b9,
        );
        let epoch = (mix64(stream) % 8) as u8;
        let kind = event_kind_for_boundary(e.kind, crust_kind[e.sample_a as usize], crust_kind[e.sample_b as usize]);
        events.push(
            EventSkeleton {
                id: k as u32,
                kind,
                epoch,
                stream,
                plate_a: a,
                plate_b: b,
                fragment_a: fragment_ids[e.sample_a as usize],
                fragment_b: fragment_ids[e.sample_b as usize],
                geometry_sample_a: e.sample_a,
                geometry_sample_b: e.sample_b,
                boundary: Some(r),
            },
        );
        k = k + 1;
    }
    let caps = capture_order(groups);
    proof {
        lemma_caps_bounded(groups@, caps@);
    }
    let base = events.len();
    let mut c: usize = 0;
    while c < caps.len()
        invariant
            is_capture_order(groups@, caps@),
            caps@.len() <= groups@.len(),
            base == reps@.len(),
            base <= edges@.len(),
            c <= caps@.len(),
            events@.len() == base + c,
            forall|o: int|
                0 <= o < groups@.len() && !group_leader(groups@, o) ==> #[trigger] first_with(
                    plate_ids@,
                    o as u16,
                    plate_ids@.len() as int,
                ) < fragment_ids@.len(),
            seed_samples@.len() == groups@.len(),
            groups@.len() <= 65536,
            edges@.len() + groups@.len() <= u32::MAX,
            forall|j: int|
                0 <= j < base ==> #[trigger] events@[j] == boundary_event(
                    edges@,
                    fragment_ids@,
                    crust_kind@,
                    seed,
                    reps@[j] as int,
                    j,
                ),
            forall|j: int|
                0 <= j < c ==> #[trigger] events@[base + j] == capture_event(
                    groups@,
                    fragment_ids@,
                    plate_ids@,
                    seed_samples@,
                    seed,
                    caps@[j] as int,
                    base + j,
                ),
        decreases caps@.len() - c,
    {
        let o = caps[c];
        proof {
            lemma_first_with(groups@, groups@[o as int], groups@.len() as int);
        }
        let anchor_index = match first_with_value(groups, groups[o]) {
            Some(i) => i,
            // never taken: plate `o` belongs to its own group
            None => 0,
        };
        let anchor = anchor_index as u16;
        let fragment_a = anchor_fragment_of(fragment_ids, plate_ids, anchor);
        let captured = o as u16;
        proof {
            lemma_first_with(plate_ids@, captured, plate_ids@.len() as int);
        }
        let fragment_b = match first_with_value(plate_ids, captured) {
            Some(s) => fragment_ids[s],
            None => fragment_a,
        };
        let stream = seed ^ (anchor as u64).wrapping_mul(0xd6e8_feb8_6659_fd93) ^ (captured as u64).wrapping_mul(
            0xa5a3_56d9_2d85_85ad,
        );
        let ghost before = events@;
        events.push(
            EventSkeleton {
                id: (base + c) as u32,
                kind: HistoricalEventKind::Capture,
                epoch: 0,
                stream,
                plate_a: anchor,
                plate_b: captured,
                fragment_a,
                fragment_b,
                geometry_sample_a: seed_samples[anchor_index],
                geometry_sample_b: seed_samples[o],
                boundary: None,
            },
        );
        proof {
            assert(events@[base + c] == capture_event(
                groups@,
                fragment_ids@,
                plate_ids@,
                seed_samples@,
                seed,
                o as int,
                base + c,
            ));
            assert forall|j: int| 0 <= j < base implies #[trigger] events@[j] == boundary_event(
                edges@,
                fragment_ids@,
                crust_kind@,
                seed,
                reps@[j] as int,
                j,
            ) by {
                assert(events@[j] == before[j]);
            }
        }
        c = c + 1;
    }
    proof {
        assert forall|j: int| 0 <= j < caps@.len() implies #[trigger] events@[reps@.len() + j] == capture_event(
            groups@,
            fragment_ids@,
            plate_ids@,
            seed_samples@,
            seed,
            caps@[j] as int,
            reps@.len() + j,
        ) by {}
    }
    events
}

/// Representatives are distinct edges, so there are at most as many as edges.
proof fn lemma_reps_bounded(edges: Seq<BoundaryEdge>, reps: Seq<usize>)
    requires
        is_pair_representatives(edges, reps),
    ensures
        reps.len() <= edges.len(),
{
    lemma_distinct_below_bounded(reps, edges.len());
}

/// Captured plates are distinct plates, so there are at most as many as plates.
proof fn lemma_caps_bounded(groups: Seq<u16>, caps: Seq<usize>)
    requires
        is_capture_order(groups, caps),
    ensures
        caps.len() <= groups.len(),
{
    lemma_distinct_below_bounded(caps, groups.len());
}

proof fn lemma_distinct_below_bounded(s: Seq<usize>, bound: nat)
    requires
        forall|k: int| 0 <= k < s.len() ==> (#[trigger] s[k]) < bound,
        forall|k1: int, k2: int| 0 <= k1 < k2 < s.len() ==> #[trigger] s[k1] != #[trigger] s[k2],
    ensures
        s.len() <= bound,
{
    let t = s.map_values(|x: usize| x as int);
    assert(t.no_duplicates()) by {
        assert forall|i: int, j: int| 0 <= i < t.len() && 0 <= j < t.len() && i != j implies t[i] != t[j] by {
            if i < j {
                assert(s[i] != s[j]);
            } else {
                assert(s[j] != s[i]);
            }
        }
    }
    t.unique_seq_to_set();
    vstd::set_lib::lemma_int_range(0, bound as int);
    assert(t.to_set().subset_of(vstd::set_lib::set_int_range(0, bound as int))) by {
        assert forall|v: int| t.to_set().contains(v) implies vstd::set_lib::set_int_range(0, bound as int).contains(v) by {
            assert(t.contains(v));
            let k = choose|k: int| 0 <= k < t.len() && t[k] == v;
            assert(t[k] == s[k] as int);
        }
    }
    vstd::set_lib::lemma_len_subset(t.to_set(), vstd::set_lib::set_int_range(0, bound as int));
}

} // verus!
