//! Integer kernels of the drainage topology stage: the check that the
//! processing order drains downstream, outlet and outlet-kind resolution,
//! basin numbering, the land/ocean/depression counts and the stage digest.

use vstd::prelude::*;
use crate::fnv::{
    fnv_fold, fnv_update, fnv_update_u32, fnv_update_u64, fnv_update_words32, fnv_update_words64, le_bytes, le_words32,
    le_words64, lemma_fnv_fold_concat, FNV_OFFSET_BASIS,
};
use crate::seed::{derive_stage_seed, stage_seed_spec};
use vstd::string::StringSliceAdditionalSpecFns;
use crate::graph::count_true;

verus! {

/// Stage id of the drainage topology.
pub const DRAINAGE_STAGE_ID: &'static str = "hydrology:drainage-topology";

/// Version of the drainage topology stage.
pub const DRAINAGE_STAGE_VERSION: u32 = 1;

/// Namespace of the drainage stage seed.
pub const DRAINAGE_NAMESPACE: &'static str = "hydrology:drainage-topology:v1";

/// Sample id that stands for "no sample".
pub const INVALID_SAMPLE_ID: u32 = 0xffff_ffff;

/// The sample has no resolved outlet.
pub const DRAINAGE_OUTLET_NONE: u8 = 0;

/// The sample drains to the ocean.
pub const DRAINAGE_OUTLET_OCEAN: u8 = 1;

/// The sample drains to an internal (endorheic) sink.
pub const DRAINAGE_OUTLET_INTERNAL: u8 = 2;

/// Request of the drainage topology stage.
#[derive(Clone, Debug, PartialEq, Eq)]
pub struct DrainageRequest {
    pub seed: String,
}

impl DrainageRequest {
    /// A drainage request for `seed`.
    pub fn new(seed: &str) -> (request: Self)
        ensures
            request.seed@ == seed@,
    {
        DrainageRequest { seed: seed.to_owned() }
    }
}

/// Index of the last occurrence of sample `s` in `order`, or -1.
pub open spec fn last_position(order: Seq<u32>, s: int) -> int
    decreases order.len(),
{
    if order.len() == 0 {
        -1
    } else if order.last() == s {
        order.len() - 1
    } else {
        last_position(order.drop_last(), s)
    }
}

proof fn lemma_last_position(order: Seq<u32>, s: int)
    ensures
        -1 <= last_position(order, s) < order.len(),
        last_position(order, s) >= 0 ==> order[last_position(order, s)] == s,
        forall|k: int| last_position(order, s) < k < order.len() ==> order[k] != s,
        last_position(order, s) < 0 ==> forall|k: int| 0 <= k < order.len() ==> order[k] != s,
    decreases order.len(),
{
    if order.len() > 0 && order.last() != s {
        let t = order.drop_last();
        lemma_last_position(t, s);
        assert forall|k: int| last_position(order, s) < k < order.len() implies order[k] != s by {
            if k < t.len() {
                assert(order[k] == t[k]);
            }
        }
        assert forall|k: int| last_position(order, s) < 0 && 0 <= k < order.len() implies order[k] != s by {
            if k < t.len() {
                assert(order[k] == t[k]);
            }
        }
    }
}

/// The sample at position `k` of `order` either has no listed land receiver
/// or precedes it (by last occurrence).
pub open spec fn precedes_receiver(submerged: Seq<u8>, receiver: Seq<u32>, order: Seq<u32>, k: int) -> bool {
    let s = order[k] as int;
    let r = receiver[s];
    r == INVALID_SAMPLE_ID || submerged[r as int] != 0 || last_position(order, r as int) < 0
        || last_position(order, s) < last_position(order, r as int)
}

/// Every land sample of `order` whose receiver is a land sample of `order`
/// comes strictly before that receiver (by last occurrence).
pub open spec fn drains_downstream(submerged: Seq<u8>, receiver: Seq<u32>, order: Seq<u32>) -> bool {
    forall|k: int| 0 <= k < order.len() ==> #[trigger] precedes_receiver(submerged, receiver, order, k)
}

/// Checks that the receiver graph is acyclic in the processing order: each
/// listed land sample precedes its listed land receiver.
pub fn check_drainage_order(submerged: &Vec<u8>, receiver: &Vec<u32>, order: &Vec<u32>) -> (result: Result<
    (),
    &'static str,
>)
    requires
        submerged@.len() == receiver@.len(),
        receiver@.len() <= u32::MAX,
        order@.len() < u32::MAX,
        forall|k: int| 0 <= k < order@.len() ==> (#[trigger] order@[k]) < receiver@.len(),
        forall|k: int|
            0 <= k < order@.len() ==> receiver@[#[trigger] order@[k] as int] == INVALID_SAMPLE_ID
                || receiver@[order@[k] as int] < receiver@.len(),
    ensures
        result == if drains_downstream(submerged@, receiver@, order@) {
            Ok::<(), &'static str>(())
        } else {
            Err("drainage receiver graph is not acyclic in processing order")
        },
{
    let n = receiver.len();
    let mut position: Vec<u32> = vec![INVALID_SAMPLE_ID; n];
    let mut k: usize = 0;
    while k < order.len()
        invariant
            n == receiver@.len(),
            position@.len() == n,
            k <= order@.len() < u32::MAX,
            forall|j: int| 0 <= j < order@.len() ==> (#[trigger] order@[j]) < n,
            forall|v: int|
                0 <= v < n ==> #[trigger] position@[v] == if last_position(order@.take(k as int), v) >= 0 {
                    last_position(order@.take(k as int), v)
                } else {
                    INVALID_SAMPLE_ID as int
                },
        decreases order@.len() - k,
    {
        let sample = order[k];
        proof {
            assert(order@.take(k + 1).drop_last() =~= order@.take(k as int));
            assert forall|v: int| 0 <= v < n implies last_position(order@.take(k + 1), v) == if v == sample {
                k as int
            } else {
                last_position(order@.take(k as int), v)
            } by {}
        }
        position.set(sample as usize, k as u32);
        k = k + 1;
    }
    proof {
        assert(order@.take(k as int) =~= order@);
    }
    let mut j: usize = 0;
    while j < order.len()
        invariant
            n == receiver@.len(),
            n == submerged@.len(),
            position@.len() == n,
            j <= order@.len() < u32::MAX,
            forall|t: int| 0 <= t < order@.len() ==> (#[trigger] order@[t]) < n,
            forall|t: int|
                0 <= t < order@.len() ==> receiver@[#[trigger] order@[t] as int] == INVALID_SAMPLE_ID
                    || receiver@[order@[t] as int] < n,
            forall|v: int|
                0 <= v < n ==> #[trigger] position@[v] == if last_position(order@, v) >= 0 {
                    last_position(order@, v)
                } else {
                    INVALID_SAMPLE_ID as int
                },
            forall|t: int| 0 <= t < j ==> #[trigger] precedes_receiver(submerged@, receiver@, order@, t),
        decreases order@.len() - j,
    {
        let sample = order[j];
        let r = receiver[sample as usize];
        proof {
            lemma_last_position(order@, sample as int);
            lemma_last_position(order@, r as int);
        }
        if r != INVALID_SAMPLE_ID && submerged[r as usize] == 0 {
            if position[sample as usize] >= position[r as usize] {
                proof {
                    assert(!precedes_receiver(submerged@, receiver@, order@, j as int));
                }
                return Err("drainage receiver graph is not acyclic in processing order");
            }
        }
        j = j + 1;
    }
    Ok(())
}

/// Ocean samples and land samples without a receiver end their own flow path.
pub open spec fn is_terminal(submerged: Seq<u8>, receiver: Seq<u32>, i: int) -> bool {
    submerged[i] != 0 || receiver[i] == INVALID_SAMPLE_ID
}

/// Outlet kind that a terminal sample gives to everything draining into it:
/// ocean for submerged samples, its flood kind for land, internal when the
/// flood left it unresolved.
pub open spec fn terminal_kind(submerged: Seq<u8>, flood_kind: Seq<u8>, t: int) -> u8 {
    if submerged[t] != 0 {
        DRAINAGE_OUTLET_OCEAN
    } else if flood_kind[t] == DRAINAGE_OUTLET_NONE {
        DRAINAGE_OUTLET_INTERNAL
    } else {
        flood_kind[t]
    }
}

/// Every flowing land sample whose receiver also flows is listed before that
/// receiver (by last occurrence), so reverse processing meets the receiver first.
pub open spec fn resolves_in_order(submerged: Seq<u8>, receiver: Seq<u32>, order: Seq<u32>) -> bool {
    forall|i: int|
        0 <= i < receiver.len() && !is_terminal(submerged, receiver, i) && !is_terminal(
            submerged,
            receiver,
            #[trigger] receiver[i] as int,
        ) ==> last_position(order, i) < last_position(order, receiver[i] as int)
}

/// Outlet sample and outlet kind of every sample.
pub struct OutletResolution {
    pub outlet_sample: Vec<u32>,
    pub outlet_kind: Vec<u8>,
}

/// `outlet` sends every terminal sample to itself, every other sample to the
/// outlet of its receiver, and only to terminal samples.
pub open spec fn outlets_follow_receivers(submerged: Seq<u8>, receiver: Seq<u32>, outlet: Seq<u32>) -> bool {
    &&& outlet.len() == receiver.len()
    &&& forall|i: int|
        0 <= i < receiver.len() ==> {
            &&& (#[trigger] outlet[i]) < receiver.len()
            &&& is_terminal(submerged, receiver, outlet[i] as int)
            &&& is_terminal(submerged, receiver, i) ==> outlet[i] == i
            &&& !is_terminal(submerged, receiver, i) ==> outlet[i] == outlet[receiver[i] as int]
        }
}

/// Resolves the outlet of every sample by walking `order` backwards (receivers
/// first), then gives each land sample the kind of its outlet.
pub fn resolve_outlets(
    submerged: &Vec<u8>,
    receiver: &Vec<u32>,
    flood_kind: &Vec<u8>,
    order: &Vec<u32>,
) -> (result: Result<OutletResolution, &'static str>)
    requires
        submerged@.len() == receiver@.len(),
        flood_kind@.len() == receiver@.len(),
        receiver@.len() < u32::MAX,
        forall|k: int| 0 <= k < order@.len() ==> (#[trigger] order@[k]) < receiver@.len(),
        forall|i: int|
            0 <= i < receiver@.len() && !is_terminal(submerged@, receiver@, i) ==> (#[trigger] receiver@[i])
                < receiver@.len() && last_position(order@, i) >= 0,
    ensures
        result is Ok <==> resolves_in_order(submerged@, receiver@, order@),
        result matches Err(message) ==> message == "drainage downstream outlet was not resolved first",
        result matches Ok(resolution) ==> {
            &&& outlets_follow_receivers(submerged@, receiver@, resolution.outlet_sample@)
            &&& resolution.outlet_kind@.len() == receiver@.len()
            &&& forall|i: int|
                0 <= i < receiver@.len() ==> #[trigger] resolution.outlet_kind@[i] == if submerged@[i] != 0 {
                    DRAINAGE_OUTLET_OCEAN
                } else {
                    terminal_kind(submerged@, flood_kind@, resolution.outlet_sample@[i] as int)
                }
        },
{
    let n = receiver.len();
    let mut outlet: Vec<u32> = vec![INVALID_SAMPLE_ID; n];
    let mut kind: Vec<u8> = flood_kind.clone();
    let mut i: usize = 0;
    while i < n
        invariant
            n == receiver@.len(),
            n == submerged@.len(),
            n == flood_kind@.len(),
            n < u32::MAX,
            i <= n,
            outlet@.len() == n,
            kind@.len() == n,
            forall|v: int|
                0 <= v < n ==> #[trigger] outlet@[v] == if v < i && is_terminal(submerged@, receiver@, v) {
                    v
                } else {
                    INVALID_SAMPLE_ID as int
                },
            forall|v: int|
                0 <= v < n ==> #[trigger] kind@[v] == if v < i && is_terminal(submerged@, receiver@, v) {
                    terminal_kind(submerged@, flood_kind@, v)
                } else {
                    flood_kind@[v]
                },
        decreases n - i,
    {
        if submerged[i] != 0 {
            outlet.set(i, i as u32);
            kind.set(i, DRAINAGE_OUTLET_OCEAN);
        } else if receiver[i] == INVALID_SAMPLE_ID {
            outlet.set(i, i as u32);
            if kind[i] == DRAINAGE_OUTLET_NONE {
                kind.set(i, DRAINAGE_OUTLET_INTERNAL);
            }
        }
        i = i + 1;
    }
    let mut k: usize = order.len();
    proof {
        assert forall|v: int| 0 <= v < n implies last_position(order@, v) < order@.len() by {
            lemma_last_position(order@, v);
        }
    }
    while k > 0
        invariant
            n == receiver@.len(),
            n == submerged@.len(),
            n < u32::MAX,
            k <= order@.len(),
            outlet@.len() == n,
            forall|t: int| 0 <= t < order@.len() ==> (#[trigger] order@[t]) < n,
            forall|v: int|
                0 <= v < n && !is_terminal(submerged@, receiver@, v) ==> (#[trigger] receiver@[v]) < n
                    && last_position(order@, v) >= 0,
            forall|v: int|
                0 <= v < n ==> ((#[trigger] outlet@[v] != INVALID_SAMPLE_ID) <==> (is_terminal(
                    submerged@,
                    receiver@,
                    v,
                ) || last_position(order@, v) >= k)),
            forall|v: int|
                0 <= v < n && outlet@[v] != INVALID_SAMPLE_ID ==> {
                    &&& (#[trigger] outlet@[v]) < n
                    &&& is_terminal(submerged@, receiver@, outlet@[v] as int)
                    &&& is_terminal(submerged@, receiver@, v) ==> outlet@[v] == v
                    &&& !is_terminal(submerged@, receiver@, v) ==> outlet@[v] == outlet@[receiver@[v] as int]
                },
            forall|v: int|
                0 <= v < n && !is_terminal(submerged@, receiver@, v) && last_position(order@, v) >= k
                    && !is_terminal(submerged@, receiver@, #[trigger] receiver@[v] as int) ==> last_position(
                    order@,
                    v,
                ) < last_position(order@, receiver@[v] as int),
        decreases k,
    {
        let p = k - 1;
        let sample = order[p];
        proof {
            lemma_last_position(order@, sample as int);
            assert forall|v: int| 0 <= v < n && last_position(order@, v) == p implies v == sample by {
                lemma_last_position(order@, v);
            }
        }
        if outlet[sample as usize] == INVALID_SAMPLE_ID {
            let r = receiver[sample as usize];
            if r == INVALID_SAMPLE_ID {
                return Err("drainage terminal outlet propagation failed");
            }
            let resolved = outlet[r as usize];
            if resolved == INVALID_SAMPLE_ID {
                proof {
                    lemma_last_position(order@, r as int);
                    assert(!resolves_in_order(submerged@, receiver@, order@)) by {
                        assert(receiver@[sample as int] == r);
                    }
                }
                return Err("drainage downstream outlet was not resolved first");
            }
            proof {
                lemma_last_position(order@, r as int);
            }
            outlet.set(sample as usize, resolved);
        }
        k = p;
    }
    proof {
        assert(resolves_in_order(submerged@, receiver@, order@)) by {
            assert forall|v: int|
                0 <= v < n && !is_terminal(submerged@, receiver@, v) && !is_terminal(
                    submerged@,
                    receiver@,
                    #[trigger] receiver@[v] as int,
                ) implies last_position(order@, v) < last_position(order@, receiver@[v] as int) by {}
        }
    }
    let mut j: usize = 0;
    while j < n
        invariant
            n == receiver@.len(),
            n == submerged@.len(),
            n == flood_kind@.len(),
            j <= n,
            outlet@.len() == n,
            kind@.len() == n,
            forall|v: int|
                0 <= v < n ==> {
                    &&& (#[trigger] outlet@[v]) < n
                    &&& is_terminal(submerged@, receiver@, outlet@[v] as int)
                    &&& is_terminal(submerged@, receiver@, v) ==> outlet@[v] == v
                    &&& !is_terminal(submerged@, receiver@, v) ==> outlet@[v] == outlet@[receiver@[v] as int]
                },
            forall|v: int|
                0 <= v < n && is_terminal(submerged@, receiver@, v) ==> #[trigger] kind@[v] == terminal_kind(
                    submerged@,
                    flood_kind@,
                    v,
                ),
            forall|v: int|
                0 <= v < j ==> #[trigger] kind@[v] == if submerged@[v] != 0 {
                    DRAINAGE_OUTLET_OCEAN
                } else {
                    terminal_kind(submerged@, flood_kind@, outlet@[v] as int)
                },
        decreases n - j,
    {
        if submerged[j] == 0 {
            let o = outlet[j];
            let resolved_kind = kind[o as usize];
            if resolved_kind == DRAINAGE_OUTLET_NONE {
                return Err("drainage outlet kind was not resolved at terminal sample");
            }
            kind.set(j, resolved_kind);
        }
        j = j + 1;
    }
    Ok(OutletResolution { outlet_sample: outlet, outlet_kind: kind })
}

/// `v` is the outlet of at least one land sample.
pub open spec fn is_land_outlet(submerged: Seq<u8>, outlet: Seq<u32>, v: int) -> bool {
    exists|j: int| 0 <= j < outlet.len() && submerged[j] == 0 && #[trigger] outlet[j] == v
}

/// Marks the samples that are outlets of land samples.
pub open spec fn land_outlet_mask(submerged: Seq<u8>, outlet: Seq<u32>) -> Seq<bool> {
    Seq::new(outlet.len(), |v: int| is_land_outlet(submerged, outlet, v))
}

/// Basin id of outlet `v`: how many distinct land outlets are smaller than `v`.
pub open spec fn basin_rank(submerged: Seq<u8>, outlet: Seq<u32>, v: int) -> nat {
    count_true(land_outlet_mask(submerged, outlet).take(v))
}

/// Number of land samples among the first `upto` whose outlet is `v`.
pub open spec fn outlet_members(submerged: Seq<u8>, outlet: Seq<u32>, v: int, upto: int) -> nat
    decreases upto,
{
    if upto <= 0 {
        0
    } else {
        outlet_members(submerged, outlet, v, upto - 1) + if submerged[upto - 1] == 0 && outlet[upto - 1] == v {
            1nat
        } else {
            0nat
        }
    }
}

/// One drainage basin: its id, outlet, outlet kind and land sample count.
#[derive(Clone, Copy, Debug, PartialEq, Eq)]
pub struct BasinSummary {
    pub id: u32,
    pub outlet_sample: u32,
    pub outlet_kind: u8,
    pub sample_count: u32,
}

/// Basin of every sample and the basins in id order.
pub struct BasinAssignment {
    pub basin_id: Vec<u32>,
    pub basins: Vec<BasinSummary>,
}

proof fn lemma_count_true_take_step(s: Seq<bool>, a: int)
    requires
        0 <= a < s.len(),
    ensures
        count_true(s.take(a + 1)) == count_true(s.take(a)) + if s[a] {
            1nat
        } else {
            0nat
        },
{
    assert(s.take(a + 1).drop_last() =~= s.take(a));
}

proof fn lemma_count_true_take_bound(s: Seq<bool>, b: int)
    requires
        0 <= b <= s.len(),
    ensures
        count_true(s.take(b)) <= b,
    decreases b,
{
    if b > 0 {
        lemma_count_true_take_step(s, b - 1);
        lemma_count_true_take_bound(s, b - 1);
    } else {
        assert(s.take(0) =~= Seq::<bool>::empty());
    }
}

pub(crate) proof fn lemma_count_true_take_mono(s: Seq<bool>, a: int, b: int)
    requires
        0 <= a <= b <= s.len(),
    ensures
        count_true(s.take(a)) <= count_true(s.take(b)),
        a < b && s[a] ==> count_true(s.take(a)) < count_true(s.take(b)),
        count_true(s.take(b)) <= b,
    decreases b,
{
    lemma_count_true_take_bound(s, b);
    if a < b {
        lemma_count_true_take_step(s, b - 1);
        lemma_count_true_take_mono(s, a, b - 1);
    }
}

/// Numbers the basins by their outlets in increasing sample order and gives
/// every land sample the id of its outlet's basin; ocean samples get no basin.
pub fn assign_basins(submerged: &Vec<u8>, outlet_sample: &Vec<u32>, outlet_kind: &Vec<u8>) -> (assignment:
    BasinAssignment)
    requires
        submerged@.len() == outlet_sample@.len(),
        outlet_kind@.len() == outlet_sample@.len(),
        outlet_sample@.len() < u32::MAX,
        forall|i: int|
            0 <= i < outlet_sample@.len() && submerged@[i] == 0 ==> (#[trigger] outlet_sample@[i])
                < outlet_sample@.len(),
    ensures
        assignment.basin_id@.len() == outlet_sample@.len(),
        forall|i: int|
            0 <= i < outlet_sample@.len() ==> #[trigger] assignment.basin_id@[i] == if submerged@[i] != 0 {
                INVALID_SAMPLE_ID as int
            } else {
                basin_rank(submerged@, outlet_sample@, outlet_sample@[i] as int) as int
            },
        assignment.basins@.len() == count_true(land_outlet_mask(submerged@, outlet_sample@)),
        forall|b: int| 0 <= b < assignment.basins@.len() ==> (#[trigger] assignment.basins@[b]).id == b,
        forall|v: int|
            0 <= v < outlet_sample@.len() && is_land_outlet(submerged@, outlet_sample@, v) ==> #[trigger]
            assignment.basins@[basin_rank(submerged@, outlet_sample@, v) as int] == (BasinSummary {
                id: basin_rank(submerged@, outlet_sample@, v) as u32,
                outlet_sample: v as u32,
                outlet_kind: outlet_kind@[v],
                sample_count: outlet_members(submerged@, outlet_sample@, v, outlet_sample@.len() as int) as u32,
            }),
{
    let n = outlet_sample.len();
    let ghost mask_spec = land_outlet_mask(submerged@, outlet_sample@);
    let mut mask: Vec<bool> = vec![false; n];
    let mut i: usize = 0;
    while i < n
        invariant
            n == outlet_sample@.len(),
            n == submerged@.len(),
            i <= n,
            mask@.len() == n,
            forall|t: int| 0 <= t < n && submerged@[t] == 0 ==> (#[trigger] outlet_sample@[t]) < n,
            forall|v: int|
                0 <= v < n ==> #[trigger] mask@[v] == exists|j: int|
                    0 <= j < i && submerged@[j] == 0 && #[trigger] outlet_sample@[j] == v,
        decreases n - i,
    {
        if submerged[i] == 0 {
            let o = outlet_sample[i];
            mask.set(o as usize, true);
            proof {
                assert forall|v: int| 0 <= v < n implies #[trigger] mask@[v] == exists|j: int|
                    0 <= j < i + 1 && submerged@[j] == 0 && #[trigger] outlet_sample@[j] == v by {
                    if v == o as int {
                        assert(outlet_sample@[i as int] == v);
                    }
                }
            }
        } else {
            proof {
                assert forall|v: int| 0 <= v < n implies #[trigger] mask@[v] == exists|j: int|
                    0 <= j < i + 1 && submerged@[j] == 0 && #[trigger] outlet_sample@[j] == v by {
                    if mask@[v] {
                        let j = choose|j: int| 0 <= j < i && submerged@[j] == 0 && #[trigger] outlet_sample@[j] == v;
                        assert(outlet_sample@[j] == v);
                    }
                }
            }
        }
        i = i + 1;
    }
    proof {
        assert(mask@ =~= mask_spec);
    }
    let mut rank: Vec<u32> = vec![0u32; n];
    let mut basins: Vec<BasinSummary> = Vec::new();
    let mut count: u32 = 0;
    let mut v: usize = 0;
    while v < n
        invariant
            n == outlet_sample@.len(),
            n == outlet_kind@.len(),
            n < u32::MAX,
            v <= n,
            mask@ == mask_spec,
            mask_spec == land_outlet_mask(submerged@, outlet_sample@),
            mask@.len() == n,
            rank@.len() == n,
            count == count_true(mask@.take(v as int)),
            basins@.len() == count,
            forall|u: int| 0 <= u < v ==> #[trigger] rank@[u] == count_true(mask@.take(u)),
            forall|b: int| 0 <= b < basins@.len() ==> (#[trigger] basins@[b]).id == b,
            forall|u: int|
                0 <= u < v && mask@[u] ==> #[trigger] basins@[rank@[u] as int] == (BasinSummary {
                    id: rank@[u],
                    outlet_sample: u as u32,
                    outlet_kind: outlet_kind@[u],
                    sample_count: 0,
                }),
        decreases n - v,
    {
        proof {
            lemma_count_true_take_step(mask@, v as int);
            lemma_count_true_take_mono(mask@, v as int, v as int);
        }
        proof {
            assert forall|u: int| 0 <= u < v && mask@[u] implies (#[trigger] rank@[u]) < count by {
                lemma_count_true_take_mono(mask@, u, v as int);
            }
        }
        rank.set(v, count);
        if mask[v] {
            basins.push(BasinSummary { id: count, outlet_sample: v as u32, outlet_kind: outlet_kind[v], sample_count: 0 });
            count = count + 1;
        }
        v = v + 1;
    }
    proof {
        assert(mask@.take(n as int) =~= mask@);
    }
    let mut j: usize = 0;
    while j < n
        invariant
            n == outlet_sample@.len(),
            n == submerged@.len(),
            n == outlet_kind@.len(),
            n < u32::MAX,
            j <= n,
            mask@ == mask_spec,
            mask_spec == land_outlet_mask(submerged@, outlet_sample@),
            mask@.len() == n,
            rank@.len() == n,
            basins@.len() == count_true(mask@),
            forall|t: int| 0 <= t < n && submerged@[t] == 0 ==> (#[trigger] outlet_sample@[t]) < n,
            forall|u: int| 0 <= u < n ==> #[trigger] rank@[u] == count_true(mask@.take(u)),
            forall|b: int| 0 <= b < basins@.len() ==> (#[trigger] basins@[b]).id == b,
            forall|u: int|
                0 <= u < n && mask@[u] ==> #[trigger] basins@[rank@[u] as int] == (BasinSummary {
                    id: rank@[u],
                    outlet_sample: u as u32,
                    outlet_kind: outlet_kind@[u],
                    sample_count: outlet_members(submerged@, outlet_sample@, u, j as int) as u32,
                }),
            forall|u: int| 0 <= u < n ==> #[trigger] outlet_members(submerged@, outlet_sample@, u, j as int) <= j,
        decreases n - j,
    {
        if submerged[j] == 0 {
            let o = outlet_sample[j];
            let b = rank[o as usize];
            proof {
                assert(is_land_outlet(submerged@, outlet_sample@, o as int)) by {
                    assert(outlet_sample@[j as int] == o);
                }
                assert(mask@[o as int]);
                lemma_count_true_take_mono(mask@, o as int, n as int);
                assert(mask@.take(n as int) =~= mask@);
            }
            let ghost prev = basins@;
            proof {
                assert(outlet_members(submerged@, outlet_sample@, o as int, j as int) <= j);
            }
            let mut basin = basins[b as usize];
            basin.sample_count = basin.sample_count + 1;
            basins.set(b as usize, basin);
            proof {
                assert forall|u: int| 0 <= u < n && mask@[u] implies #[trigger] basins@[rank@[u] as int] == (
                BasinSummary {
                    id: rank@[u],
                    outlet_sample: u as u32,
                    outlet_kind: outlet_kind@[u],
                    sample_count: outlet_members(submerged@, outlet_sample@, u, j + 1) as u32,
                }) by {
                    lemma_count_true_take_mono(mask@, u, n as int);
                    assert(outlet_members(submerged@, outlet_sample@, u, j as int) <= j);
                    assert(prev[rank@[u] as int] == (BasinSummary {
                        id: rank@[u],
                        outlet_sample: u as u32,
                        outlet_kind: outlet_kind@[u],
                        sample_count: outlet_members(submerged@, outlet_sample@, u, j as int) as u32,
                    }));
                    if u != o as int {
                        if u < o as int {
                            lemma_count_true_take_mono(mask@, u, o as int);
                        } else {
                            lemma_count_true_take_mono(mask@, o as int, u);
                        }
                    }
                }
                assert forall|u: int| 0 <= u < n implies #[trigger] outlet_members(submerged@, outlet_sample@, u, j + 1)
                    <= j + 1 by {
                    assert(outlet_members(submerged@, outlet_sample@, u, j as int) <= j);
                }
            }
        } else {
            proof {
                assert forall|u: int| 0 <= u < n && mask@[u] implies #[trigger] basins@[rank@[u] as int] == (
                BasinSummary {
                    id: rank@[u],
                    outlet_sample: u as u32,
                    outlet_kind: outlet_kind@[u],
                    sample_count: outlet_members(submerged@, outlet_sample@, u, j + 1) as u32,
                }) by {}
                assert forall|u: int| 0 <= u < n implies #[trigger] outlet_members(submerged@, outlet_sample@, u, j + 1)
                    <= j + 1 by {
                    assert(outlet_members(submerged@, outlet_sample@, u, j as int) <= j);
                }
            }
        }
        j = j + 1;
    }
    let mut basin_id: Vec<u32> = Vec::new();
    let mut t: usize = 0;
    while t < n
        invariant
            n == outlet_sample@.len(),
            n == submerged@.len(),
            t <= n,
            rank@.len() == n,
            mask@ == mask_spec,
            mask_spec == land_outlet_mask(submerged@, outlet_sample@),
            basin_id@.len() == t,
            forall|x: int| 0 <= x < n && submerged@[x] == 0 ==> (#[trigger] outlet_sample@[x]) < n,
            forall|u: int| 0 <= u < n ==> #[trigger] rank@[u] == count_true(mask@.take(u)),
            forall|x: int|
                0 <= x < t ==> #[trigger] basin_id@[x] == if submerged@[x] != 0 {
                    INVALID_SAMPLE_ID as int
                } else {
                    basin_rank(submerged@, outlet_sample@, outlet_sample@[x] as int) as int
                },
        decreases n - t,
    {
        if submerged[t] != 0 {
            basin_id.push(INVALID_SAMPLE_ID);
        } else {
            basin_id.push(rank[outlet_sample[t] as usize]);
        }
        t = t + 1;
    }
    proof {
        assert forall|u: int|
            0 <= u < n && is_land_outlet(submerged@, outlet_sample@, u) implies #[trigger] basins@[basin_rank(
            submerged@,
            outlet_sample@,
            u,
        ) as int] == (BasinSummary {
            id: basin_rank(submerged@, outlet_sample@, u) as u32,
            outlet_sample: u as u32,
            outlet_kind: outlet_kind@[u],
            sample_count: outlet_members(submerged@, outlet_sample@, u, n as int) as u32,
        }) by {
            assert(mask@[u]);
            assert(rank@[u] == basin_rank(submerged@, outlet_sample@, u));
        }
    }
    BasinAssignment { basin_id, basins }
}

/// Number of land (not submerged) samples.
pub open spec fn land_count(submerged: Seq<u8>) -> nat
    decreases submerged.len(),
{
    if submerged.len() == 0 {
        0
    } else {
        land_count(submerged.drop_last()) + if submerged.last() == 0 {
            1nat
        } else {
            0nat
        }
    }
}

/// Number of samples that belong to a depression.
pub open spec fn depression_member_count(depression_id: Seq<u32>) -> nat
    decreases depression_id.len(),
{
    if depression_id.len() == 0 {
        0
    } else {
        depression_member_count(depression_id.drop_last()) + if depression_id.last() != INVALID_SAMPLE_ID {
            1nat
        } else {
            0nat
        }
    }
}

/// A terminal sample always gives a resolved kind: ocean exactly when it is
/// submerged, otherwise its own flood kind, or internal drainage when the
/// flood left it unresolved.
pub proof fn lemma_terminal_kind_resolved(submerged: Seq<u8>, flood_kind: Seq<u8>, t: int)
    ensures
        terminal_kind(submerged, flood_kind, t) != DRAINAGE_OUTLET_NONE,
        (terminal_kind(submerged, flood_kind, t) == DRAINAGE_OUTLET_OCEAN) <==> (submerged[t] != 0 || flood_kind[t]
            == DRAINAGE_OUTLET_OCEAN),
        submerged[t] == 0 && flood_kind[t] != DRAINAGE_OUTLET_NONE ==> terminal_kind(submerged, flood_kind, t)
            == flood_kind[t],
{
}

/// The land count never exceeds the sample count, and equals it exactly
/// when no sample is submerged.
pub proof fn lemma_land_count_bounds(submerged: Seq<u8>)
    ensures
        land_count(submerged) <= submerged.len(),
        (land_count(submerged) == submerged.len()) <==> (forall|i: int|
            0 <= i < submerged.len() ==> #[trigger] submerged[i] == 0),
    decreases submerged.len(),
{
    if submerged.len() > 0 {
        let rest = submerged.drop_last();
        lemma_land_count_bounds(rest);
        if forall|i: int| 0 <= i < submerged.len() ==> #[trigger] submerged[i] == 0 {
            assert forall|i: int| 0 <= i < rest.len() implies #[trigger] rest[i] == 0 by {
                assert(rest[i] == submerged[i]);
            }
        } else {
            let j = choose|j: int| 0 <= j < submerged.len() && submerged[j] != 0;
            if j < rest.len() {
                assert(rest[j] == submerged[j]);
            }
        }
    }
}

/// Sample counts reported by the drainage stage.
#[derive(Clone, Copy, Debug, PartialEq, Eq)]
pub struct DrainageCounts {
    pub land_sample_count: u32,
    pub ocean_sample_count: u32,
    pub depression_sample_count: u32,
}

/// Counts land samples, ocean samples and depression members.
pub fn drainage_counts(submerged: &Vec<u8>, depression_id: &Vec<u32>) -> (counts: DrainageCounts)
    requires
        submerged@.len() <= u32::MAX,
        depression_id@.len() <= u32::MAX,
    ensures
        counts.land_sample_count == land_count(submerged@),
        counts.ocean_sample_count == submerged@.len() - land_count(submerged@),
        counts.depression_sample_count == depression_member_count(depression_id@),
{
    let mut land: u32 = 0;
    let mut i: usize = 0;
    while i < submerged.len()
        invariant
            i <= submerged@.len() <= u32::MAX,
            land == land_count(submerged@.take(i as int)),
            land <= i,
        decreases submerged@.len() - i,
    {
        assert(submerged@.take(i + 1).drop_last() =~= submerged@.take(i as int));
        if submerged[i] == 0 {
            land = land + 1;
        }
        i = i + 1;
    }
    assert(submerged@.take(i as int) =~= submerged@);
    let mut members: u32 = 0;
    let mut j: usize = 0;
    while j < depression_id.len()
        invariant
            j <= depression_id@.len() <= u32::MAX,
            members == depression_member_count(depression_id@.take(j as int)),
            members <= j,
        decreases depression_id@.len() - j,
    {
        assert(depression_id@.take(j + 1).drop_last() =~= depression_id@.take(j as int));
        if depression_id[j] != INVALID_SAMPLE_ID {
            members = members + 1;
        }
        j = j + 1;
    }
    assert(depression_id@.take(j as int) =~= depression_id@);
    let total = submerged.len() as u32;
    DrainageCounts { land_sample_count: land, ocean_sample_count: total - land, depression_sample_count: members }
}

/// Per-sample fields that the drainage digest covers; elevations and areas
/// enter as the bit patterns of their `f64` values.
pub struct DrainageDigestFields {
    pub receiver: Vec<u32>,
    pub outlet_sample: Vec<u32>,
    pub basin_id: Vec<u32>,
    pub depression_id: Vec<u32>,
    pub escape_elevation_bits: Vec<u64>,
    pub contributing_area_bits: Vec<u64>,
}

/// Byte stream of the drainage digest: stage id, version, stage seed,
/// planet and topography digests, then every per-sample field in order.
pub open spec fn drainage_digest_bytes(
    stage_seed: u64,
    planet_parameter_hash: u64,
    topography_hash: u64,
    fields: DrainageDigestFields,
) -> Seq<u8> {
    DRAINAGE_STAGE_ID.spec_bytes() + le_bytes(DRAINAGE_STAGE_VERSION as nat, 4) + le_bytes(stage_seed as nat, 8)
        + le_bytes(planet_parameter_hash as nat, 8) + le_bytes(topography_hash as nat, 8) + le_words32(
        fields.receiver@,
    ) + le_words32(fields.outlet_sample@) + le_words32(fields.basin_id@) + le_words32(fields.depression_id@)
        + le_words64(fields.escape_elevation_bits@) + le_words64(fields.contributing_area_bits@)
}

/// Stage seed of a drainage request.
pub open spec fn drainage_stage_seed(request: DrainageRequest) -> u64 {
    stage_seed_spec(vstd::utf8::encode_utf8(request.seed@), DRAINAGE_NAMESPACE.spec_bytes())
}

/// Digest of a drainage result (FNV-1a over `drainage_digest_bytes`).
pub fn drainage_digest(
    request: &DrainageRequest,
    planet_parameter_hash: u64,
    topography_hash: u64,
    fields: &DrainageDigestFields,
) -> (digest: u64)
    ensures
        digest == fnv_fold(
            FNV_OFFSET_BASIS,
            drainage_digest_bytes(drainage_stage_seed(*request), planet_parameter_hash, topography_hash, *fields),
        ),
{
    let stage_seed = derive_stage_seed(request.seed.as_str(), DRAINAGE_NAMESPACE);
    let ghost parts: Seq<Seq<u8>> = seq![
        DRAINAGE_STAGE_ID.spec_bytes(),
        le_bytes(DRAINAGE_STAGE_VERSION as nat, 4),
        le_bytes(stage_seed as nat, 8),
        le_bytes(planet_parameter_hash as nat, 8),
        le_bytes(topography_hash as nat, 8),
        le_words32(fields.receiver@),
        le_words32(fields.outlet_sample@),
        le_words32(fields.basin_id@),
        le_words32(fields.depression_id@),
        le_words64(fields.escape_elevation_bits@),
        le_words64(fields.contributing_area_bits@),
    ];
    let h0 = fnv_update(FNV_OFFSET_BASIS, DRAINAGE_STAGE_ID.as_bytes());
    let h1 = fnv_update_u32(h0, DRAINAGE_STAGE_VERSION);
    let h2 = fnv_update_u64(h1, stage_seed);
    let h3 = fnv_update_u64(h2, planet_parameter_hash);
    let h4 = fnv_update_u64(h3, topography_hash);
    let h5 = fnv_update_words32(h4, &fields.receiver);
    let h6 = fnv_update_words32(h5, &fields.outlet_sample);
    let h7 = fnv_update_words32(h6, &fields.basin_id);
    let h8 = fnv_update_words32(h7, &fields.depression_id);
    let h9 = fnv_update_words64(h8, &fields.escape_elevation_bits);
    let h10 = fnv_update_words64(h9, &fields.contributing_area_bits);
    proof {
        let b0 = parts[0];
        let b1 = b0 + parts[1];
        let b2 = b1 + parts[2];
        let b3 = b2 + parts[3];
        let b4 = b3 + parts[4];
        let b5 = b4 + parts[5];
        let b6 = b5 + parts[6];
        let b7 = b6 + parts[7];
        let b8 = b7 + parts[8];
        let b9 = b8 + parts[9];
        lemma_fnv_fold_concat(FNV_OFFSET_BASIS, b0, parts[1]);
        lemma_fnv_fold_concat(FNV_OFFSET_BASIS, b1, parts[2]);
        lemma_fnv_fold_concat(FNV_OFFSET_BASIS, b2, parts[3]);
        lemma_fnv_fold_concat(FNV_OFFSET_BASIS, b3, parts[4]);
        lemma_fnv_fold_concat(FNV_OFFSET_BASIS, b4, parts[5]);
        lemma_fnv_fold_concat(FNV_OFFSET_BASIS, b5, parts[6]);
        lemma_fnv_fold_concat(FNV_OFFSET_BASIS, b6, parts[7]);
        lemma_fnv_fold_concat(FNV_OFFSET_BASIS, b7, parts[8]);
        lemma_fnv_fold_concat(FNV_OFFSET_BASIS, b8, parts[9]);
        lemma_fnv_fold_concat(FNV_OFFSET_BASIS, b9, parts[10]);
    }
    h10
}

/// An order accepted by the acyclicity check, listing every flowing land
/// sample, always lets outlet resolution succeed.
pub proof fn lemma_checked_order_resolves(submerged: Seq<u8>, receiver: Seq<u32>, order: Seq<u32>)
    requires
        submerged.len() == receiver.len(),
        forall|k: int| 0 <= k < order.len() ==> (#[trigger] order[k]) < receiver.len(),
        forall|i: int|
            0 <= i < receiver.len() && !is_terminal(submerged, receiver, i) ==> (#[trigger] receiver[i])
                < receiver.len() && last_position(order, i) >= 0,
        drains_downstream(submerged, receiver, order),
    ensures
        resolves_in_order(submerged, receiver, order),
{
    assert forall|i: int|
        0 <= i < receiver.len() && !is_terminal(submerged, receiver, i) && !is_terminal(
            submerged,
            receiver,
            #[trigger] receiver[i] as int,
        ) implies last_position(order, i) < last_position(order, receiver[i] as int) by {
        lemma_last_position(order, i);
        let k = last_position(order, i);
        assert(precedes_receiver(submerged, receiver, order, k));
    }
}

/// Outlets are fixed points: the outlet of an outlet is itself.
pub proof fn lemma_outlet_of_outlet(submerged: Seq<u8>, receiver: Seq<u32>, outlet: Seq<u32>, i: int)
    requires
        outlets_follow_receivers(submerged, receiver, outlet),
        0 <= i < receiver.len(),
    ensures
        outlet[outlet[i] as int] == outlet[i],
{
    assert(outlet[i] < receiver.len());
    assert(is_terminal(submerged, receiver, outlet[i] as int));
    assert(outlet[outlet[i] as int] == outlet[i]);
}

/// Two land samples get the same basin id exactly when they share an outlet.
pub proof fn lemma_basin_ids_separate_outlets(submerged: Seq<u8>, outlet: Seq<u32>, i: int, j: int)
    requires
        submerged.len() == outlet.len(),
        0 <= i < outlet.len(),
        0 <= j < outlet.len(),
        submerged[i] == 0,
        submerged[j] == 0,
        outlet[i] < outlet.len(),
        outlet[j] < outlet.len(),
    ensures
        basin_rank(submerged, outlet, outlet[i] as int) == basin_rank(submerged, outlet, outlet[j] as int)
            <==> outlet[i] == outlet[j],
{
    let mask = land_outlet_mask(submerged, outlet);
    let a = outlet[i] as int;
    let b = outlet[j] as int;
    assert(is_land_outlet(submerged, outlet, a));
    assert(is_land_outlet(submerged, outlet, b));
    if a < b {
        lemma_count_true_take_mono(mask, a, b);
    } else if b < a {
        lemma_count_true_take_mono(mask, b, a);
    }
}

/// Checks the drainage inputs in order: a non-empty topology, fields aligned
/// with it, a valid planet radius, finite elevations, a 0/1 submerged mask,
/// and neighbor lists aligned with their arc lengths. The floating-point
/// checks arrive as their verdicts.
pub fn validate_drainage_inputs(
    sample_count: u32,
    elevation_len: usize,
    submerged: &Vec<u8>,
    radius_valid: bool,
    elevations_finite: bool,
    neighbor_counts: &Vec<usize>,
    arc_length_counts: &Vec<usize>,
) -> (result: Result<(), &'static str>)
    requires
        neighbor_counts@.len() == sample_count,
        arc_length_counts@.len() == sample_count,
    ensures
        ({
            let aligned = elevation_len == sample_count && submerged@.len() == sample_count;
            let mask_binary = forall|i: int| 0 <= i < submerged@.len() ==> #[trigger] submerged@[i] <= 1;
            let geometry_aligned = forall|i: int|
                0 <= i < sample_count ==> #[trigger] neighbor_counts@[i] == arc_length_counts@[i];
            result == if sample_count == 0 {
                Err::<(), &'static str>("drainage topology requires at least one sample")
            } else if !aligned {
                Err("drainage inputs must align with topology sample count")
            } else if !radius_valid {
                Err("drainage planet radius must be finite and positive")
            } else if !elevations_finite {
                Err("drainage elevation field must be finite")
            } else if !mask_binary {
                Err("drainage submerged mask must contain only 0 or 1")
            } else if !geometry_aligned {
                Err("drainage topology neighbor geometry is misaligned")
            } else {
                Ok(())
            }
        }),
{
    let count = sample_count as usize;
    if count == 0 {
        return Err("drainage topology requires at least one sample");
    }
    if elevation_len != count || submerged.len() != count {
        return Err("drainage inputs must align with topology sample count");
    }
    if !radius_valid {
        return Err("drainage planet radius must be finite and positive");
    }
    if !elevations_finite {
        return Err("drainage elevation field must be finite");
    }
    let mut i: usize = 0;
    while i < submerged.len()
        invariant
            count == sample_count,
            elevation_len == count,
            submerged@.len() == count,
            radius_valid,
            elevations_finite,
            i <= submerged@.len(),
            forall|j: int| 0 <= j < i ==> #[trigger] submerged@[j] <= 1,
        decreases submerged@.len() - i,
    {
        if submerged[i] > 1 {
            proof {
                assert(submerged@[i as int] > 1);
            }
            return Err("drainage submerged mask must contain only 0 or 1");
        }
        i = i + 1;
    }
    let mut s: usize = 0;
    while s < count
        invariant
            count == sample_count,
            elevation_len == count,
            submerged@.len() == count,
            radius_valid,
            elevations_finite,
            forall|j: int| 0 <= j < submerged@.len() ==> #[trigger] submerged@[j] <= 1,
            neighbor_counts@.len() == count,
            arc_length_counts@.len() == count,
            s <= count,
            forall|j: int| 0 <= j < s ==> #[trigger] neighbor_counts@[j] == arc_length_counts@[j],
        decreases count - s,
    {
        if neighbor_counts[s] != arc_length_counts[s] {
            proof {
                assert(neighbor_counts@[s as int] != arc_length_counts@[s as int]);
            }
            return Err("drainage topology neighbor geometry is misaligned");
        }
        s = s + 1;
    }
    Ok(())
}

/// Routing to the ocean needs a solved sea level: when any sample is
/// submerged, the sea level must be present and finite.
pub fn check_ocean_routing(submerged: &Vec<u8>, sea_level_finite: bool) -> (result: Result<(), &'static str>)
    ensures
        result == if (exists|i: int| 0 <= i < submerged@.len() && submerged@[i] != 0) && !sea_level_finite {
            Err::<(), &'static str>("drainage ocean routing requires a finite solved sea level")
        } else {
            Ok(())
        },
{
    if sea_level_finite {
        return Ok(());
    }
    let mut i: usize = 0;
    while i < submerged.len()
        invariant
            !sea_level_finite,
            i <= submerged@.len(),
            forall|j: int| 0 <= j < i ==> submerged@[j] == 0,
        decreases submerged@.len() - i,
    {
        if submerged[i] != 0 {
            proof {
                assert(submerged@[i as int] != 0);
            }
            return Err("drainage ocean routing requires a finite solved sea level");
        }
        i = i + 1;
    }
    Ok(())
}

} // verus!
