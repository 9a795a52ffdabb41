//! Splitting of crust fragments along the final plate boundaries: a fragment
//! whose samples ended up on several modern plates is replaced, on each plate,
//! by a child fragment that inherits its lineage.

use vstd::prelude::*;
use crate::error::WorldgenError;
use crate::historical::{fragment_ok, lineage_valid, FragmentLineage};

verus! {

/// Largest number of fragment ids the lineage can hand out.
pub const FRAGMENT_ID_CAPACITY: usize = 65535;

/// Number of modern plate ids a `u16` can name.
pub const PLATE_ID_SPACE: usize = 65536;

/// Integer record of a crust fragment: its id, the fragment it split from,
/// the ancestral plate whose material it carries, the modern plate that owns
/// it, its first sample and its sample count.
#[derive(Clone, Copy, Debug, PartialEq, Eq)]
pub struct FragmentRecord {
    pub id: u16,
    pub parent_fragment_id: Option<u16>,
    pub origin_plate_id: u16,
    pub current_plate_id: u16,
    pub seed_sample: u32,
    pub sample_count: u32,
}

/// Fragments and per-sample fragment ids after the split.
pub struct FragmentSplit {
    pub fragments: Vec<FragmentRecord>,
    pub fragment_ids: Vec<u16>,
}

/// Sample `s` belongs to fragment `f` and lies on plate `o`.
pub open spec fn on_part(fi: Seq<u16>, cur: Seq<u16>, f: int, o: int, s: int) -> bool {
    fi[s] == f && cur[s] == o
}

/// Number of the first `m` samples that belong to fragment `f` and lie on plate `o`.
pub open spec fn part_count(fi: Seq<u16>, cur: Seq<u16>, f: int, o: int, m: int) -> nat
    decreases m,
{
    if m <= 0 {
        0
    } else {
        part_count(fi, cur, f, o, m - 1) + if on_part(fi, cur, f, o, m - 1) {
            1nat
        } else {
            0nat
        }
    }
}

/// Some sample of fragment `f` lies on plate `o`.
pub open spec fn owner_present(fi: Seq<u16>, cur: Seq<u16>, f: int, o: int) -> bool {
    part_count(fi, cur, f, o, fi.len() as int) > 0
}

/// Number of plates below `o` that own a sample of fragment `f`.
pub open spec fn owners_below(fi: Seq<u16>, cur: Seq<u16>, f: int, o: int) -> nat
    decreases o,
{
    if o <= 0 {
        0
    } else {
        owners_below(fi, cur, f, o - 1) + if owner_present(fi, cur, f, o - 1) {
            1nat
        } else {
            0nat
        }
    }
}

/// Number of plates that own a sample of fragment `f`.
pub open spec fn owner_count(fi: Seq<u16>, cur: Seq<u16>, f: int) -> nat {
    owners_below(fi, cur, f, PLATE_ID_SPACE as int)
}

/// Fragment `f` straddles a final boundary: its samples lie on two plates or more.
pub open spec fn splits(fi: Seq<u16>, cur: Seq<u16>, f: int) -> bool {
    owner_count(fi, cur, f) >= 2
}

/// Number of children created for the fragments below `f`.
pub open spec fn children_before(fi: Seq<u16>, cur: Seq<u16>, f: int) -> nat
    decreases f,
{
    if f <= 0 {
        0
    } else {
        children_before(fi, cur, f - 1) + if splits(fi, cur, f - 1) {
            owner_count(fi, cur, f - 1)
        } else {
            0nat
        }
    }
}

/// Id of the child of fragment `f` on plate `o`: children follow the existing
/// fragments, by parent id and then by plate id.
pub open spec fn child_id(len0: nat, fi: Seq<u16>, cur: Seq<u16>, f: int, o: int) -> int {
    (len0 + children_before(fi, cur, f) + owners_below(fi, cur, f, o)) as int
}

/// Fragment id of sample `s` after the split.
pub open spec fn split_fragment_id(len0: nat, fi: Seq<u16>, cur: Seq<u16>, s: int) -> int {
    if splits(fi, cur, fi[s] as int) {
        child_id(len0, fi, cur, fi[s] as int, cur[s] as int)
    } else {
        fi[s] as int
    }
}

/// `s` is the first sample of fragment `f` on plate `o`.
pub open spec fn first_part_sample(fi: Seq<u16>, cur: Seq<u16>, f: int, o: int, s: int) -> bool {
    &&& 0 <= s < fi.len()
    &&& on_part(fi, cur, f, o, s)
    &&& forall|t: int| 0 <= t < s ==> !#[trigger] on_part(fi, cur, f, o, t)
}

/// First sample below `m` of fragment `f` on plate `o` (meaningful when there is one).
pub open spec fn first_part(fi: Seq<u16>, cur: Seq<u16>, f: int, o: int, m: int) -> int
    decreases m,
{
    if m <= 0 {
        0
    } else if part_count(fi, cur, f, o, m - 1) > 0 {
        first_part(fi, cur, f, o, m - 1)
    } else {
        m - 1
    }
}

/// The child of fragment `f` on plate `o`: it inherits the parent's lineage
/// and holds the parent's samples on that plate.
pub open spec fn child_record(len0: nat, frs: Seq<FragmentRecord>, fi: Seq<u16>, cur: Seq<u16>, f: int, o: int) -> FragmentRecord {
    FragmentRecord {
        id: child_id(len0, fi, cur, f, o) as u16,
        parent_fragment_id: Some(frs[f].id),
        origin_plate_id: frs[f].origin_plate_id,
        current_plate_id: o as u16,
        seed_sample: first_part(fi, cur, f, o, fi.len() as int) as u32,
        sample_count: part_count(fi, cur, f, o, fi.len() as int) as u32,
    }
}

/// A matching sample below `m` makes the part count below `m` positive, and
/// the count never exceeds `m`.
proof fn lemma_part_count(fi: Seq<u16>, cur: Seq<u16>, f: int, o: int, m: int)
    requires
        0 <= m,
    ensures
        part_count(fi, cur, f, o, m) <= m,
        forall|t: int| 0 <= t < m && #[trigger] on_part(fi, cur, f, o, t) ==> part_count(fi, cur, f, o, m) > 0,
    decreases m,
{
    if m > 0 {
        lemma_part_count(fi, cur, f, o, m - 1);
    }
}

/// When fragment `f` has samples on plate `o` below `m`, `first_part` names the
/// first of them: the seed sample that the child on that plate records.
pub proof fn lemma_first_part(fi: Seq<u16>, cur: Seq<u16>, f: int, o: int, m: int)
    requires
        0 <= m <= fi.len(),
        part_count(fi, cur, f, o, m) > 0,
    ensures
        0 <= first_part(fi, cur, f, o, m) < m,
        first_part_sample(fi, cur, f, o, first_part(fi, cur, f, o, m)),
    decreases m,
{
    if part_count(fi, cur, f, o, m - 1) > 0 {
        lemma_first_part(fi, cur, f, o, m - 1);
    } else {
        lemma_part_count(fi, cur, f, o, m - 1);
    }
}

/// `owners_below` grows with `o`, by one exactly at the plates that own a
/// sample of the fragment, and never exceeds `o`.
proof fn lemma_owners_below_mono(fi: Seq<u16>, cur: Seq<u16>, f: int, a: int, b: int)
    requires
        0 <= a <= b,
    ensures
        owners_below(fi, cur, f, a) <= owners_below(fi, cur, f, b),
        owners_below(fi, cur, f, b) <= b,
        a < b && owner_present(fi, cur, f, a) ==> owners_below(fi, cur, f, a) < owners_below(fi, cur, f, b),
    decreases b,
{
    if b > 0 {
        if a < b {
            lemma_owners_below_mono(fi, cur, f, a, b - 1);
        } else {
            lemma_owners_below_mono(fi, cur, f, 0, b - 1);
        }
    }
}

/// `children_before` grows with `f`.
proof fn lemma_children_before_mono(fi: Seq<u16>, cur: Seq<u16>, a: int, b: int)
    requires
        0 <= a <= b,
    ensures
        children_before(fi, cur, a) <= children_before(fi, cur, b),
    decreases b,
{
    if a < b {
        lemma_children_before_mono(fi, cur, a, b - 1);
    }
}

/// A fragment with a single owning plate has all its samples on that plate.
proof fn lemma_single_owner(fi: Seq<u16>, cur: Seq<u16>, f: int, o: int, s: int)
    requires
        owner_count(fi, cur, f) == 1,
        0 <= o < PLATE_ID_SPACE,
        owner_present(fi, cur, f, o),
        0 <= s < fi.len(),
        fi[s] == f,
    ensures
        cur[s] == o,
{
    let p = cur[s] as int;
    assert(on_part(fi, cur, f, p, s));
    lemma_part_count(fi, cur, f, p, fi.len() as int);
    if p != o {
        let (a, b) = if p < o {
            (p, o)
        } else {
            (o, p)
        };
        lemma_owners_below_mono(fi, cur, f, a, b);
        lemma_owners_below_mono(fi, cur, f, b, b + 1);
        lemma_owners_below_mono(fi, cur, f, b + 1, PLATE_ID_SPACE as int);
    }
}

/// For every plate, the number of samples of fragment `f` that lie on it and
/// the first of them.
fn scan_fragment_parts(fragment_ids: &Vec<u16>, current_plate_ids: &Vec<u16>, f: usize) -> (parts: (
    Vec<u32>,
    Vec<u32>,
))
    requires
        fragment_ids@.len() == current_plate_ids@.len(),
        fragment_ids@.len() <= u32::MAX,
    ensures
        parts.0@.len() == PLATE_ID_SPACE,
        parts.1@.len() == PLATE_ID_SPACE,
        forall|o: int|
            0 <= o < PLATE_ID_SPACE ==> #[trigger] parts.0@[o] == part_count(
                fragment_ids@,
                current_plate_ids@,
                f as int,
                o,
                fragment_ids@.len() as int,
            ),
        forall|o: int|
            0 <= o < PLATE_ID_SPACE && parts.0@[o] > 0 ==> #[trigger] parts.1@[o] == first_part(
                fragment_ids@,
                current_plate_ids@,
                f as int,
                o,
                fragment_ids@.len() as int,
            ),
{
    let ghost fi = fragment_ids@;
    let ghost cur = current_plate_ids@;
    let n = fragment_ids.len();
    let mut counts: Vec<u32> = vec![0u32; PLATE_ID_SPACE];
    let mut first: Vec<u32> = vec![0u32; PLATE_ID_SPACE];
    let mut s: usize = 0;
    while s < n
        invariant
            fi == fragment_ids@,
            cur == current_plate_ids@,
            n == fi.len(),
            n == cur.len(),
            n <= u32::MAX,
            s <= n,
            counts@.len() == PLATE_ID_SPACE,
            first@.len() == PLATE_ID_SPACE,
            forall|o: int| 0 <= o < PLATE_ID_SPACE ==> #[trigger] counts@[o] == part_count(fi, cur, f as int, o, s as int),
            forall|o: int|
                0 <= o < PLATE_ID_SPACE && counts@[o] > 0 ==> #[trigger] first@[o] == first_part(
                    fi,
                    cur,
                    f as int,
                    o,
                    s as int,
                ),
        decreases n - s,
    {
        let ghost counts0 = counts@;
        let ghost first0 = first@;
        if fragment_ids[s] as usize == f {
            let o = current_plate_ids[s] as usize;
            proof {
                lemma_part_count(fi, cur, f as int, o as int, s as int);
                assert(counts0[o as int] == part_count(fi, cur, f as int, o as int, s as int));
            }
            if counts[o] == 0 {
                first.set(o, s as u32);
            }
            let c = counts[o] + 1;
            counts.set(o, c);
        }
        proof {
            assert forall|p: int| 0 <= p < PLATE_ID_SPACE implies #[trigger] counts@[p] == part_count(
                fi,
                cur,
                f as int,
                p,
                s + 1,
            ) by {
                assert(counts0[p] == part_count(fi, cur, f as int, p, s as int));
            }
            assert forall|p: int| 0 <= p < PLATE_ID_SPACE && counts@[p] > 0 implies #[trigger] first@[p] == first_part(
                fi,
                cur,
                f as int,
                p,
                s + 1,
            ) by {
                assert(counts0[p] == part_count(fi, cur, f as int, p, s as int));
                if counts0[p] > 0 {
                    assert(first0[p] == first_part(fi, cur, f as int, p, s as int));
                }
            }
        }
        s = s + 1;
    }
    (counts, first)
}

/// Number of plates that own a sample of fragment `f`, and the last of them.
fn count_owners(counts: &Vec<u32>, Ghost(fi): Ghost<Seq<u16>>, Ghost(cur): Ghost<Seq<u16>>, Ghost(f): Ghost<int>) -> (owners: (
    usize,
    u16,
))
    requires
        counts@.len() == PLATE_ID_SPACE,
        forall|o: int| 0 <= o < PLATE_ID_SPACE ==> #[trigger] counts@[o] == part_count(fi, cur, f, o, fi.len() as int),
    ensures
        owners.0 == owner_count(fi, cur, f),
        owners.0 >= 1 ==> owner_present(fi, cur, f, owners.1 as int),
{
    let mut k: usize = 0;
    let mut last: u16 = 0;
    let mut o: usize = 0;
    while o < PLATE_ID_SPACE
        invariant
            counts@.len() == PLATE_ID_SPACE,
            forall|p: int| 0 <= p < PLATE_ID_SPACE ==> #[trigger] counts@[p] == part_count(fi, cur, f, p, fi.len() as int),
            o <= PLATE_ID_SPACE,
            k == owners_below(fi, cur, f, o as int),
            k <= o,
            k >= 1 ==> owner_present(fi, cur, f, last as int),
        decreases PLATE_ID_SPACE - o,
    {
        if counts[o] > 0 {
            k = k + 1;
            last = o as u16;
        }
        o = o + 1;
    }
    (k, last)
}

/// Appends the children of fragment `f`, one per owning plate in plate order,
/// and returns the child id given to each plate.
fn push_children(
    out: &mut Vec<FragmentRecord>,
    parent: FragmentRecord,
    counts: &Vec<u32>,
    first: &Vec<u32>,
    Ghost(len0): Ghost<nat>,
    Ghost(frs): Ghost<Seq<FragmentRecord>>,
    Ghost(fi): Ghost<Seq<u16>>,
    Ghost(cur): Ghost<Seq<u16>>,
    Ghost(f): Ghost<int>,
) -> (ids: Vec<u16>)
    requires
        0 <= f < frs.len(),
        len0 == frs.len(),
        parent == frs[f],
        counts@.len() == PLATE_ID_SPACE,
        first@.len() == PLATE_ID_SPACE,
        forall|o: int| 0 <= o < PLATE_ID_SPACE ==> #[trigger] counts@[o] == part_count(fi, cur, f, o, fi.len() as int),
        forall|o: int|
            0 <= o < PLATE_ID_SPACE && counts@[o] > 0 ==> #[trigger] first@[o] == first_part(fi, cur, f, o, fi.len() as int),
        old(out)@.len() == len0 + children_before(fi, cur, f),
        len0 + children_before(fi, cur, f) + owner_count(fi, cur, f) < FRAGMENT_ID_CAPACITY,
    ensures
        final(out)@.len() == old(out)@.len() + owner_count(fi, cur, f),
        forall|i: int| 0 <= i < old(out)@.len() ==> #[trigger] final(out)@[i] == old(out)@[i],
        ids@.len() == PLATE_ID_SPACE,
        forall|o: int|
            0 <= o < PLATE_ID_SPACE && owner_present(fi, cur, f, o) ==> #[trigger] ids@[o] == child_id(len0, fi, cur, f, o),
        forall|o: int|
            0 <= o < PLATE_ID_SPACE && owner_present(fi, cur, f, o) ==> final(out)@[#[trigger] child_id(
                len0,
                fi,
                cur,
                f,
                o,
            )] == child_record(len0, frs, fi, cur, f, o),
{
    let ghost start = out@;
    let mut ids: Vec<u16> = vec![0u16; PLATE_ID_SPACE];
    let mut o: usize = 0;
    proof {
        lemma_owners_below_mono(fi, cur, f, 0, PLATE_ID_SPACE as int);
    }
    while o < PLATE_ID_SPACE
        invariant
            0 <= f < frs.len(),
            len0 == frs.len(),
            parent == frs[f],
            counts@.len() == PLATE_ID_SPACE,
            first@.len() == PLATE_ID_SPACE,
            forall|p: int| 0 <= p < PLATE_ID_SPACE ==> #[trigger] counts@[p] == part_count(fi, cur, f, p, fi.len() as int),
            forall|p: int|
                0 <= p < PLATE_ID_SPACE && counts@[p] > 0 ==> #[trigger] first@[p] == first_part(
                    fi,
                    cur,
                    f,
                    p,
                    fi.len() as int,
                ),
            start.len() == len0 + children_before(fi, cur, f),
            len0 + children_before(fi, cur, f) + owner_count(fi, cur, f) < FRAGMENT_ID_CAPACITY,
            o <= PLATE_ID_SPACE,
            out@.len() == start.len() + owners_below(fi, cur, f, o as int),
            forall|i: int| 0 <= i < start.len() ==> #[trigger] out@[i] == start[i],
            ids@.len() == PLATE_ID_SPACE,
            forall|p: int|
                0 <= p < o && owner_present(fi, cur, f, p) ==> #[trigger] ids@[p] == child_id(len0, fi, cur, f, p)
                    && out@[child_id(len0, fi, cur, f, p)] == child_record(len0, frs, fi, cur, f, p),
        decreases PLATE_ID_SPACE - o,
    {
        proof {
            lemma_owners_below_mono(fi, cur, f, o as int, PLATE_ID_SPACE as int);
        }
        let ghost out0 = out@;
        let ghost ids0 = ids@;
        if counts[o] > 0 {
            let id = out.len() as u16;
            ids.set(o, id);
            out.push(
                FragmentRecord {
                    id: id,
                    parent_fragment_id: Some(parent.id),
                    origin_plate_id: parent.origin_plate_id,
                    current_plate_id: o as u16,
                    seed_sample: first[o],
                    sample_count: counts[o],
                },
            );
        }
        proof {
            assert forall|p: int|
                0 <= p < o + 1 && owner_present(fi, cur, f, p) implies #[trigger] ids@[p] == child_id(len0, fi, cur, f, p)
                && out@[child_id(len0, fi, cur, f, p)] == child_record(len0, frs, fi, cur, f, p) by {
                if p < o {
                    lemma_owners_below_mono(fi, cur, f, p, o as int);
                    assert(ids@[p] == ids0[p]);
                    assert(out@[child_id(len0, fi, cur, f, p)] == out0[child_id(len0, fi, cur, f, p)]);
                } else {
                    let r = child_record(len0, frs, fi, cur, f, p);
                    let c = out@[child_id(len0, fi, cur, f, p)];
                    assert(c.id == r.id);
                    assert(c.parent_fragment_id == r.parent_fragment_id);
                    assert(c.current_plate_id == r.current_plate_id);
                    assert(c.seed_sample == r.seed_sample);
                    assert(c.sample_count == r.sample_count);
                }
            }
        }
        o = o + 1;
    }
    proof {
        assert forall|p: int| 0 <= p < PLATE_ID_SPACE && owner_present(fi, cur, f, p) implies out@[#[trigger] child_id(
            len0,
            fi,
            cur,
            f,
            p,
        )] == child_record(len0, frs, fi, cur, f, p) by {
            assert(ids@[p] == child_id(len0, fi, cur, f, p));
        }
    }
    ids
}

/// Moves the samples of fragment `f` to the child id of their plate.
fn reassign_samples(out_fi: &mut Vec<u16>, fragment_ids: &Vec<u16>, current_plate_ids: &Vec<u16>, f: usize, ids: &Vec<u16>)
    requires
        old(out_fi)@.len() == fragment_ids@.len(),
        fragment_ids@.len() == current_plate_ids@.len(),
        ids@.len() == PLATE_ID_SPACE,
    ensures
        final(out_fi)@.len() == old(out_fi)@.len(),
        forall|s: int|
            0 <= s < fragment_ids@.len() ==> #[trigger] final(out_fi)@[s] == if fragment_ids@[s] == f {
                ids@[current_plate_ids@[s] as int]
            } else {
                old(out_fi)@[s]
            },
{
    let ghost start = out_fi@;
    let n = fragment_ids.len();
    let mut s: usize = 0;
    while s < n
        invariant
            n == fragment_ids@.len(),
            n == current_plate_ids@.len(),
            start.len() == n,
            out_fi@.len() == n,
            ids@.len() == PLATE_ID_SPACE,
            s <= n,
            forall|t: int|
                0 <= t < n ==> #[trigger] out_fi@[t] == if t < s && fragment_ids@[t] == f {
                    ids@[current_plate_ids@[t] as int]
                } else {
                    start[t]
                },
        decreases n - s,
    {
        if fragment_ids[s] as usize == f {
            let id = ids[current_plate_ids[s] as usize];
            out_fi.set(s, id);
        }
        s = s + 1;
    }
}

/// A fragment without samples has no owning plate.
proof fn lemma_no_samples_no_owners(fi: Seq<u16>, cur: Seq<u16>, f: int, o: int)
    requires
        0 <= o,
        forall|t: int| 0 <= t < fi.len() ==> #[trigger] fi[t] != f,
    ensures
        owners_below(fi, cur, f, o) == 0,
    decreases o,
{
    if o > 0 {
        lemma_no_samples_no_owners(fi, cur, f, o - 1);
        lemma_no_part_without_samples(fi, cur, f, o - 1, fi.len() as int);
    }
}

/// Without samples of fragment `f` below `m`, no part of it has a sample below `m`.
proof fn lemma_no_part_without_samples(fi: Seq<u16>, cur: Seq<u16>, f: int, o: int, m: int)
    requires
        m <= fi.len(),
        forall|t: int| 0 <= t < fi.len() ==> #[trigger] fi[t] != f,
    ensures
        part_count(fi, cur, f, o, m) == 0,
    decreases m,
{
    if m > 0 {
        lemma_no_part_without_samples(fi, cur, f, o, m - 1);
        assert(fi[m - 1] != f);
    }
}

/// Which of the first `len0` fragments hold at least one sample.
fn mark_active(fragment_ids: &Vec<u16>, len0: usize) -> (active: Vec<bool>)
    requires
        forall|t: int| 0 <= t < fragment_ids@.len() ==> #[trigger] fragment_ids@[t] < len0,
    ensures
        active@.len() == len0,
        forall|f: int|
            0 <= f < len0 ==> #[trigger] active@[f] == exists|t: int| 0 <= t < fragment_ids@.len() && fragment_ids@[t] == f,
{
    let n = fragment_ids.len();
    let mut active: Vec<bool> = vec![false; len0];
    let mut s: usize = 0;
    while s < n
        invariant
            n == fragment_ids@.len(),
            forall|t: int| 0 <= t < n ==> #[trigger] fragment_ids@[t] < len0,
            active@.len() == len0,
            s <= n,
            forall|f: int| 0 <= f < len0 ==> #[trigger] active@[f] == exists|t: int| 0 <= t < s && fragment_ids@[t] == f,
        decreases n - s,
    {
        let f = fragment_ids[s] as usize;
        active.set(f, true);
        proof {
            assert forall|g: int| 0 <= g < len0 implies #[trigger] active@[g] == exists|t: int|
                0 <= t < s + 1 && fragment_ids@[t] == g by {
                if g == f {
                    assert(fragment_ids@[s as int] == g);
                } else if active@[g] {
                    let t = choose|t: int| 0 <= t < s && fragment_ids@[t] == g;
                    assert(0 <= t < s + 1 && fragment_ids@[t] == g);
                }
            }
        }
        s = s + 1;
    }
    active
}

/// Fragment `i` after the split: a fragment on a single plate takes that
/// plate as its current owner; every other fragment keeps its record.
pub open spec fn settled_fragment_ok(
    frs: Seq<FragmentRecord>,
    fi: Seq<u16>,
    cur: Seq<u16>,
    i: int,
    settled: FragmentRecord,
) -> bool {
    if owner_count(fi, cur, i) == 1 {
        &&& settled == (FragmentRecord { current_plate_id: settled.current_plate_id, ..frs[i] })
        &&& forall|s: int| 0 <= s < fi.len() && fi[s] == i ==> settled.current_plate_id == #[trigger] cur[s]
    } else {
        settled == frs[i]
    }
}

/// The state after splitting every fragment whose samples lie on several
/// plates: the existing records (settled) followed by the children, and each
/// sample moved to its child.
pub open spec fn split_ok(frs: Seq<FragmentRecord>, fi: Seq<u16>, cur: Seq<u16>, split: FragmentSplit) -> bool {
    let len0 = frs.len();
    &&& split.fragments@.len() == len0 + children_before(fi, cur, len0 as int)
    &&& split.fragment_ids@.len() == fi.len()
    &&& forall|s: int| 0 <= s < fi.len() ==> #[trigger] split.fragment_ids@[s] == split_fragment_id(len0, fi, cur, s)
    &&& forall|i: int| 0 <= i < len0 ==> #[trigger] settled_fragment_ok(frs, fi, cur, i, split.fragments@[i])
    &&& forall|f: int, o: int|
        0 <= f < len0 && 0 <= o < PLATE_ID_SPACE && splits(fi, cur, f) && owner_present(fi, cur, f, o)
            ==> split.fragments@[#[trigger] child_id(len0, fi, cur, f, o)] == child_record(len0, frs, fi, cur, f, o)
}

/// Splits every fragment whose samples ended on several modern plates into
/// one child per plate, in fragment order and then plate order. A fragment on
/// a single plate takes that plate as its owner. The split is refused when
/// the children would exhaust the fragment id space.
pub fn split_fragments_at_final_boundaries(
    fragments: &Vec<FragmentRecord>,
    fragment_ids: &Vec<u16>,
    current_plate_ids: &Vec<u16>,
) -> (result: Result<FragmentSplit, WorldgenError>)
    requires
        fragment_ids@.len() == current_plate_ids@.len(),
        fragment_ids@.len() <= u32::MAX,
        forall|s: int| 0 <= s < fragment_ids@.len() ==> #[trigger] fragment_ids@[s] < fragments@.len(),
    ensures
        ({
            let total = children_before(fragment_ids@, current_plate_ids@, fragments@.len() as int);
            &&& result is Err <==> total > 0 && fragments@.len() + total >= FRAGMENT_ID_CAPACITY
            &&& result matches Err(e) ==> e == WorldgenError::InvalidLithosphere(
                "forward plate evolution exhausted fragment id capacity",
            )
            &&& result matches Ok(split) ==> split_ok(fragments@, fragment_ids@, current_plate_ids@, split)
        }),
{
    let ghost frs = fragments@;
    let ghost fi = fragment_ids@;
    let ghost cur = current_plate_ids@;
    let len0 = fragments.len();
    let n = fragment_ids.len();
    let mut out_frs: Vec<FragmentRecord> = Vec::new();
    let mut i: usize = 0;
    while i < len0
        invariant
            frs == fragments@,
            len0 == frs.len(),
            i <= len0,
            out_frs@ == frs.take(i as int),
        decreases len0 - i,
    {
        out_frs.push(fragments[i]);
        proof {
            assert(frs.take(i as int).push(frs[i as int]) =~= frs.take(i + 1));
        }
        i = i + 1;
    }
    let mut out_fi: Vec<u16> = Vec::new();
    let mut s: usize = 0;
    while s < n
        invariant
            fi == fragment_ids@,
            n == fi.len(),
            s <= n,
            out_fi@ == fi.take(s as int),
        decreases n - s,
    {
        out_fi.push(fragment_ids[s]);
        proof {
            assert(fi.take(s as int).push(fi[s as int]) =~= fi.take(s + 1));
        }
        s = s + 1;
    }
    proof {
        assert(out_frs@ =~= frs);
        assert(out_fi@ =~= fi);
    }
    let active = mark_active(fragment_ids, len0);
    let mut f: usize = 0;
    while f < len0
        invariant
            active@.len() == len0,
            forall|g: int|
                0 <= g < len0 ==> #[trigger] active@[g] == exists|t: int| 0 <= t < fragment_ids@.len() && fragment_ids@[t] == g,
            frs == fragments@,
            fi == fragment_ids@,
            cur == current_plate_ids@,
            len0 == frs.len(),
            n == fi.len(),
            n == cur.len(),
            n <= u32::MAX,
            forall|t: int| 0 <= t < n ==> #[trigger] fi[t] < len0,
            f <= len0,
            out_frs@.len() == len0 + children_before(fi, cur, f as int),
            children_before(fi, cur, f as int) > 0 ==> len0 + children_before(fi, cur, f as int) < FRAGMENT_ID_CAPACITY,
            out_fi@.len() == n,
            forall|t: int|
                0 <= t < n ==> #[trigger] out_fi@[t] == if fi[t] < f {
                    split_fragment_id(len0 as nat, fi, cur, t)
                } else {
                    fi[t] as int
                },
            forall|j: int| f <= j < len0 ==> #[trigger] out_frs@[j] == frs[j],
            forall|j: int| 0 <= j < f ==> #[trigger] settled_fragment_ok(frs, fi, cur, j, out_frs@[j]),
            forall|g: int, o: int|
                0 <= g < f && 0 <= o < PLATE_ID_SPACE && splits(fi, cur, g) && owner_present(fi, cur, g, o)
                    ==> out_frs@[#[trigger] child_id(len0 as nat, fi, cur, g, o)] == child_record(
                    len0 as nat,
                    frs,
                    fi,
                    cur,
                    g,
                    o,
                ),
        decreases len0 - f,
    {
        let ghost out_frs0 = out_frs@;
        let ghost out_fi0 = out_fi@;
        proof {
            lemma_children_before_mono(fi, cur, f as int, f + 1);
        }
        if !active[f] {
            proof {
                assert forall|t: int| 0 <= t < fi.len() implies #[trigger] fi[t] != f by {
                    if fi[t] == f {
                        assert(active@[f as int]);
                    }
                }
                lemma_no_samples_no_owners(fi, cur, f as int, PLATE_ID_SPACE as int);
            }
        } else {
            let (counts, first) = scan_fragment_parts(fragment_ids, current_plate_ids, f);
            let (k, last) = count_owners(&counts, Ghost(fi), Ghost(cur), Ghost(f as int));
            if k == 1 {
                let mut settled = out_frs[f];
                settled.current_plate_id = last;
                out_frs.set(f, settled);
                proof {
                    assert forall|t: int| 0 <= t < n && fi[t] == f implies cur[t] == last by {
                        lemma_single_owner(fi, cur, f as int, last as int, t);
                    }
                    assert(settled_fragment_ok(frs, fi, cur, f as int, out_frs@[f as int]));
                }
            } else if k >= 2 {
                let base = out_frs.len();
                if k >= FRAGMENT_ID_CAPACITY || base >= FRAGMENT_ID_CAPACITY - k {
                    proof {
                        lemma_children_before_mono(fi, cur, f + 1, len0 as int);
                    }
                    return Err(WorldgenError::InvalidLithosphere("forward plate evolution exhausted fragment id capacity"));
                }
                let ids = push_children(
                    &mut out_frs,
                    fragments[f],
                    &counts,
                    &first,
                    Ghost(len0 as nat),
                    Ghost(frs),
                    Ghost(fi),
                    Ghost(cur),
                    Ghost(f as int),
                );
                reassign_samples(&mut out_fi, fragment_ids, current_plate_ids, f, &ids);
                proof {
                    assert forall|t: int| 0 <= t < n && fi[t] == f implies #[trigger] owner_present(
                        fi,
                        cur,
                        f as int,
                        cur[t] as int,
                    ) by {
                        assert(on_part(fi, cur, f as int, cur[t] as int, t));
                        lemma_part_count(fi, cur, f as int, cur[t] as int, n as int);
                    }
                    assert forall|g: int, o: int|
                        0 <= g < f && 0 <= o < PLATE_ID_SPACE && splits(fi, cur, g) && owner_present(fi, cur, g, o)
                            implies out_frs@[#[trigger] child_id(len0 as nat, fi, cur, g, o)] == out_frs0[child_id(
                            len0 as nat,
                            fi,
                            cur,
                            g,
                            o,
                        )] by {
                        lemma_owners_below_mono(fi, cur, g, o, o + 1);
                        lemma_owners_below_mono(fi, cur, g, o + 1, PLATE_ID_SPACE as int);
                        lemma_children_before_mono(fi, cur, g + 1, f as int);
                    }
                }
            }
        }
        proof {
            assert forall|g: int, o: int|
                0 <= g < f + 1 && 0 <= o < PLATE_ID_SPACE && splits(fi, cur, g) && owner_present(fi, cur, g, o)
                    implies out_frs@[#[trigger] child_id(len0 as nat, fi, cur, g, o)] == child_record(
                    len0 as nat,
                    frs,
                    fi,
                    cur,
                    g,
                    o,
                ) by {
                if g < f {
                    lemma_owners_below_mono(fi, cur, g, o, o + 1);
                    lemma_owners_below_mono(fi, cur, g, o + 1, PLATE_ID_SPACE as int);
                    lemma_children_before_mono(fi, cur, g + 1, f as int);
                    assert(out_frs@[child_id(len0 as nat, fi, cur, g, o)] == out_frs0[child_id(len0 as nat, fi, cur, g, o)]);
                }
            }
            assert forall|j: int| 0 <= j < f + 1 implies #[trigger] settled_fragment_ok(frs, fi, cur, j, out_frs@[j]) by {
                if j < f {
                    assert(out_frs@[j] == out_frs0[j]);
                }
            }
        }
        f = f + 1;
    }
    proof {
        assert forall|t: int| 0 <= t < n implies #[trigger] out_fi@[t] == split_fragment_id(len0 as nat, fi, cur, t) by {
            assert(fi[t] < len0);
        }
    }
    Ok(FragmentSplit { fragments: out_frs, fragment_ids: out_fi })
}

/// The split was accepted: either no fragment splits, or the children fit in
/// the fragment id space.
pub open spec fn split_fits(frs: Seq<FragmentRecord>, fi: Seq<u16>, cur: Seq<u16>) -> bool {
    let total = children_before(fi, cur, frs.len() as int);
    !(total > 0 && frs.len() + total >= FRAGMENT_ID_CAPACITY)
}

/// Every fragment id past the existing ones belongs to some fragment below `m`.
proof fn lemma_child_parent_exists(fi: Seq<u16>, cur: Seq<u16>, m: int, x: int)
    requires
        0 <= m,
        0 <= x < children_before(fi, cur, m),
    ensures
        exists|f: int| 0 <= f < m && children_before(fi, cur, f) <= x < #[trigger] children_before(fi, cur, f + 1),
    decreases m,
{
    if x < children_before(fi, cur, m - 1) {
        lemma_child_parent_exists(fi, cur, m - 1, x);
        let f = choose|f: int| 0 <= f < m - 1 && children_before(fi, cur, f) <= x < #[trigger] children_before(fi, cur, f + 1);
        assert(0 <= f < m && children_before(fi, cur, f) <= x < children_before(fi, cur, f + 1));
    } else {
        assert(children_before(fi, cur, m - 1) <= x < children_before(fi, cur, (m - 1) + 1));
    }
}

/// Every rank below `owners_below(m)` is the rank of some owning plate below `m`.
proof fn lemma_owner_rank_exists(fi: Seq<u16>, cur: Seq<u16>, f: int, m: int, r: int)
    requires
        0 <= m,
        0 <= r < owners_below(fi, cur, f, m),
    ensures
        exists|o: int| 0 <= o < m && owner_present(fi, cur, f, o) && #[trigger] owners_below(fi, cur, f, o) == r,
    decreases m,
{
    if r < owners_below(fi, cur, f, m - 1) {
        lemma_owner_rank_exists(fi, cur, f, m - 1, r);
        let o = choose|o: int| 0 <= o < m - 1 && owner_present(fi, cur, f, o) && #[trigger] owners_below(fi, cur, f, o) == r;
        assert(0 <= o < m && owner_present(fi, cur, f, o) && owners_below(fi, cur, f, o) == r);
    } else {
        assert(owner_present(fi, cur, f, m - 1) && owners_below(fi, cur, f, m - 1) == r);
    }
}

/// Every fragment created by the split is the child of a straddling fragment
/// on one of its plates.
pub proof fn lemma_children_are_parts(frs: Seq<FragmentRecord>, fi: Seq<u16>, cur: Seq<u16>, c: int)
    requires
        frs.len() <= c < frs.len() + children_before(fi, cur, frs.len() as int),
    ensures
        exists|f: int, o: int|
            0 <= f < frs.len() && 0 <= o < PLATE_ID_SPACE && splits(fi, cur, f) && owner_present(fi, cur, f, o) && c
                == #[trigger] child_id(frs.len(), fi, cur, f, o),
{
    let len0 = frs.len();
    let x = c - len0;
    lemma_child_parent_exists(fi, cur, len0 as int, x);
    let f = choose|f: int| 0 <= f < len0 && children_before(fi, cur, f) <= x < #[trigger] children_before(fi, cur, f + 1);
    assert(splits(fi, cur, f));
    let r = x - children_before(fi, cur, f);
    lemma_owner_rank_exists(fi, cur, f, PLATE_ID_SPACE as int, r);
    let o = choose|o: int|
        0 <= o < PLATE_ID_SPACE && owner_present(fi, cur, f, o) && #[trigger] owners_below(fi, cur, f, o) == r;
    assert(c == child_id(len0, fi, cur, f, o));
}

/// After an accepted split every sample names an existing fragment, that
/// fragment is owned by the sample's plate, and it carries the same
/// ancestral material as the sample's fragment before the split.
pub proof fn lemma_split_keeps_ownership(
    frs: Seq<FragmentRecord>,
    fi: Seq<u16>,
    cur: Seq<u16>,
    split: FragmentSplit,
    s: int,
)
    requires
        fi.len() == cur.len(),
        forall|t: int| 0 <= t < fi.len() ==> #[trigger] fi[t] < frs.len(),
        split_fits(frs, fi, cur),
        split_ok(frs, fi, cur, split),
        0 <= s < fi.len(),
    ensures
        0 <= split.fragment_ids@[s] < split.fragments@.len(),
        split.fragments@[split.fragment_ids@[s] as int].current_plate_id == cur[s],
        split.fragments@[split.fragment_ids@[s] as int].origin_plate_id == frs[fi[s] as int].origin_plate_id,
{
    let len0 = frs.len();
    let f = fi[s] as int;
    let o = cur[s] as int;
    assert(split.fragment_ids@[s] == split_fragment_id(len0, fi, cur, s));
    assert(on_part(fi, cur, f, o, s));
    lemma_part_count(fi, cur, f, o, fi.len() as int);
    lemma_owners_below_mono(fi, cur, f, o, o + 1);
    lemma_owners_below_mono(fi, cur, f, o + 1, PLATE_ID_SPACE as int);
    if splits(fi, cur, f) {
        lemma_children_before_mono(fi, cur, f + 1, len0 as int);
        assert(split.fragments@[child_id(len0, fi, cur, f, o)] == child_record(len0, frs, fi, cur, f, o));
    } else {
        assert(settled_fragment_ok(frs, fi, cur, f, split.fragments@[f]));
    }
}

/// Lineage part of each fragment record.
pub open spec fn record_lineage(frs: Seq<FragmentRecord>) -> Seq<FragmentLineage> {
    Seq::new(
        frs.len(),
        |i: int|
            FragmentLineage {
                id: frs[i].id,
                parent_fragment_id: frs[i].parent_fragment_id,
                origin_plate_id: frs[i].origin_plate_id,
            },
    )
}

/// An accepted split keeps a valid lineage valid: ids stay dense, every child
/// names an earlier parent, and a child carries its parent's ancestral plate.
pub proof fn lemma_split_keeps_lineage(frs: Seq<FragmentRecord>, fi: Seq<u16>, cur: Seq<u16>, split: FragmentSplit)
    requires
        fi.len() == cur.len(),
        forall|t: int| 0 <= t < fi.len() ==> #[trigger] fi[t] < frs.len(),
        lineage_valid(record_lineage(frs)),
        split_fits(frs, fi, cur),
        split_ok(frs, fi, cur, split),
    ensures
        lineage_valid(record_lineage(split.fragments@)),
{
    let len0 = frs.len();
    let old_l = record_lineage(frs);
    let new_l = record_lineage(split.fragments@);
    assert forall|j: int| 0 <= j < new_l.len() implies #[trigger] fragment_ok(new_l, j) by {
        if j < len0 {
            assert(fragment_ok(old_l, j));
            assert(settled_fragment_ok(frs, fi, cur, j, split.fragments@[j]));
            match frs[j].parent_fragment_id {
                Some(p) => {
                    assert(settled_fragment_ok(frs, fi, cur, p as int, split.fragments@[p as int]));
                },
                None => {},
            }
        } else {
            lemma_children_are_parts(frs, fi, cur, j);
            let (f, o) = choose|f: int, o: int|
                0 <= f < len0 && 0 <= o < PLATE_ID_SPACE && splits(fi, cur, f) && owner_present(fi, cur, f, o) && j
                    == #[trigger] child_id(len0, fi, cur, f, o);
            assert(fragment_ok(old_l, f));
            assert(settled_fragment_ok(frs, fi, cur, f, split.fragments@[f]));
            assert(split.fragments@[j] == child_record(len0, frs, fi, cur, f, o));
        }
    }
}

} // verus!
