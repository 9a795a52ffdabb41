//! Sample adjacency of the planetary mesh and the mask and ownership kernels
//! that only read it: reachability within a mask, side connectivity of a
//! plate split, majority smoothing, plate cores and owner validation.

use vstd::prelude::*;
use crate::error::WorldgenError;

verus! {

/// Neighbor lists of every mesh sample.
pub struct Adjacency {
    pub neighbors: Vec<Vec<u32>>,
}

impl Adjacency {
    /// Every neighbor index names a sample, and sample ids fit in `u32`.
    pub open spec fn wf(&self) -> bool {
        &&& self.neighbors@.len() <= u32::MAX
        &&& forall|s: int| 0 <= s < self.neighbors@.len() ==> (#[trigger] self.neighbors@[s])@.len() <= u32::MAX
        &&& forall|s: int, j: int|
            0 <= s < self.neighbors@.len() && 0 <= j < self.neighbors@[s]@.len() ==> (#[trigger] self.neighbors@[s]@[j])
                < self.neighbors@.len()
    }

    /// Number of samples.
    pub open spec fn len_spec(&self) -> nat {
        self.neighbors@.len()
    }

    /// Checks the neighbor lists: there are fewer than 2^32 samples, each list
    /// is shorter than 2^32, and every neighbor names a sample.
    pub fn new(neighbors: Vec<Vec<u32>>) -> (adjacency: Option<Adjacency>)
        ensures
            adjacency is Some <==> (Adjacency { neighbors }).wf(),
            adjacency matches Some(a) ==> a.neighbors@ == neighbors@,
    {
        let n = neighbors.len();
        if n > 0xffff_ffffusize {
            return None;
        }
        let mut s: usize = 0;
        while s < n
            invariant
                n == neighbors@.len(),
                n <= u32::MAX,
                s <= n,
                forall|t: int| 0 <= t < s ==> (#[trigger] neighbors@[t])@.len() <= u32::MAX,
                forall|t: int, j: int|
                    0 <= t < s && 0 <= j < neighbors@[t]@.len() ==> (#[trigger] neighbors@[t]@[j]) < n,
            decreases n - s,
        {
            let row = &neighbors[s];
            if row.len() > 0xffff_ffffusize {
                return None;
            }
            let mut j: usize = 0;
            while j < row.len()
                invariant
                    n == neighbors@.len(),
                    s < n,
                    row@ == neighbors@[s as int]@,
                    j <= row@.len(),
                    forall|k: int| 0 <= k < j ==> (#[trigger] row@[k]) < n,
                decreases row@.len() - j,
            {
                if row[j] as usize >= n {
                    return None;
                }
                j = j + 1;
            }
            s = s + 1;
        }
        Some(Adjacency { neighbors })
    }

    /// Number of samples.
    pub fn sample_count(&self) -> (count: u32)
        requires
            self.wf(),
        ensures
            count == self.len_spec(),
    {
        self.neighbors.len() as u32
    }
}

/// `t` is reached from `v` in at most `k` steps through samples of `allowed`.
pub open spec fn walk_within(nb: Seq<Vec<u32>>, allowed: Seq<bool>, v: int, t: int, k: nat) -> bool
    decreases k,
{
    v == t || (k > 0 && exists|j: int|
        0 <= j < nb[v]@.len() && allowed[(#[trigger] nb[v]@[j]) as int] && walk_within(
            nb,
            allowed,
            nb[v]@[j] as int,
            t,
            (k - 1) as nat,
        ))
}

/// `t` is connected to the allowed sample `s` through allowed samples.
pub open spec fn reachable_within(nb: Seq<Vec<u32>>, allowed: Seq<bool>, s: int, t: int) -> bool {
    allowed[s] && exists|k: nat| walk_within(nb, allowed, s, t, k)
}

proof fn lemma_walk_extend(nb: Seq<Vec<u32>>, allowed: Seq<bool>, x: int, u: int, j: int, k: nat)
    requires
        walk_within(nb, allowed, x, u, k),
        0 <= j < nb[u]@.len(),
        allowed[nb[u]@[j] as int],
    ensures
        walk_within(nb, allowed, x, nb[u]@[j] as int, k + 1),
    decreases k,
{
    let t = nb[u]@[j] as int;
    if x == u {
        assert(walk_within(nb, allowed, t, t, k));
    } else {
        let i = choose|i: int|
            0 <= i < nb[x]@.len() && allowed[(#[trigger] nb[x]@[i]) as int] && walk_within(
                nb,
                allowed,
                nb[x]@[i] as int,
                u,
                (k - 1) as nat,
            );
        lemma_walk_extend(nb, allowed, nb[x]@[i] as int, u, j, (k - 1) as nat);
    }
}

proof fn lemma_walk_closed(nb: Seq<Vec<u32>>, allowed: Seq<bool>, seen: Seq<bool>, x: int, t: int, k: nat)
    requires
        seen.len() == nb.len(),
        0 <= x < nb.len(),
        seen[x],
        forall|s: int, j: int| 0 <= s < nb.len() && 0 <= j < nb[s]@.len() ==> (#[trigger] nb[s]@[j]) < nb.len(),
        forall|s: int, j: int|
            0 <= s < nb.len() && seen[s] && 0 <= j < nb[s]@.len() && allowed[(#[trigger] nb[s]@[j]) as int]
                ==> seen[nb[s]@[j] as int],
        walk_within(nb, allowed, x, t, k),
    ensures
        seen[t],
    decreases k,
{
    if x != t {
        let i = choose|i: int|
            0 <= i < nb[x]@.len() && allowed[(#[trigger] nb[x]@[i]) as int] && walk_within(
                nb,
                allowed,
                nb[x]@[i] as int,
                t,
                (k - 1) as nat,
            );
        lemma_walk_closed(nb, allowed, seen, nb[x]@[i] as int, t, (k - 1) as nat);
    }
}

/// Marks every sample connected to `start` through samples of `allowed`.
pub fn reach_within(adjacency: &Adjacency, allowed: &Vec<bool>, start: u32) -> (seen: Vec<bool>)
    requires
        adjacency.wf(),
        allowed@.len() == adjacency.neighbors@.len(),
        start < adjacency.neighbors@.len(),
        allowed@[start as int],
    ensures
        seen@.len() == allowed@.len(),
        forall|t: int|
            0 <= t < seen@.len() ==> #[trigger] seen@[t] == reachable_within(
                adjacency.neighbors@,
                allowed@,
                start as int,
                t,
            ),
{
    let ghost nb = adjacency.neighbors@;
    let n = adjacency.neighbors.len();
    let mut seen: Vec<bool> = vec![false; n];
    proof {
        assert(seen@ =~= Seq::new(n as nat, |v: int| false));
        lemma_count_false_all(n as nat);
        lemma_count_false_update(seen@, start as int);
    }
    seen.set(start as usize, true);
    let mut queue: Vec<u32> = Vec::new();
    queue.push(start);
    let ghost mut parent: Seq<int> = Seq::new(n as nat, |v: int| 0int);
    let ghost mut pslot: Seq<int> = Seq::new(n as nat, |v: int| 0int);
    let ghost mut depth: Seq<nat> = Seq::new(n as nat, |v: int| 0nat);
    proof {
        assert forall|v: int| 0 <= v < n && #[trigger] seen@[v] implies exists|q: int|
            0 <= q < queue@.len() && queue@[q] == v by {
            assert(queue@[0] == start);
        }
    }
    let mut head: usize = 0;
    while head < queue.len()
        invariant
            nb == adjacency.neighbors@,
            adjacency.wf(),
            n == nb.len(),
            allowed@.len() == n,
            allowed@[start as int],
            start < n,
            seen@.len() == n,
            seen@[start as int],
            head <= queue@.len(),
            queue@.len() + count_false(seen@) == n,
            forall|q: int| 0 <= q < queue@.len() ==> (#[trigger] queue@[q]) < n && seen@[queue@[q] as int],
            forall|v: int| 0 <= v < n && #[trigger] seen@[v] ==> exists|q: int|
                0 <= q < queue@.len() && queue@[q] == v,
            forall|q: int, j: int|
                0 <= q < head && 0 <= j < nb[queue@[q] as int]@.len() && allowed@[(#[trigger] nb[queue@[q] as int]@[j]) as int]
                    ==> seen@[nb[queue@[q] as int]@[j] as int],
            forall|v: int|
                0 <= v < n && #[trigger] seen@[v] ==> walk_within(nb, allowed@, start as int, v, depth[v]),
            depth.len() == n,
        decreases n - head,
    {
        let sample = queue[head];
        let row = &adjacency.neighbors[sample as usize];
        let mut j: usize = 0;
        while j < row.len()
            invariant
                nb == adjacency.neighbors@,
                adjacency.wf(),
                n == nb.len(),
                allowed@.len() == n,
                allowed@[start as int],
                start < n,
                seen@.len() == n,
                seen@[start as int],
                head < queue@.len(),
                queue@.len() + count_false(seen@) == n,
                sample == queue@[head as int],
                row@ == nb[sample as int]@,
                j <= row@.len(),
                forall|q: int| 0 <= q < queue@.len() ==> (#[trigger] queue@[q]) < n && seen@[queue@[q] as int],
                    forall|v: int| 0 <= v < n && #[trigger] seen@[v] ==> exists|q: int|
                    0 <= q < queue@.len() && queue@[q] == v,
                forall|q: int, jj: int|
                    0 <= q < head && 0 <= jj < nb[queue@[q] as int]@.len() && allowed@[(#[trigger] nb[queue@[q] as int]@[jj]) as int]
                        ==> seen@[nb[queue@[q] as int]@[jj] as int],
                forall|jj: int|
                    0 <= jj < j && allowed@[(#[trigger] nb[sample as int]@[jj]) as int] ==> seen@[nb[sample as int]@[jj] as int],
                forall|v: int|
                    0 <= v < n && #[trigger] seen@[v] ==> walk_within(nb, allowed@, start as int, v, depth[v]),
                depth.len() == n,
            decreases row@.len() - j,
        {
            let next = row[j];
            if allowed[next as usize] && !seen[next as usize] {
                let ghost old_seen = seen@;
                let ghost old_queue = queue@;
                proof {
                    lemma_count_false_update(seen@, next as int);
                    lemma_walk_extend(nb, allowed@, start as int, sample as int, j as int, depth[sample as int]);
                    depth = depth.update(next as int, depth[sample as int] + 1);
                }
                seen.set(next as usize, true);
                queue.push(next);
                proof {
                    assert forall|v: int| 0 <= v < n && #[trigger] seen@[v] implies exists|q: int|
                        0 <= q < queue@.len() && queue@[q] == v by {
                        if v == next {
                            assert(queue@[old_queue.len() as int] == v);
                        } else {
                            let q = choose|q: int| 0 <= q < old_queue.len() && old_queue[q] == v;
                            assert(queue@[q] == v);
                        }
                    }
                }
            }
            j = j + 1;
        }
        head = head + 1;
    }
    proof {
        assert forall|s: int, jj: int|
            0 <= s < nb.len() && seen@[s] && 0 <= jj < nb[s]@.len() && allowed@[(#[trigger] nb[s]@[jj]) as int]
                implies seen@[nb[s]@[jj] as int] by {
            let q = choose|q: int| 0 <= q < queue@.len() && queue@[q] == s;
        }
        assert forall|t: int| 0 <= t < seen@.len() implies #[trigger] seen@[t] == reachable_within(
            nb,
            allowed@,
            start as int,
            t,
        ) by {
            if seen@[t] {
                assert(walk_within(nb, allowed@, start as int, t, depth[t]));
            } else {
                assert forall|k: nat| !walk_within(nb, allowed@, start as int, t, k) by {
                    if walk_within(nb, allowed@, start as int, t, k) {
                        lemma_walk_closed(nb, allowed@, seen@, start as int, t, k);
                    }
                }
            }
        }
    }
    seen
}

/// A walk through allowed samples from an allowed sample only meets allowed samples.
proof fn lemma_walk_allowed(nb: Seq<Vec<u32>>, allowed: Seq<bool>, x: int, t: int, k: nat)
    requires
        allowed[x],
        walk_within(nb, allowed, x, t, k),
    ensures
        allowed[t],
    decreases k,
{
    if x != t {
        let i = choose|i: int|
            0 <= i < nb[x]@.len() && allowed[(#[trigger] nb[x]@[i]) as int] && walk_within(
                nb,
                allowed,
                nb[x]@[i] as int,
                t,
                (k - 1) as nat,
            );
        lemma_walk_allowed(nb, allowed, nb[x]@[i] as int, t, (k - 1) as nat);
    }
}

/// Label of a sample that lies in no component.
pub const NO_COMPONENT: u32 = 0xffff_ffff;

/// Masked samples that no component has claimed yet.
pub open spec fn unclaimed(mask: Seq<bool>, labels: Seq<u32>) -> Seq<bool> {
    Seq::new(mask.len(), |t: int| mask[t] && labels[t] == NO_COMPONENT)
}

/// Component labels and component count after scanning the first `k`
/// samples as starts: an unclaimed masked start claims, under the next label,
/// every sample it reaches through unclaimed masked samples.
pub open spec fn component_scan(nb: Seq<Vec<u32>>, mask: Seq<bool>, k: nat) -> (Seq<u32>, nat)
    decreases k,
{
    if k == 0 {
        (Seq::new(mask.len(), |t: int| NO_COMPONENT), 0)
    } else {
        let prev = component_scan(nb, mask, (k - 1) as nat);
        let s = k - 1;
        if s < mask.len() && mask[s] && prev.0[s] == NO_COMPONENT {
            let allowed = unclaimed(mask, prev.0);
            (
                Seq::new(
                    mask.len(),
                    |t: int|
                        if reachable_within(nb, allowed, s, t) {
                            prev.1 as u32
                        } else {
                            prev.0[t]
                        },
                ),
                prev.1 + 1,
            )
        } else {
            prev
        }
    }
}

/// Labels the connected components of `mask` in order of their smallest
/// sample (breadth-first from it), and returns the labels with the number of
/// components; samples outside the mask get `NO_COMPONENT`.
pub fn label_components(adjacency: &Adjacency, mask: &Vec<bool>) -> (result: (Vec<u32>, u32))
    requires
        adjacency.wf(),
        mask@.len() == adjacency.neighbors@.len(),
        mask@.len() < u32::MAX,
    ensures
        result.0@ == component_scan(adjacency.neighbors@, mask@, mask@.len()).0,
        result.1 == component_scan(adjacency.neighbors@, mask@, mask@.len()).1,
        forall|t: int| 0 <= t < mask@.len() ==> (#[trigger] result.0@[t] == NO_COMPONENT <==> !mask@[t]),
        forall|t: int| 0 <= t < mask@.len() && mask@[t] ==> #[trigger] result.0@[t] < result.1,
{
    let ghost nb = adjacency.neighbors@;
    let n = mask.len();
    let mut labels: Vec<u32> = vec![NO_COMPONENT; n];
    let mut count: u32 = 0;
    let mut start: usize = 0;
    proof {
        assert(labels@ =~= component_scan(nb, mask@, 0).0);
    }
    while start < n
        invariant
            nb == adjacency.neighbors@,
            adjacency.wf(),
            n == mask@.len(),
            n == nb.len(),
            n < u32::MAX,
            start <= n,
            labels@ == component_scan(nb, mask@, start as nat).0,
            count == component_scan(nb, mask@, start as nat).1,
            count <= start,
            labels@.len() == n,
            forall|t: int| 0 <= t < n && #[trigger] labels@[t] != NO_COMPONENT ==> mask@[t] && labels@[t] < count,
            forall|t: int| 0 <= t < start && mask@[t] ==> #[trigger] labels@[t] != NO_COMPONENT,
        decreases n - start,
    {
        if mask[start] && labels[start] == NO_COMPONENT {
            let mut allowed: Vec<bool> = Vec::new();
            let mut t: usize = 0;
            while t < n
                invariant
                    n == mask@.len(),
                    n == labels@.len(),
                    t <= n,
                    allowed@.len() == t,
                    forall|u: int| 0 <= u < t ==> #[trigger] allowed@[u] == (mask@[u] && labels@[u] == NO_COMPONENT),
                decreases n - t,
            {
                allowed.push(mask[t] && labels[t] == NO_COMPONENT);
                t = t + 1;
            }
            proof {
                assert(allowed@ =~= unclaimed(mask@, labels@));
            }
            let seen = reach_within(adjacency, &allowed, start as u32);
            let ghost before = labels@;
            let mut u: usize = 0;
            while u < n
                invariant
                    n == mask@.len(),
                    n == labels@.len(),
                    n == seen@.len(),
                    n == before.len(),
                    u <= n,
                    forall|v: int| 0 <= v < n ==> #[trigger] labels@[v] == if v < u && seen@[v] {
                        count
                    } else {
                        before[v]
                    },
                decreases n - u,
            {
                if seen[u] {
                    labels.set(u, count);
                }
                u = u + 1;
            }
            proof {
                assert forall|v: int| 0 <= v < n && seen@[v] implies allowed@[v] by {
                    let k = choose|k: nat| walk_within(nb, allowed@, start as int, v, k);
                    lemma_walk_allowed(nb, allowed@, start as int, v, k);
                }
                assert(seen@[start as int]) by {
                    assert(walk_within(nb, allowed@, start as int, start as int, 0));
                }
                assert(labels@ =~= component_scan(nb, mask@, (start + 1) as nat).0);
            }
            count = count + 1;
        }
        start = start + 1;
    }
    (labels, count)
}

/// Every neighbor relation of the mesh goes both ways.
pub open spec fn symmetric_neighbors(nb: Seq<Vec<u32>>) -> bool {
    forall|s: int, j: int|
        0 <= s < nb.len() && 0 <= j < nb[s]@.len() ==> exists|i: int|
            0 <= i < nb[(#[trigger] nb[s]@[j]) as int]@.len() && nb[nb[s]@[j] as int]@[i] == s
}

proof fn lemma_walk_concat(nb: Seq<Vec<u32>>, allowed: Seq<bool>, x: int, y: int, z: int, k1: nat, k2: nat)
    requires
        walk_within(nb, allowed, x, y, k1),
        walk_within(nb, allowed, y, z, k2),
    ensures
        walk_within(nb, allowed, x, z, k1 + k2),
    decreases k1,
{
    if x == y {
        lemma_walk_more_steps(nb, allowed, y, z, k2, k1 + k2);
    } else {
        let i = choose|i: int|
            0 <= i < nb[x]@.len() && allowed[(#[trigger] nb[x]@[i]) as int] && walk_within(
                nb,
                allowed,
                nb[x]@[i] as int,
                y,
                (k1 - 1) as nat,
            );
        lemma_walk_concat(nb, allowed, nb[x]@[i] as int, y, z, (k1 - 1) as nat, k2);
    }
}

proof fn lemma_walk_more_steps(nb: Seq<Vec<u32>>, allowed: Seq<bool>, x: int, z: int, k: nat, m: nat)
    requires
        walk_within(nb, allowed, x, z, k),
        k <= m,
    ensures
        walk_within(nb, allowed, x, z, m),
    decreases k,
{
    if x != z {
        let i = choose|i: int|
            0 <= i < nb[x]@.len() && allowed[(#[trigger] nb[x]@[i]) as int] && walk_within(
                nb,
                allowed,
                nb[x]@[i] as int,
                z,
                (k - 1) as nat,
            );
        lemma_walk_more_steps(nb, allowed, nb[x]@[i] as int, z, (k - 1) as nat, (m - 1) as nat);
    }
}

proof fn lemma_walk_reverse(nb: Seq<Vec<u32>>, allowed: Seq<bool>, x: int, y: int, k: nat)
    requires
        symmetric_neighbors(nb),
        0 <= x < nb.len(),
        allowed[x],
        forall|s: int, j: int| 0 <= s < nb.len() && 0 <= j < nb[s]@.len() ==> (#[trigger] nb[s]@[j]) < nb.len(),
        walk_within(nb, allowed, x, y, k),
    ensures
        walk_within(nb, allowed, y, x, k),
    decreases k,
{
    if x != y {
        let i = choose|i: int|
            0 <= i < nb[x]@.len() && allowed[(#[trigger] nb[x]@[i]) as int] && walk_within(
                nb,
                allowed,
                nb[x]@[i] as int,
                y,
                (k - 1) as nat,
            );
        let w = nb[x]@[i] as int;
        lemma_walk_reverse(nb, allowed, w, y, (k - 1) as nat);
        let back = choose|b: int| 0 <= b < nb[w]@.len() && nb[w]@[b] == x;
        assert(nb[w]@[back] == x);
        lemma_walk_concat(nb, allowed, y, w, w, (k - 1) as nat, 0);
        assert(walk_within(nb, allowed, x, x, 0));
        lemma_walk_extend(nb, allowed, y, w, back, (k - 1) as nat);
    }
}

proof fn lemma_walk_subset(nb: Seq<Vec<u32>>, small: Seq<bool>, large: Seq<bool>, x: int, y: int, k: nat)
    requires
        small.len() == large.len(),
        small.len() == nb.len(),
        forall|t: int| 0 <= t < small.len() && small[t] ==> large[t],
        forall|s: int, j: int| 0 <= s < nb.len() && 0 <= j < nb[s]@.len() ==> (#[trigger] nb[s]@[j]) < small.len(),
        0 <= x < nb.len(),
        walk_within(nb, small, x, y, k),
    ensures
        walk_within(nb, large, x, y, k),
    decreases k,
{
    if x != y {
        let i = choose|i: int|
            0 <= i < nb[x]@.len() && small[(#[trigger] nb[x]@[i]) as int] && walk_within(
                nb,
                small,
                nb[x]@[i] as int,
                y,
                (k - 1) as nat,
            );
        lemma_walk_subset(nb, small, large, nb[x]@[i] as int, y, (k - 1) as nat);
        assert(large[nb[x]@[i] as int]);
    }
}

/// A walk through the mask that starts outside a neighbor-closed claimed set
/// never enters it (the neighbor relation being symmetric).
proof fn lemma_walk_avoids_closed(nb: Seq<Vec<u32>>, mask: Seq<bool>, labels: Seq<u32>, x: int, y: int, k: nat)
    requires
        symmetric_neighbors(nb),
        mask.len() == nb.len(),
        labels.len() == nb.len(),
        forall|s: int, j: int| 0 <= s < nb.len() && 0 <= j < nb[s]@.len() ==> (#[trigger] nb[s]@[j]) < nb.len(),
        forall|s: int, j: int|
            0 <= s < nb.len() && labels[s] != NO_COMPONENT && 0 <= j < nb[s]@.len() && mask[(#[trigger] nb[s]@[j]) as int]
                ==> labels[nb[s]@[j] as int] != NO_COMPONENT,
        0 <= x < nb.len(),
        mask[x],
        labels[x] == NO_COMPONENT,
        walk_within(nb, mask, x, y, k),
    ensures
        walk_within(nb, unclaimed(mask, labels), x, y, k),
    decreases k,
{
    if x != y {
        let i = choose|i: int|
            0 <= i < nb[x]@.len() && mask[(#[trigger] nb[x]@[i]) as int] && walk_within(
                nb,
                mask,
                nb[x]@[i] as int,
                y,
                (k - 1) as nat,
            );
        let w = nb[x]@[i] as int;
        if labels[w] != NO_COMPONENT {
            let back = choose|b: int| 0 <= b < nb[w]@.len() && nb[w]@[b] == x;
            assert(nb[w]@[back] == x);
            assert(false);
        }
        lemma_walk_avoids_closed(nb, mask, labels, w, y, (k - 1) as nat);
        assert(unclaimed(mask, labels)[w]);
    }
}

/// What holds of the labels after every step of the component scan on a
/// symmetric mesh.
spec fn scan_invariant(nb: Seq<Vec<u32>>, mask: Seq<bool>, k: nat) -> bool {
    let labels = component_scan(nb, mask, k).0;
    let count = component_scan(nb, mask, k).1;
    &&& labels.len() == mask.len()
    &&& count <= k
    &&& forall|x: int| 0 <= x < mask.len() && #[trigger] labels[x] != NO_COMPONENT ==> mask[x] && labels[x] < count
    &&& forall|x: int, y: int|
        0 <= x < mask.len() && 0 <= y < mask.len() && #[trigger] labels[x] != NO_COMPONENT && #[trigger] labels[y]
            != NO_COMPONENT ==> (labels[x] == labels[y] <==> reachable_within(nb, mask, x, y))
    &&& forall|s: int, j: int|
        0 <= s < nb.len() && labels[s] != NO_COMPONENT && 0 <= j < nb[s]@.len() && mask[(#[trigger] nb[s]@[j]) as int]
            ==> labels[nb[s]@[j] as int] != NO_COMPONENT
    &&& forall|x: int| 0 <= x < k && x < mask.len() && mask[x] ==> #[trigger] labels[x] != NO_COMPONENT
}

proof fn lemma_scan_invariant(nb: Seq<Vec<u32>>, mask: Seq<bool>, k: nat)
    requires
        symmetric_neighbors(nb),
        mask.len() == nb.len(),
        mask.len() < u32::MAX,
        forall|s: int, j: int| 0 <= s < nb.len() && 0 <= j < nb[s]@.len() ==> (#[trigger] nb[s]@[j]) < nb.len(),
    ensures
        scan_invariant(nb, mask, k),
    decreases k,
{
    if k > 0 {
        lemma_scan_invariant(nb, mask, (k - 1) as nat);
        let prev = component_scan(nb, mask, (k - 1) as nat);
        let labels = prev.0;
        let count = prev.1;
        let s = k - 1;
        if s < mask.len() && mask[s] && labels[s] == NO_COMPONENT {
            let allowed = unclaimed(mask, labels);
            let next = component_scan(nb, mask, k).0;
            assert(allowed.len() == mask.len());
            assert forall|t: int| 0 <= t < mask.len() implies (reachable_within(nb, allowed, s, t)
                <==> reachable_within(nb, mask, s, t)) by {
                if reachable_within(nb, allowed, s, t) {
                    let m = choose|m: nat| walk_within(nb, allowed, s, t, m);
                    lemma_walk_subset(nb, allowed, mask, s, t, m);
                }
                if reachable_within(nb, mask, s, t) {
                    let m = choose|m: nat| walk_within(nb, mask, s, t, m);
                    lemma_walk_avoids_closed(nb, mask, labels, s, t, m);
                }
            }
            assert forall|x: int| 0 <= x < mask.len() && reachable_within(nb, allowed, s, x) implies allowed[x] by {
                let m = choose|m: nat| walk_within(nb, allowed, s, x, m);
                lemma_walk_allowed(nb, allowed, s, x, m);
            }
            // labels of the new component are masked and below the new count
            assert forall|x: int| 0 <= x < mask.len() && #[trigger] next[x] != NO_COMPONENT implies mask[x]
                && next[x] < count + 1 by {
                if reachable_within(nb, allowed, s, x) {
                    assert(allowed[x]);
                }
            }
            assert forall|x: int, y: int|
                0 <= x < mask.len() && 0 <= y < mask.len() && #[trigger] next[x] != NO_COMPONENT && #[trigger] next[y]
                    != NO_COMPONENT implies (next[x] == next[y] <==> reachable_within(nb, mask, x, y)) by {
                let rx = reachable_within(nb, allowed, s, x);
                let ry = reachable_within(nb, allowed, s, y);
                if rx && ry {
                    assert(allowed[x] && allowed[y]);
                    let mx = choose|m: nat| walk_within(nb, mask, s, x, m);
                    let my = choose|m: nat| walk_within(nb, mask, s, y, m);
                    lemma_walk_reverse(nb, mask, s, x, mx);
                    lemma_walk_concat(nb, mask, x, s, y, mx, my);
                } else if rx && !ry {
                    assert(allowed[x]);
                    assert(labels[y] != NO_COMPONENT);
                    if reachable_within(nb, mask, x, y) {
                        let mx = choose|m: nat| walk_within(nb, mask, s, x, m);
                        let m = choose|m: nat| walk_within(nb, mask, x, y, m);
                        lemma_walk_concat(nb, mask, s, x, y, mx, m);
                        assert(reachable_within(nb, mask, s, y));
                        assert(allowed[y]);
                        assert(false);
                    }
                } else if !rx && ry {
                    assert(allowed[y]);
                    assert(labels[x] != NO_COMPONENT);
                    if reachable_within(nb, mask, x, y) {
                        let my = choose|m: nat| walk_within(nb, mask, s, y, m);
                        let m = choose|m: nat| walk_within(nb, mask, x, y, m);
                        lemma_walk_reverse(nb, mask, x, y, m);
                        lemma_walk_concat(nb, mask, s, y, x, my, m);
                        assert(reachable_within(nb, mask, s, x));
                        assert(allowed[x]);
                        assert(false);
                    }
                } else {
                    assert(next[x] == labels[x]);
                    assert(next[y] == labels[y]);
                }
            }
            assert forall|u: int, j: int|
                0 <= u < nb.len() && next[u] != NO_COMPONENT && 0 <= j < nb[u]@.len() && mask[(#[trigger] nb[u]@[j]) as int]
                    implies next[nb[u]@[j] as int] != NO_COMPONENT by {
                let y = nb[u]@[j] as int;
                if reachable_within(nb, allowed, s, u) {
                    assert(allowed[u]);
                    let m = choose|m: nat| walk_within(nb, mask, s, u, m);
                    lemma_walk_extend(nb, mask, s, u, j, m);
                    assert(reachable_within(nb, mask, s, y));
                } else {
                    assert(labels[u] != NO_COMPONENT);
                    assert(labels[y] != NO_COMPONENT);
                    if reachable_within(nb, allowed, s, y) {
                        assert(allowed[y]);
                    }
                }
            }
            assert(reachable_within(nb, allowed, s, s)) by {
                assert(walk_within(nb, allowed, s, s, 0));
            }
            assert forall|x: int| 0 <= x < k && x < mask.len() && mask[x] implies #[trigger] next[x] != NO_COMPONENT by {
                if x < s {
                    assert(labels[x] != NO_COMPONENT);
                    if reachable_within(nb, allowed, s, x) {
                        assert(allowed[x]);
                    }
                }
            }
        }
    }
}

/// On a mesh whose neighbor relation is symmetric, two masked samples get the
/// same component label exactly when a path through masked samples joins them.
pub proof fn lemma_component_labels_are_connectivity(nb: Seq<Vec<u32>>, mask: Seq<bool>, s: int, t: int)
    requires
        symmetric_neighbors(nb),
        mask.len() == nb.len(),
        mask.len() < u32::MAX,
        forall|x: int, j: int| 0 <= x < nb.len() && 0 <= j < nb[x]@.len() ==> (#[trigger] nb[x]@[j]) < nb.len(),
        0 <= s < mask.len(),
        0 <= t < mask.len(),
        mask[s],
        mask[t],
    ensures
        component_scan(nb, mask, mask.len()).0[s] == component_scan(nb, mask, mask.len()).0[t]
            <==> reachable_within(nb, mask, s, t),
{
    lemma_scan_invariant(nb, mask, mask.len());
    let labels = component_scan(nb, mask, mask.len()).0;
    assert(labels[s] != NO_COMPONENT);
    assert(labels[t] != NO_COMPONENT);
}

/// Number of samples among the first `upto` that carry label `c`.
pub open spec fn label_members(labels: Seq<u32>, c: int, upto: int) -> nat
    decreases upto,
{
    if upto <= 0 {
        0
    } else {
        label_members(labels, c, upto - 1) + if labels[upto - 1] == c {
            1nat
        } else {
            0nat
        }
    }
}

/// Number of samples in each of the `count` components.
pub fn component_sizes(labels: &Vec<u32>, count: u32) -> (sizes: Vec<u32>)
    requires
        labels@.len() <= u32::MAX,
    ensures
        sizes@.len() == count,
        forall|c: int| 0 <= c < count ==> #[trigger] sizes@[c] == label_members(labels@, c, labels@.len() as int),
{
    let mut sizes: Vec<u32> = vec![0u32; count as usize];
    let mut t: usize = 0;
    while t < labels.len()
        invariant
            t <= labels@.len() <= u32::MAX,
            sizes@.len() == count,
            forall|c: int| 0 <= c < count ==> #[trigger] sizes@[c] == label_members(labels@, c, t as int),
            forall|c: int| 0 <= c < count ==> #[trigger] label_members(labels@, c, t as int) <= t,
        decreases labels@.len() - t,
    {
        let label = labels[t];
        proof {
            assert forall|c: int| 0 <= c < count implies #[trigger] label_members(labels@, c, t + 1) <= t + 1 by {
                assert(label_members(labels@, c, t as int) <= t);
            }
        }
        if label < count {
            proof {
                assert(label_members(labels@, label as int, t as int) <= t);
            }
            sizes.set(label as usize, sizes[label as usize] + 1);
        }
        t = t + 1;
    }
    sizes
}

/// Number of `false` entries.
pub open spec fn count_false(s: Seq<bool>) -> nat
    decreases s.len(),
{
    if s.len() == 0 {
        0
    } else {
        count_false(s.drop_last()) + if s.last() {
            0nat
        } else {
            1nat
        }
    }
}

/// Number of `true` entries.
pub open spec fn count_true(s: Seq<bool>) -> nat
    decreases s.len(),
{
    if s.len() == 0 {
        0
    } else {
        count_true(s.drop_last()) + if s.last() {
            1nat
        } else {
            0nat
        }
    }
}

proof fn lemma_count_false_update(s: Seq<bool>, i: int)
    requires
        0 <= i < s.len(),
        !s[i],
    ensures
        count_false(s.update(i, true)) + 1 == count_false(s),
    decreases s.len(),
{
    let t = s.update(i, true);
    if i == s.len() - 1 {
        assert(t.drop_last() =~= s.drop_last());
    } else {
        assert(t.drop_last() =~= s.drop_last().update(i, true));
        lemma_count_false_update(s.drop_last(), i);
    }
}

proof fn lemma_count_false_all(n: nat)
    ensures
        count_false(Seq::new(n, |v: int| false)) == n,
    decreases n,
{
    if n > 0 {
        assert(Seq::new(n, |v: int| false).drop_last() =~= Seq::new((n - 1) as nat, |v: int| false));
        lemma_count_false_all((n - 1) as nat);
    }
}

/// Index of the first `true` entry, or -1.
pub open spec fn first_true(s: Seq<bool>) -> int
    decreases s.len(),
{
    if s.len() == 0 {
        -1
    } else if s[0] {
        0
    } else {
        let rest = first_true(s.drop_first());
        if rest < 0 {
            -1
        } else {
            rest + 1
        }
    }
}

proof fn lemma_first_true(s: Seq<bool>)
    ensures
        -1 <= first_true(s) < s.len(),
        first_true(s) >= 0 ==> s[first_true(s)],
        forall|i: int| 0 <= i < s.len() && (first_true(s) < 0 || i < first_true(s)) ==> !s[i],
    decreases s.len(),
{
    if s.len() > 0 && !s[0] {
        lemma_first_true(s.drop_first());
        assert forall|i: int| 0 <= i < s.len() && (first_true(s) < 0 || i < first_true(s)) implies !s[i] by {
            if i > 0 {
                assert(s[i] == s.drop_first()[i - 1]);
            }
        }
    }
}

/// Counts the `true` entries of a mask.
pub fn count_marked(mask: &Vec<bool>) -> (count: usize)
    ensures
        count == count_true(mask@),
{
    let mut count: usize = 0;
    let mut i: usize = 0;
    while i < mask.len()
        invariant
            i <= mask@.len(),
            count == count_true(mask@.take(i as int)),
            count <= i,
        decreases mask@.len() - i,
    {
        assert(mask@.take(i + 1).drop_last() =~= mask@.take(i as int));
        if mask[i] {
            count = count + 1;
        }
        i = i + 1;
    }
    assert(mask@.take(i as int) =~= mask@);
    count
}

/// Samples of `plate` on the requested side of a split.
pub open spec fn side_members(owners: Seq<u16>, side: Seq<bool>, plate: u16, expected_side: bool) -> Seq<bool> {
    Seq::new(owners.len(), |v: int| owners[v] == plate && side[v] == expected_side)
}

/// The requested side of `plate` is one connected piece of exactly
/// `expected_count` samples, grown from its first sample.
pub open spec fn side_connected_spec(
    nb: Seq<Vec<u32>>,
    owners: Seq<u16>,
    side: Seq<bool>,
    plate: u16,
    expected_side: bool,
    expected_count: nat,
) -> bool {
    let allowed = side_members(owners, side, plate, expected_side);
    let start = first_true(allowed);
    &&& start >= 0
    &&& count_true(Seq::new(nb.len(), |t: int| reachable_within(nb, allowed, start, t))) == expected_count
}

/// Whether the samples of `plate` on `expected_side` form one connected piece
/// of `expected_count` samples.
pub fn spatial_side_connected(
    adjacency: &Adjacency,
    plate: u16,
    owners: &Vec<u16>,
    side: &Vec<bool>,
    expected_side: bool,
    expected_count: usize,
) -> (connected: bool)
    requires
        adjacency.wf(),
        owners@.len() == adjacency.neighbors@.len(),
        side@.len() == adjacency.neighbors@.len(),
    ensures
        connected == side_connected_spec(
            adjacency.neighbors@,
            owners@,
            side@,
            plate,
            expected_side,
            expected_count as nat,
        ),
{
    let n = adjacency.neighbors.len();
    let ghost spec_allowed = side_members(owners@, side@, plate, expected_side);
    let mut allowed: Vec<bool> = Vec::new();
    let mut start: Option<usize> = None;
    let mut v: usize = 0;
    proof {
        lemma_first_true(spec_allowed);
    }
    while v < n
        invariant
            n == owners@.len(),
            n == side@.len(),
            spec_allowed == side_members(owners@, side@, plate, expected_side),
            -1 <= first_true(spec_allowed) < n,
            first_true(spec_allowed) >= 0 ==> spec_allowed[first_true(spec_allowed)],
            forall|i: int| 0 <= i < n && (first_true(spec_allowed) < 0 || i < first_true(spec_allowed)) ==> !spec_allowed[i],
            v <= n,
            allowed@.len() == v,
            forall|i: int| 0 <= i < v ==> #[trigger] allowed@[i] == spec_allowed[i],
            match start {
                Some(k) => k as int == first_true(spec_allowed) && k < v,
                None => first_true(spec_allowed) < 0 || first_true(spec_allowed) >= v,
            },
        decreases n - v,
    {
        let member = owners[v] == plate && side[v] == expected_side;
        assert(member == spec_allowed[v as int]);
        if member && start.is_none() {
            start = Some(v);
        }
        allowed.push(member);
        v = v + 1;
    }
    assert(allowed@ =~= spec_allowed);
    match start {
        None => false,
        Some(k) => {
            let seen = reach_within(adjacency, &allowed, k as u32);
            let count = count_marked(&seen);
            proof {
                assert(seen@ =~= Seq::new(adjacency.neighbors@.len(), |t: int| reachable_within(
                    adjacency.neighbors@,
                    spec_allowed,
                    k as int,
                    t,
                )));
            }
            count == expected_count
        },
    }
}

/// Votes of a sample and its neighbors for `true`.
pub open spec fn marked_neighbors(row: Seq<u32>, mask: Seq<bool>) -> nat
    decreases row.len(),
{
    if row.len() == 0 {
        0
    } else {
        marked_neighbors(row.drop_last(), mask) + if mask[row.last() as int] {
            1nat
        } else {
            0nat
        }
    }
}

/// One majority-vote pass: a sample takes the value held by a strict majority
/// of itself and its neighbors, and keeps its own value on a tie.
pub open spec fn smooth_step(nb: Seq<Vec<u32>>, mask: Seq<bool>) -> Seq<bool> {
    Seq::new(
        mask.len(),
        |s: int|
            {
                let votes = (if mask[s] {
                    1nat
                } else {
                    0nat
                }) + marked_neighbors(nb[s]@, mask);
                let total = nb[s]@.len() + 1;
                if 2 * votes > total {
                    true
                } else if 2 * votes < total {
                    false
                } else {
                    mask[s]
                }
            },
    )
}

/// `rounds` majority-vote passes.
pub open spec fn smooth_rounds(nb: Seq<Vec<u32>>, mask: Seq<bool>, rounds: nat) -> Seq<bool>
    decreases rounds,
{
    if rounds == 0 {
        mask
    } else {
        smooth_step(nb, smooth_rounds(nb, mask, (rounds - 1) as nat))
    }
}

proof fn lemma_marked_neighbors_uniform(row: Seq<u32>, mask: Seq<bool>, value: bool)
    requires
        forall|j: int| 0 <= j < row.len() ==> (#[trigger] row[j]) < mask.len(),
        forall|v: int| 0 <= v < mask.len() ==> #[trigger] mask[v] == value,
    ensures
        marked_neighbors(row, mask) == if value {
            row.len()
        } else {
            0
        },
    decreases row.len(),
{
    if row.len() > 0 {
        lemma_marked_neighbors_uniform(row.drop_last(), mask, value);
        assert(mask[row.last() as int] == value);
    }
}

/// Majority smoothing leaves a uniform mask (all set or all clear) unchanged,
/// whatever the number of rounds.
pub proof fn lemma_smooth_uniform_fixed(nb: Seq<Vec<u32>>, mask: Seq<bool>, value: bool, rounds: nat)
    requires
        mask.len() == nb.len(),
        forall|s: int, j: int| 0 <= s < nb.len() && 0 <= j < nb[s]@.len() ==> (#[trigger] nb[s]@[j]) < nb.len(),
        forall|v: int| 0 <= v < mask.len() ==> #[trigger] mask[v] == value,
    ensures
        smooth_rounds(nb, mask, rounds) == mask,
    decreases rounds,
{
    if rounds > 0 {
        lemma_smooth_uniform_fixed(nb, mask, value, (rounds - 1) as nat);
        assert forall|v: int| 0 <= v < mask.len() implies #[trigger] smooth_step(nb, mask)[v] == mask[v] by {
            assert forall|j: int| 0 <= j < nb[v]@.len() implies (#[trigger] nb[v]@[j]) < mask.len() by {}
            lemma_marked_neighbors_uniform(nb[v]@, mask, value);
        }
        assert(smooth_step(nb, mask) =~= mask);
    }
}

fn smooth_once(adjacency: &Adjacency, mask: &Vec<bool>) -> (next: Vec<bool>)
    requires
        adjacency.wf(),
        mask@.len() == adjacency.neighbors@.len(),
    ensures
        next@ == smooth_step(adjacency.neighbors@, mask@),
{
    let ghost nb = adjacency.neighbors@;
    let n = mask.len();
    let mut next: Vec<bool> = Vec::new();
    let mut s: usize = 0;
    while s < n
        invariant
            nb == adjacency.neighbors@,
            adjacency.wf(),
            n == mask@.len(),
            n == nb.len(),
            s <= n,
            next@.len() == s,
            forall|i: int| 0 <= i < s ==> #[trigger] next@[i] == smooth_step(nb, mask@)[i],
        decreases n - s,
    {
        let row = &adjacency.neighbors[s];
        let mut votes: u64 = if mask[s] {
            1
        } else {
            0
        };
        let mut j: usize = 0;
        while j < row.len()
            invariant
                nb == adjacency.neighbors@,
                adjacency.wf(),
                n == mask@.len(),
                n == nb.len(),
                s < n,
                row@ == nb[s as int]@,
                j <= row@.len(),
                votes == (if mask@[s as int] {
                    1nat
                } else {
                    0nat
                }) + marked_neighbors(row@.take(j as int), mask@),
                votes <= j + 1,
                row@.len() <= u32::MAX,
            decreases row@.len() - j,
        {
            assert(row@.take(j + 1).drop_last() =~= row@.take(j as int));
            if mask[row[j] as usize] {
                votes = votes + 1;
            }
            j = j + 1;
        }
        assert(row@.take(j as int) =~= row@);
        let total = row.len() as u64 + 1;
        let value = if votes * 2 > total {
            true
        } else if votes * 2 < total {
            false
        } else {
            mask[s]
        };
        next.push(value);
        s = s + 1;
    }
    assert(next@ =~= smooth_step(nb, mask@));
    next
}

/// Applies `rounds` majority-vote passes to a mask.
pub fn smooth_mask(adjacency: &Adjacency, mask: &Vec<bool>, rounds: usize) -> (smoothed: Vec<bool>)
    requires
        adjacency.wf(),
        mask@.len() == adjacency.neighbors@.len(),
    ensures
        smoothed@ == smooth_rounds(adjacency.neighbors@, mask@, rounds as nat),
{
    let mut current = mask.clone();
    let mut r: usize = 0;
    assert(current@ == mask@);
    while r < rounds
        invariant
            adjacency.wf(),
            mask@.len() == adjacency.neighbors@.len(),
            r <= rounds,
            current@ == smooth_rounds(adjacency.neighbors@, mask@, r as nat),
            current@.len() == mask@.len(),
        decreases rounds - r,
    {
        current = smooth_once(adjacency, &current);
        r = r + 1;
    }
    current
}

/// Medium and coarse smoothing round counts for a mesh subdivision level:
/// one and three passes up to level 4, doubling per level up to level 7.
pub open spec fn smoothing_rounds_spec(level: u8) -> (nat, nat) {
    let exponent: nat = if level <= 4 {
        0
    } else if level >= 7 {
        3
    } else {
        (level - 4) as nat
    };
    let scale: nat = if exponent == 0 {
        1
    } else if exponent == 1 {
        2
    } else if exponent == 2 {
        4
    } else {
        8
    };
    (scale, 3 * scale)
}

/// The coarse smoothing always runs three times the medium rounds; the
/// medium rounds are one up to level 4, double with each level up to
/// level 7, and stay at eight beyond.
pub proof fn lemma_smoothing_rounds_scale(level: u8)
    ensures
        smoothing_rounds_spec(level).1 == 3 * smoothing_rounds_spec(level).0,
        level <= 4 ==> smoothing_rounds_spec(level).0 == 1,
        4 <= level < 7 ==> smoothing_rounds_spec((level + 1) as u8).0 == 2 * smoothing_rounds_spec(level).0,
        level >= 7 ==> smoothing_rounds_spec(level).0 == 8,
{
}

/// Medium and coarse smoothing round counts for a mesh subdivision level.
pub fn smoothing_rounds(level: u8) -> (rounds: (usize, usize))
    ensures
        rounds.0 as nat == smoothing_rounds_spec(level).0,
        rounds.1 as nat == smoothing_rounds_spec(level).1,
{
    let exponent: u32 = if level <= 4 {
        0
    } else if level - 4 >= 3 {
        3
    } else {
        (level - 4) as u32
    };
    let scale: usize = if exponent == 0 {
        1
    } else if exponent == 1 {
        2
    } else if exponent == 2 {
        4
    } else {
        8
    };
    (scale, scale * 3)
}

/// Some sample is owned by a plate index outside `0..plate_count`.
pub open spec fn has_invalid_owner(owners: Seq<u16>, plate_count: nat) -> bool {
    exists|i: int| 0 <= i < owners.len() && owners[i] >= plate_count
}

/// Plate `p` owns no sample.
pub open spec fn plate_is_empty(owners: Seq<u16>, p: int) -> bool {
    forall|i: int| 0 <= i < owners.len() ==> owners[i] != p
}

/// Checks that every owner names one of the `plate_count` plates and that
/// every plate keeps at least one sample.
pub fn validate_nonempty(owners: &Vec<u16>, plate_count: usize) -> (result: Result<(), WorldgenError>)
    ensures
        has_invalid_owner(owners@, plate_count as nat) ==> result == Err::<(), WorldgenError>(
            WorldgenError::InvalidTectonics("material-aware boundary synthesis produced an invalid owner"),
        ),
        !has_invalid_owner(owners@, plate_count as nat) && (exists|p: int|
            0 <= p < plate_count && plate_is_empty(owners@, p)) ==> result == Err::<(), WorldgenError>(
            WorldgenError::InvalidTectonics("material-aware boundary synthesis eliminated a modern plate"),
        ),
        !has_invalid_owner(owners@, plate_count as nat) && (forall|p: int|
            0 <= p < plate_count ==> !plate_is_empty(owners@, p)) ==> result == Ok::<(), WorldgenError>(()),
{
    let mut counts: Vec<usize> = vec![0usize; plate_count];
    let mut i: usize = 0;
    while i < owners.len()
        invariant
            i <= owners@.len(),
            counts@.len() == plate_count,
            forall|k: int| 0 <= k < i ==> owners@[k] < plate_count,
            forall|p: int|
                0 <= p < plate_count ==> (#[trigger] counts@[p] == 0 <==> forall|k: int| 0 <= k < i ==> owners@[k] != p),
            forall|p: int| 0 <= p < plate_count ==> #[trigger] counts@[p] <= i,
        decreases owners@.len() - i,
    {
        let index = owners[i] as usize;
        if index >= plate_count {
            return Err(
                WorldgenError::InvalidTectonics("material-aware boundary synthesis produced an invalid owner"),
            );
        }
        let c = counts[index];
        counts.set(index, c + 1);
        i = i + 1;
    }
    let mut p: usize = 0;
    while p < plate_count
        invariant
            i == owners@.len(),
            p <= plate_count,
            counts@.len() == plate_count,
            !has_invalid_owner(owners@, plate_count as nat),
            forall|q: int|
                0 <= q < plate_count ==> (#[trigger] counts@[q] == 0 <==> plate_is_empty(owners@, q)),
            forall|q: int| 0 <= q < p ==> !plate_is_empty(owners@, q),
        decreases plate_count - p,
    {
        if counts[p] == 0 {
            return Err(
                WorldgenError::InvalidTectonics("material-aware boundary synthesis eliminated a modern plate"),
            );
        }
        p = p + 1;
    }
    Ok(())
}

/// Neighbors of `s` owned by the same plate as `s`.
pub open spec fn same_owner_count(row: Seq<u32>, owners: Seq<u16>, owner: u16) -> nat
    decreases row.len(),
{
    if row.len() == 0 {
        0
    } else {
        same_owner_count(row.drop_last(), owners, owner) + if owners[row.last() as int] == owner {
            1nat
        } else {
            0nat
        }
    }
}

/// Same-plate neighbor support of sample `s`.
pub open spec fn core_support(nb: Seq<Vec<u32>>, owners: Seq<u16>, s: int) -> nat {
    same_owner_count(nb[s]@, owners, owners[s])
}

/// `s` is a core of plate `p`: owned by `p`, with the most same-plate
/// neighbors, the lowest index among equals.
pub open spec fn is_plate_core(nb: Seq<Vec<u32>>, owners: Seq<u16>, p: int, s: int) -> bool {
    &&& 0 <= s < owners.len()
    &&& owners[s] == p
    &&& forall|t: int|
        0 <= t < owners.len() && owners[t] == p ==> core_support(nb, owners, t) < core_support(nb, owners, s) || (
        core_support(nb, owners, t) == core_support(nb, owners, s) && s <= t)
}

fn support_of(adjacency: &Adjacency, owners: &Vec<u16>, sample: usize) -> (support: usize)
    requires
        adjacency.wf(),
        owners@.len() == adjacency.neighbors@.len(),
        sample < owners@.len(),
    ensures
        support == core_support(adjacency.neighbors@, owners@, sample as int),
{
    let row = &adjacency.neighbors[sample];
    let owner = owners[sample];
    let mut count: usize = 0;
    let mut j: usize = 0;
    while j < row.len()
        invariant
            adjacency.wf(),
            owners@.len() == adjacency.neighbors@.len(),
            sample < owners@.len(),
            row@ == adjacency.neighbors@[sample as int]@,
            owner == owners@[sample as int],
            j <= row@.len(),
            count == same_owner_count(row@.take(j as int), owners@, owner),
            count <= j,
        decreases row@.len() - j,
    {
        assert(row@.take(j + 1).drop_last() =~= row@.take(j as int));
        if owners[row[j] as usize] == owner {
            count = count + 1;
        }
        j = j + 1;
    }
    assert(row@.take(j as int) =~= row@);
    count
}

/// For each plate, its core sample, or `None` when the plate owns no sample.
pub fn plate_core_samples(adjacency: &Adjacency, owners: &Vec<u16>, plate_count: usize) -> (cores: Vec<Option<u32>>)
    requires
        adjacency.wf(),
        owners@.len() == adjacency.neighbors@.len(),
    ensures
        cores@.len() == plate_count,
        forall|p: int|
            0 <= p < plate_count ==> match #[trigger] cores@[p] {
                Some(s) => is_plate_core(adjacency.neighbors@, owners@, p, s as int),
                None => plate_is_empty(owners@, p),
            },
{
    let ghost nb = adjacency.neighbors@;
    let n = owners.len();
    let mut cores: Vec<Option<u32>> = vec![None; plate_count];
    let mut best: Vec<usize> = vec![0usize; plate_count];
    let mut sample: usize = 0;
    while sample < n
        invariant
            nb == adjacency.neighbors@,
            adjacency.wf(),
            n == owners@.len(),
            n == nb.len(),
            sample <= n,
            cores@.len() == plate_count,
            best@.len() == plate_count,
            forall|p: int|
                0 <= p < plate_count ==> match #[trigger] cores@[p] {
                    Some(s) => {
                        &&& 0 <= s < sample
                        &&& owners@[s as int] == p
                        &&& best@[p] == core_support(nb, owners@, s as int)
                        &&& forall|t: int|
                            0 <= t < sample && owners@[t] == p ==> core_support(nb, owners@, t) < core_support(
                                nb,
                                owners@,
                                s as int,
                            ) || (core_support(nb, owners@, t) == core_support(nb, owners@, s as int) && s <= t)
                    },
                    None => forall|t: int| 0 <= t < sample ==> owners@[t] != p,
                },
        decreases n - sample,
    {
        let owner = owners[sample] as usize;
        if owner < plate_count {
            let support = support_of(adjacency, owners, sample);
            let replace = match cores[owner] {
                None => true,
                Some(current) => support > best[owner] || (support == best[owner] && (sample as u32) < current),
            };
            if replace {
                cores.set(owner, Some(sample as u32));
                best.set(owner, support);
            }
            proof {
                assert forall|p: int| 0 <= p < plate_count implies match #[trigger] cores@[p] {
                    Some(s) => {
                        &&& 0 <= s < sample + 1
                        &&& owners@[s as int] == p
                        &&& best@[p] == core_support(nb, owners@, s as int)
                        &&& forall|t: int|
                            0 <= t < sample + 1 && owners@[t] == p ==> core_support(nb, owners@, t) < core_support(
                                nb,
                                owners@,
                                s as int,
                            ) || (core_support(nb, owners@, t) == core_support(nb, owners@, s as int) && s <= t)
                    },
                    None => forall|t: int| 0 <= t < sample + 1 ==> owners@[t] != p,
                } by {
                    if p == owner as int {
                    }
                }
            }
        }
        sample = sample + 1;
    }
    cores
}

} // verus!
