//! Residual-graph max-flow (Dinic's algorithm) used to cut a plate along its
//! weakest corridor: level graphs are built by breadth-first search and
//! blocking flows are pushed by depth-first search with per-node edge cursors.

use vstd::prelude::*;

verus! {

/// One directed residual edge; `rev` is the index of the paired edge in the
/// adjacency row of `to`.
#[derive(Clone, Copy, Debug)]
pub struct FlowEdge {
    pub to: usize,
    pub rev: usize,
    pub capacity: u64,
}

/// Every edge has a distinct partner pointing back at it, and the two
/// residual capacities of a pair together fit in a `u64`.
#[verifier::opaque]
pub open spec fn flow_wf(g: Seq<Vec<FlowEdge>>) -> bool {
    forall|u: int, i: int|
        0 <= u < g.len() && 0 <= i < g[u]@.len() ==> {
            let e = #[trigger] g[u]@[i];
            &&& e.to < g.len()
            &&& e.to != u
            &&& e.rev < g[e.to as int]@.len()
            &&& g[e.to as int]@[e.rev as int].to == u
            &&& g[e.to as int]@[e.rev as int].rev == i
            &&& e.capacity + g[e.to as int]@[e.rev as int].capacity <= u64::MAX
        }
}

/// Same nodes, same rows, same endpoints and partners; only capacities may differ.
#[verifier::opaque]
pub open spec fn same_shape(a: Seq<Vec<FlowEdge>>, b: Seq<Vec<FlowEdge>>) -> bool {
    &&& a.len() == b.len()
    &&& forall|u: int| 0 <= u < a.len() ==> (#[trigger] a[u])@.len() == b[u]@.len()
    &&& forall|u: int, i: int|
        0 <= u < a.len() && 0 <= i < a[u]@.len() ==> (#[trigger] a[u]@[i]).to == b[u]@[i].to
            && a[u]@[i].rev == b[u]@[i].rev
}

/// Residual capacity of an edge plus that of its partner.
pub open spec fn pair_capacity(g: Seq<Vec<FlowEdge>>, u: int, i: int) -> int {
    let e = g[u]@[i];
    e.capacity + g[e.to as int]@[e.rev as int].capacity
}

/// Flow only moves between the two edges of a pair: every pair keeps its
/// combined capacity.
#[verifier::opaque]
pub open spec fn pairs_preserved(a: Seq<Vec<FlowEdge>>, b: Seq<Vec<FlowEdge>>) -> bool {
    forall|u: int, i: int|
        0 <= u < a.len() && 0 <= i < a[u]@.len() ==> #[trigger] pair_capacity(a, u, i)
            == pair_capacity(b, u, i)
}

/// `t` is reachable from `v` in at most `k` steps along edges of positive
/// residual capacity.
pub open spec fn residual_path(g: Seq<Vec<FlowEdge>>, v: int, t: int, k: nat) -> bool
    decreases k,
{
    v == t || (k > 0 && exists|i: int|
        0 <= i < g[v]@.len() && (#[trigger] g[v]@[i]).capacity > 0 && residual_path(
            g,
            g[v]@[i].to as int,
            t,
            (k - 1) as nat,
        ))
}

/// `t` is reachable from `v` in the residual graph.
pub open spec fn residual_reachable(g: Seq<Vec<FlowEdge>>, v: int, t: int) -> bool {
    exists|k: nat| residual_path(g, v, t, k)
}

/// Appends the edge `from -> to` with `capacity` and its zero-capacity partner.
pub fn add_flow_edge(graph: &mut Vec<Vec<FlowEdge>>, from: usize, to: usize, capacity: u64)
    requires
        from < old(graph)@.len(),
        to < old(graph)@.len(),
    ensures
        final(graph)@.len() == old(graph)@.len(),
        from != to ==> final(graph)@[from as int]@ == old(graph)@[from as int]@.push(
            FlowEdge { to, rev: old(graph)@[to as int]@.len() as usize, capacity },
        ),
        from != to ==> final(graph)@[to as int]@ == old(graph)@[to as int]@.push(
            FlowEdge { to: from, rev: old(graph)@[from as int]@.len() as usize, capacity: 0 },
        ),
        from == to ==> final(graph)@[from as int]@ == old(graph)@[from as int]@.push(
            FlowEdge { to, rev: old(graph)@[to as int]@.len() as usize, capacity },
        ).push(FlowEdge { to: from, rev: old(graph)@[from as int]@.len() as usize, capacity: 0 }),
        forall|u: int| 0 <= u < old(graph)@.len() && u != from && u != to ==> final(graph)@[u]
            == old(graph)@[u],
        from != to && flow_wf(old(graph)@) ==> flow_wf(final(graph)@),
{
    let forward_rev = graph[to].len();
    let reverse_rev = graph[from].len();
    let ghost g0 = graph@;
    graph[from].push(FlowEdge { to, rev: forward_rev, capacity });
    graph[to].push(FlowEdge { to: from, rev: reverse_rev, capacity: 0 });
    proof {
        reveal(flow_wf);
        if from != to && flow_wf(g0) {
            let g = graph@;
            assert forall|u: int, i: int| 0 <= u < g.len() && 0 <= i < g[u]@.len() implies {
                let e = #[trigger] g[u]@[i];
                &&& e.to < g.len()
                &&& e.to != u
                &&& e.rev < g[e.to as int]@.len()
                &&& g[e.to as int]@[e.rev as int].to == u
                &&& g[e.to as int]@[e.rev as int].rev == i
                &&& e.capacity + g[e.to as int]@[e.rev as int].capacity <= u64::MAX
            } by {
                if (u == from && i == g0[u]@.len()) || (u == to && i == g0[u]@.len()) {
                } else {
                    assert(g[u]@[i] == g0[u]@[i]);
                    let e = g0[u]@[i];
                    assert(g[e.to as int]@[e.rev as int] == g0[e.to as int]@[e.rev as int]);
                }
            }
        }
    }
}

/// Adds `left -> right` and `right -> left`, each with `capacity`.
pub fn add_undirected_flow_edge(
    graph: &mut Vec<Vec<FlowEdge>>,
    left: usize,
    right: usize,
    capacity: u64,
)
    requires
        left < old(graph)@.len(),
        right < old(graph)@.len(),
        left != right,
        flow_wf(old(graph)@),
    ensures
        final(graph)@.len() == old(graph)@.len(),
        flow_wf(final(graph)@),
        final(graph)@[left as int]@ == old(graph)@[left as int]@.push(
            FlowEdge { to: right, rev: old(graph)@[right as int]@.len() as usize, capacity },
        ).push(
            FlowEdge {
                to: right,
                rev: (old(graph)@[right as int]@.len() + 1) as usize,
                capacity: 0,
            },
        ),
        final(graph)@[right as int]@ == old(graph)@[right as int]@.push(
            FlowEdge { to: left, rev: old(graph)@[left as int]@.len() as usize, capacity: 0 },
        ).push(
            FlowEdge {
                to: left,
                rev: (old(graph)@[left as int]@.len() + 1) as usize,
                capacity,
            },
        ),
        forall|u: int| 0 <= u < old(graph)@.len() && u != left && u != right ==> final(graph)@[u]
            == old(graph)@[u],
{
    add_flow_edge(graph, left, right, capacity);
    add_flow_edge(graph, right, left, capacity);
}


/// Edge `i` of `v` lies in the level graph: it has residual capacity and goes
/// exactly one level deeper.
pub open spec fn useful(g: Seq<Vec<FlowEdge>>, level: Seq<i32>, v: int, i: int) -> bool {
    &&& g[v]@[i].capacity > 0
    &&& level[g[v]@[i].to as int] == level[v] + 1
}

/// `t` is reached from `v` in at most `k` level-graph steps.
pub open spec fn level_path(g: Seq<Vec<FlowEdge>>, level: Seq<i32>, v: int, t: int, k: nat) -> bool
    decreases k,
{
    v == t || (k > 0 && exists|i: int|
        0 <= i < g[v]@.len() && #[trigger] useful(g, level, v, i) && level_path(
            g,
            level,
            g[v]@[i].to as int,
            t,
            (k - 1) as nat,
        ))
}

proof fn lemma_level_path_extend(
    g: Seq<Vec<FlowEdge>>,
    level: Seq<i32>,
    x: int,
    u: int,
    i: int,
    k: nat,
)
    requires
        level_path(g, level, x, u, k),
        0 <= i < g[u]@.len(),
        useful(g, level, u, i),
    ensures
        level_path(g, level, x, g[u]@[i].to as int, k + 1),
    decreases k,
{
    let t = g[u]@[i].to as int;
    if x == u {
        assert(level_path(g, level, t, t, k));
        assert(useful(g, level, x, i));
    } else {
        let j = choose|j: int|
            0 <= j < g[x]@.len() && #[trigger] useful(g, level, x, j) && level_path(
                g,
                level,
                g[x]@[j].to as int,
                u,
                (k - 1) as nat,
            );
        lemma_level_path_extend(g, level, g[x]@[j].to as int, u, i, (k - 1) as nat);
    }
}

proof fn lemma_level_path_residual(g: Seq<Vec<FlowEdge>>, level: Seq<i32>, v: int, t: int, k: nat)
    requires
        level_path(g, level, v, t, k),
    ensures
        residual_path(g, v, t, k),
    decreases k,
{
    if v != t {
        let i = choose|i: int|
            0 <= i < g[v]@.len() && #[trigger] useful(g, level, v, i) && level_path(
                g,
                level,
                g[v]@[i].to as int,
                t,
                (k - 1) as nat,
            );
        lemma_level_path_residual(g, level, g[v]@[i].to as int, t, (k - 1) as nat);
        assert(g[v]@[i].capacity > 0);
    }
}

/// Number of entries still marked unreached (negative).
pub open spec fn unreached_count(s: Seq<i32>) -> nat
    decreases s.len(),
{
    if s.len() == 0 {
        0
    } else {
        unreached_count(s.drop_last()) + if s.last() < 0 {
            1nat
        } else {
            0nat
        }
    }
}

proof fn lemma_unreached_update(s: Seq<i32>, i: int, x: i32)
    requires
        0 <= i < s.len(),
        s[i] < 0,
        x >= 0,
    ensures
        unreached_count(s.update(i, x)) + 1 == unreached_count(s),
    decreases s.len(),
{
    let t = s.update(i, x);
    if i == s.len() - 1 {
        assert(t.drop_last() =~= s.drop_last());
    } else {
        assert(t.drop_last() =~= s.drop_last().update(i, x));
        lemma_unreached_update(s.drop_last(), i, x);
    }
}

proof fn lemma_unreached_all(n: nat)
    ensures
        unreached_count(Seq::new(n, |v: int| -1i32)) == n,
    decreases n,
{
    if n > 0 {
        assert(Seq::new(n, |v: int| -1i32).drop_last() =~= Seq::new((n - 1) as nat, |v: int| -1i32));
        lemma_unreached_all((n - 1) as nat);
    }
}

proof fn lemma_closed_set_contains_reachable(
    g: Seq<Vec<FlowEdge>>,
    level: Seq<i32>,
    x: int,
    t: int,
    k: nat,
)
    requires
        flow_wf(g),
        level.len() == g.len(),
        0 <= x < g.len(),
        level[x] >= 0,
        forall|v: int, i: int|
            0 <= v < g.len() && level[v] >= 0 && 0 <= i < g[v]@.len() && (#[trigger] g[v]@[i]).capacity > 0
                ==> level[g[v]@[i].to as int] >= 0,
        residual_path(g, x, t, k),
    ensures
        level[t] >= 0,
    decreases k,
{
    reveal(flow_wf);
    if x != t {
        let i = choose|i: int|
            0 <= i < g[x]@.len() && (#[trigger] g[x]@[i]).capacity > 0 && residual_path(
                g,
                g[x]@[i].to as int,
                t,
                (k - 1) as nat,
            );
        lemma_closed_set_contains_reachable(g, level, g[x]@[i].to as int, t, (k - 1) as nat);
    }
}

/// Breadth-first parent links of the reached nodes.
spec fn bfs_parents(
    g: Seq<Vec<FlowEdge>>,
    level: Seq<i32>,
    source: int,
    pn: Seq<int>,
    pe: Seq<int>,
) -> bool {
    &&& pn.len() == g.len()
    &&& pe.len() == g.len()
    &&& forall|v: int|
        0 <= v < g.len() && level[v] >= 0 && v != source ==> {
            let p = #[trigger] pn[v];
            &&& 0 <= p < g.len()
            &&& level[p] >= 0
            &&& 0 <= pe[v] < g[p]@.len()
            &&& g[p]@[pe[v]].to == v
            &&& useful(g, level, p, pe[v])
        }
}

proof fn lemma_bfs_level_path(
    g: Seq<Vec<FlowEdge>>,
    level: Seq<i32>,
    source: int,
    pn: Seq<int>,
    pe: Seq<int>,
    v: int,
)
    requires
        bfs_parents(g, level, source, pn, pe),
        level.len() == g.len(),
        level[source] == 0,
        0 <= v < g.len(),
        level[v] >= 0,
    ensures
        level_path(g, level, source, v, level[v] as nat),
    decreases level[v],
{
    if v != source {
        let p = pn[v];
        assert(level[v] == level[p] + 1);
        lemma_bfs_level_path(g, level, source, pn, pe, p);
        lemma_level_path_extend(g, level, source, p, pe[v], level[p] as nat);
    }
}

proof fn lemma_levels_bound_paths(g: Seq<Vec<FlowEdge>>, level: Seq<i32>, x: int, t: int, k: nat)
    requires
        flow_wf(g),
        level.len() == g.len(),
        0 <= x < g.len(),
        level[x] >= 0,
        forall|v: int, i: int|
            0 <= v < g.len() && level[v] >= 0 && 0 <= i < g[v]@.len() && (#[trigger] g[v]@[i]).capacity > 0
                ==> level[g[v]@[i].to as int] >= 0 && level[g[v]@[i].to as int] <= level[v] + 1,
        residual_path(g, x, t, k),
    ensures
        0 <= level[t] <= level[x] + k,
    decreases k,
{
    reveal(flow_wf);
    if x != t {
        let i = choose|i: int|
            0 <= i < g[x]@.len() && (#[trigger] g[x]@[i]).capacity > 0 && residual_path(
                g,
                g[x]@[i].to as int,
                t,
                (k - 1) as nat,
            );
        lemma_levels_bound_paths(g, level, g[x]@[i].to as int, t, (k - 1) as nat);
    }
}

/// Breadth-first levels from `source` over edges with residual capacity;
/// unreached nodes keep level -1.
pub fn residual_levels(graph: &Vec<Vec<FlowEdge>>, source: usize) -> (level: Vec<i32>)
    requires
        flow_wf(graph@),
        source < graph@.len(),
        graph@.len() < i32::MAX,
    ensures
        level@.len() == graph@.len(),
        level@[source as int] == 0,
        forall|v: int| 0 <= v < level@.len() ==> -1 <= #[trigger] level@[v] < graph@.len(),
        forall|v: int|
            0 <= v < level@.len() && level@[v] >= 0 ==> #[trigger] level_path(
                graph@,
                level@,
                source as int,
                v,
                level@[v] as nat,
            ),
        forall|v: int|
            0 <= v < level@.len() ==> (#[trigger] level@[v] >= 0 <==> residual_reachable(
                graph@,
                source as int,
                v,
            )),
        forall|v: int, k: nat|
            0 <= v < level@.len() && #[trigger] residual_path(graph@, source as int, v, k) ==> 0 <= level@[v] <= k,
{
    let n = graph.len();
    let ghost g = graph@;
    proof {
        lemma_flow_targets(g);
    }
    let mut level: Vec<i32> = vec![-1i32; n];
    proof {
        assert(level@ =~= Seq::new(n as nat, |v: int| -1i32));
        lemma_unreached_all(n as nat);
        lemma_unreached_update(level@, source as int, 0);
    }
    level.set(source, 0);
    let mut queue: Vec<usize> = Vec::new();
    queue.push(source);
    proof {
        assert forall|v: int| 0 <= v < n && #[trigger] level@[v] >= 0 implies exists|j: int|
            0 <= j < queue@.len() && queue@[j] == v by {
            assert(queue@[0] == source);
        }
    }
    let ghost mut pn: Seq<int> = Seq::new(n as nat, |v: int| 0int);
    let ghost mut pe: Seq<int> = Seq::new(n as nat, |v: int| 0int);
    let mut head: usize = 0;
    while head < queue.len()
        invariant
            g == graph@,
            flow_wf(g),
            forall|u: int, i: int| 0 <= u < g.len() && 0 <= i < g[u]@.len() ==> (#[trigger] g[u]@[i]).to < g.len(),
            n == g.len(),
            n < i32::MAX,
            source < n,
            level@.len() == n,
            level@[source as int] == 0,
            queue@.len() + unreached_count(level@) == n,
            head <= queue@.len(),
            forall|v: int| 0 <= v < n ==> -1 <= #[trigger] level@[v],
            forall|j: int|
                0 <= j < queue@.len() ==> (#[trigger] queue@[j]) < n && 0 <= level@[queue@[j] as int]
                    <= j,
            forall|v: int|
                0 <= v < n && #[trigger] level@[v] >= 0 ==> exists|j: int|
                    0 <= j < queue@.len() && queue@[j] == v,
            forall|j: int, i: int|
                0 <= j < head && 0 <= i < g[queue@[j] as int]@.len() && (#[trigger] g[queue@[j] as int]@[i]).capacity
                    > 0 ==> level@[g[queue@[j] as int]@[i].to as int] >= 0 && level@[g[queue@[j] as int]@[i].to as int]
                    <= level@[queue@[j] as int] + 1,
            forall|j1: int, j2: int|
                0 <= j1 <= j2 < queue@.len() ==> level@[#[trigger] queue@[j1] as int] <= level@[#[trigger] queue@[j2] as int],
            head < queue@.len() ==> forall|j: int|
                0 <= j < queue@.len() ==> level@[#[trigger] queue@[j] as int] <= level@[queue@[head as int] as int] + 1,
            bfs_parents(g, level@, source as int, pn, pe),
        decreases n - head,
    {
        let node = queue[head];
        let mut j: usize = 0;
        while j < graph[node].len()
            invariant
                g == graph@,
                flow_wf(g),
                forall|u: int, i: int| 0 <= u < g.len() && 0 <= i < g[u]@.len() ==> (#[trigger] g[u]@[i]).to < g.len(),
                n == g.len(),
                n < i32::MAX,
                source < n,
                    level@.len() == n,
                level@[source as int] == 0,
                queue@.len() + unreached_count(level@) == n,
                head < queue@.len(),
                node == queue@[head as int],
                j <= g[node as int]@.len(),
                forall|v: int| 0 <= v < n ==> -1 <= #[trigger] level@[v],
                forall|jj: int|
                    0 <= jj < queue@.len() ==> (#[trigger] queue@[jj]) < n && 0 <= level@[queue@[jj] as int]
                        <= jj,
                forall|v: int|
                    0 <= v < n && #[trigger] level@[v] >= 0 ==> exists|jj: int|
                        0 <= jj < queue@.len() && queue@[jj] == v,
                forall|jj: int, i: int|
                    0 <= jj < head && 0 <= i < g[queue@[jj] as int]@.len() && (#[trigger] g[queue@[jj] as int]@[i]).capacity
                        > 0 ==> level@[g[queue@[jj] as int]@[i].to as int] >= 0 && level@[g[queue@[jj] as int]@[i].to as int]
                        <= level@[queue@[jj] as int] + 1,
                forall|i: int|
                    0 <= i < j && (#[trigger] g[node as int]@[i]).capacity > 0 ==> level@[g[node as int]@[i].to as int] >= 0
                        && level@[g[node as int]@[i].to as int] <= level@[node as int] + 1,
                forall|j1: int, j2: int|
                    0 <= j1 <= j2 < queue@.len() ==> level@[#[trigger] queue@[j1] as int] <= level@[#[trigger] queue@[j2] as int],
                forall|jj: int| 0 <= jj < queue@.len() ==> level@[#[trigger] queue@[jj] as int] <= level@[node as int] + 1,
                bfs_parents(g, level@, source as int, pn, pe),
            decreases g[node as int]@.len() - j,
        {
            let e = graph[node][j];
            proof {
                lemma_flow_edge(g, node as int, j as int);
            }
            if e.capacity > 0 && level[e.to] < 0 {
                let next_level = level[node] + 1;
                proof {
                    lemma_unreached_update(level@, e.to as int, next_level);
                    assert(unreached_count(level@) >= 1);
                }
                let ghost old_level = level@;
                let ghost old_queue = queue@;
                level.set(e.to, next_level);
                queue.push(e.to);
                proof {
                    pn = pn.update(e.to as int, node as int);
                    pe = pe.update(e.to as int, j as int);
                    assert forall|v: int| 0 <= v < n && #[trigger] level@[v] >= 0 implies exists|jj: int|
                        0 <= jj < queue@.len() && queue@[jj] == v by {
                        if v == e.to {
                            assert(queue@[old_queue.len() as int] == v);
                        } else {
                            assert(old_level[v] >= 0);
                            let jj = choose|jj: int| 0 <= jj < old_queue.len() && old_queue[jj] == v;
                            assert(queue@[jj] == v);
                        }
                    }
                    assert forall|v: int|
                        0 <= v < g.len() && level@[v] >= 0 && v != source implies {
                            let p = #[trigger] pn[v];
                            &&& 0 <= p < g.len()
                            &&& level@[p] >= 0
                            &&& 0 <= pe[v] < g[p]@.len()
                            &&& g[p]@[pe[v]].to == v
                            &&& useful(g, level@, p, pe[v])
                        } by {
                        if v != e.to {
                            assert(old_level[v] >= 0);
                            let p = pn[v];
                            assert(useful(g, old_level, p, pe[v]));
                            assert(g[p]@[pe[v]].to != e.to);
                        }
                    }
                }
            }
            assert(e == g[node as int]@[j as int]);
            assert(e.capacity > 0 ==> level@[e.to as int] >= 0);
            j = j + 1;
        }
        head = head + 1;
    }
    proof {
        assert forall|v: int| 0 <= v < level@.len() implies -1 <= #[trigger] level@[v] < n by {
            if level@[v] >= 0 {
                let jj = choose|jj: int| 0 <= jj < queue@.len() && queue@[jj] == v;
                assert(level@[queue@[jj] as int] <= jj);
            }
        }
        assert forall|v: int|
            0 <= v < level@.len() && level@[v] >= 0 implies #[trigger] level_path(
            g,
            level@,
            source as int,
            v,
            level@[v] as nat,
        ) by {
            lemma_bfs_level_path(g, level@, source as int, pn, pe, v);
        }
        assert forall|v: int, i: int|
            0 <= v < g.len() && level@[v] >= 0 && 0 <= i < g[v]@.len() && (#[trigger] g[v]@[i]).capacity > 0
                implies level@[g[v]@[i].to as int] >= 0 && level@[g[v]@[i].to as int] <= level@[v] + 1 by {
            let jj = choose|jj: int| 0 <= jj < queue@.len() && queue@[jj] == v;
        }
        assert forall|v: int, k: nat|
            0 <= v < level@.len() && #[trigger] residual_path(g, source as int, v, k) implies 0 <= level@[v] <= k by {
            lemma_levels_bound_paths(g, level@, source as int, v, k);
        }
        assert forall|v: int| 0 <= v < level@.len() implies (#[trigger] level@[v] >= 0 <==> residual_reachable(
            g,
            source as int,
            v,
        )) by {
            if level@[v] >= 0 {
                lemma_level_path_residual(g, level@, source as int, v, level@[v] as nat);
            } else {
                assert forall|k: nat| !residual_path(g, source as int, v, k) by {
                    if residual_path(g, source as int, v, k) {
                        lemma_closed_set_contains_reachable(g, level@, source as int, v, k);
                    }
                }
            }
        }
    }
    level
}

/// Breadth-first levels from `source` over edges with residual capacity;
/// `None` when `sink` is not reached.
pub fn flow_levels(graph: &Vec<Vec<FlowEdge>>, source: usize, sink: usize) -> (result: Option<Vec<i32>>)
    requires
        flow_wf(graph@),
        source < graph@.len(),
        sink < graph@.len(),
        graph@.len() < i32::MAX,
    ensures
        match result {
            Some(level) => {
                &&& level@.len() == graph@.len()
                &&& level@[source as int] == 0
                &&& forall|v: int| 0 <= v < level@.len() ==> -1 <= #[trigger] level@[v] < graph@.len()
                &&& exists|k: nat| level_path(graph@, level@, source as int, sink as int, k)
                &&& forall|v: int|
                    0 <= v < level@.len() && level@[v] >= 0 ==> #[trigger] residual_path(
                        graph@,
                        source as int,
                        v,
                        level@[v] as nat,
                    )
                &&& forall|v: int| 0 <= v < level@.len() ==> (#[trigger] level@[v] >= 0 <==> residual_reachable(
                    graph@,
                    source as int,
                    v,
                ))
                &&& forall|v: int, k: nat|
                    0 <= v < level@.len() && #[trigger] residual_path(graph@, source as int, v, k) ==> 0 <= level@[v] <= k
            },
            None => !residual_reachable(graph@, source as int, sink as int),
        },
{
    let level = residual_levels(graph, source);
    if level[sink] >= 0 {
        proof {
            assert(level_path(graph@, level@, source as int, sink as int, level@[sink as int] as nat));
            assert forall|v: int| 0 <= v < level@.len() && level@[v] >= 0 implies #[trigger] residual_path(
                graph@,
                source as int,
                v,
                level@[v] as nat,
            ) by {
                lemma_level_path_residual(graph@, level@, source as int, v, level@[v] as nat);
            }
        }
        Some(level)
    } else {
        proof {
            assert(level@[sink as int] >= 0 <==> residual_reachable(graph@, source as int, sink as int));
        }
        None
    }
}

/// Nodes still reachable from `source` through positive residual capacity.
pub fn residual_side(graph: &Vec<Vec<FlowEdge>>, source: usize) -> (side: Vec<bool>)
    requires
        flow_wf(graph@),
        source < graph@.len(),
        graph@.len() < i32::MAX,
    ensures
        side@.len() == graph@.len(),
        forall|v: int| 0 <= v < side@.len() ==> #[trigger] side@[v] == residual_reachable(graph@, source as int, v),
{
    let level = residual_levels(graph, source);
    let mut side: Vec<bool> = Vec::new();
    let mut v: usize = 0;
    while v < level.len()
        invariant
            v <= level@.len(),
            level@.len() == graph@.len(),
            side@.len() == v,
            forall|u: int|
                0 <= u < level@.len() ==> (#[trigger] level@[u] >= 0 <==> residual_reachable(
                    graph@,
                    source as int,
                    u,
                )),
            forall|u: int| 0 <= u < v ==> #[trigger] side@[u] == residual_reachable(graph@, source as int, u),
        decreases level@.len() - v,
    {
        side.push(level[v] >= 0);
        v = v + 1;
    }
    side
}


/// No level-graph path leads from `w` to `t`.
#[verifier::opaque]
pub open spec fn dead(g: Seq<Vec<FlowEdge>>, level: Seq<i32>, w: int, t: int) -> bool {
    forall|k: nat| !#[trigger] level_path(g, level, w, t, k)
}

/// Every edge before a node's cursor is exhausted: either outside the level
/// graph or leading to a dead node.
#[verifier::opaque]
pub open spec fn blocked(g: Seq<Vec<FlowEdge>>, level: Seq<i32>, next: Seq<usize>, t: int) -> bool {
    forall|v: int, i: int|
        0 <= v < g.len() && 0 <= i < next[v] ==> !useful(g, level, v, i) || dead(
            g,
            level,
            (#[trigger] g[v]@[i]).to as int,
            t,
        )
}

/// `a` has the shape of `b` and no level-graph edge that `b` lacks.
#[verifier::opaque]
pub open spec fn fewer_useful(a: Seq<Vec<FlowEdge>>, b: Seq<Vec<FlowEdge>>, level: Seq<i32>) -> bool {
    &&& same_shape(a, b)
    &&& forall|v: int, i: int|
        0 <= v < a.len() && 0 <= i < a[v]@.len() && #[trigger] useful(a, level, v, i) ==> useful(
            b,
            level,
            v,
            i,
        )
}

proof fn lemma_fewer_useful_level_path(
    a: Seq<Vec<FlowEdge>>,
    b: Seq<Vec<FlowEdge>>,
    level: Seq<i32>,
    v: int,
    t: int,
    k: nat,
)
    requires
        fewer_useful(a, b, level),
        0 <= v < a.len(),
        flow_wf(b),
        level_path(a, level, v, t, k),
    ensures
        level_path(b, level, v, t, k),
    decreases k,
{
    reveal(fewer_useful);
    reveal(same_shape);
    reveal(flow_wf);
    if v != t {
        let i = choose|i: int|
            0 <= i < a[v]@.len() && #[trigger] useful(a, level, v, i) && level_path(
                a,
                level,
                a[v]@[i].to as int,
                t,
                (k - 1) as nat,
            );
        assert(a[v]@[i].to == b[v]@[i].to);
        lemma_fewer_useful_level_path(a, b, level, a[v]@[i].to as int, t, (k - 1) as nat);
        assert(useful(b, level, v, i));
    }
}

proof fn lemma_fewer_useful_blocked(
    a: Seq<Vec<FlowEdge>>,
    b: Seq<Vec<FlowEdge>>,
    level: Seq<i32>,
    next: Seq<usize>,
    t: int,
)
    requires
        fewer_useful(a, b, level),
        flow_wf(b),
        blocked(b, level, next, t),
        next.len() == a.len(),
        forall|v: int| 0 <= v < a.len() ==> #[trigger] next[v] <= a[v]@.len(),
    ensures
        blocked(a, level, next, t),
{
    reveal(blocked);
    reveal(dead);
    reveal(fewer_useful);
    reveal(same_shape);
    reveal(flow_wf);
    assert forall|v: int, i: int| 0 <= v < a.len() && 0 <= i < next[v] implies !useful(a, level, v, i)
        || dead(a, level, (#[trigger] a[v]@[i]).to as int, t) by {
        assert(a[v]@[i].to == b[v]@[i].to);
        if useful(a, level, v, i) {
            assert(useful(b, level, v, i));
            let w = a[v]@[i].to as int;
            assert(b[v]@[i] == b[v]@[i]);
            assert forall|k: nat| !#[trigger] level_path(a, level, w, t, k) by {
                if level_path(a, level, w, t, k) {
                    lemma_fewer_useful_level_path(a, b, level, w, t, k);
                }
            }
        }
    }
}

proof fn lemma_fewer_useful_trans(
    a: Seq<Vec<FlowEdge>>,
    b: Seq<Vec<FlowEdge>>,
    c: Seq<Vec<FlowEdge>>,
    level: Seq<i32>,
)
    requires
        fewer_useful(a, b, level),
        fewer_useful(b, c, level),
    ensures
        fewer_useful(a, c, level),
{
    reveal(fewer_useful);
    reveal(same_shape);
    assert forall|v: int, i: int|
        0 <= v < a.len() && 0 <= i < a[v]@.len() && #[trigger] useful(a, level, v, i) implies useful(
        c,
        level,
        v,
        i,
    ) by {
        assert(useful(b, level, v, i));
    }
}

proof fn lemma_wf_from_pairs(a: Seq<Vec<FlowEdge>>, b: Seq<Vec<FlowEdge>>)
    requires
        flow_wf(b),
        same_shape(a, b),
        pairs_preserved(a, b),
    ensures
        flow_wf(a),
{
    reveal(flow_wf);
    reveal(same_shape);
    reveal(pairs_preserved);
    assert forall|u: int, i: int| 0 <= u < a.len() && 0 <= i < a[u]@.len() implies {
        let e = #[trigger] a[u]@[i];
        &&& e.to < a.len()
        &&& e.to != u
        &&& e.rev < a[e.to as int]@.len()
        &&& a[e.to as int]@[e.rev as int].to == u
        &&& a[e.to as int]@[e.rev as int].rev == i
        &&& e.capacity + a[e.to as int]@[e.rev as int].capacity <= u64::MAX
    } by {
        let e = b[u]@[i];
        assert(b[e.to as int]@[e.rev as int] == b[e.to as int]@[e.rev as int]);
        assert(pair_capacity(a, u, i) == pair_capacity(b, u, i));
    }
}

/// Sum of the residual capacities of one adjacency row.
pub open spec fn row_capacity(r: Seq<FlowEdge>) -> int
    decreases r.len(),
{
    if r.len() == 0 {
        0
    } else {
        row_capacity(r.drop_last()) + r.last().capacity
    }
}

proof fn lemma_row_capacity_update(r: Seq<FlowEdge>, i: int, e: FlowEdge)
    requires
        0 <= i < r.len(),
    ensures
        row_capacity(r.update(i, e)) == row_capacity(r) - r[i].capacity + e.capacity,
    decreases r.len(),
{
    let t = r.update(i, e);
    if i == r.len() - 1 {
        assert(t.drop_last() =~= r.drop_last());
    } else {
        assert(t.drop_last() =~= r.drop_last().update(i, e));
        lemma_row_capacity_update(r.drop_last(), i, e);
    }
}

proof fn lemma_row_capacity_nonneg(r: Seq<FlowEdge>)
    ensures
        row_capacity(r) >= 0,
    decreases r.len(),
{
    if r.len() > 0 {
        lemma_row_capacity_nonneg(r.drop_last());
    }
}

proof fn lemma_augment_step(
    g0: Seq<Vec<FlowEdge>>,
    g1: Seq<Vec<FlowEdge>>,
    g3: Seq<Vec<FlowEdge>>,
    level: Seq<i32>,
    n0: Seq<usize>,
    next: Seq<usize>,
    node: int,
    ei: int,
    sent: int,
    sink: int,
)
    requires
        flow_wf(g0),
        0 <= node < g0.len(),
        0 <= ei < g0[node]@.len(),
        level.len() == g0.len(),
        level[node] >= 0,
        useful(g0, level, node, ei),
        0 < sent <= g0[node]@[ei].capacity,
        same_shape(g1, g0),
        flow_wf(g1),
        pairs_preserved(g1, g0),
        fewer_useful(g1, g0, level),
        g1[node] == g0[node],
        next.len() == g0.len(),
        forall|v: int| 0 <= v < g0.len() ==> #[trigger] next[v] <= g0[v]@.len(),
        blocked(g1, level, next, sink),
        forall|v: int|
            0 <= v < g0.len() && level[v] < level[g0[node]@[ei].to as int] ==> #[trigger] g1[v]
                == g0[v],
        forall|v: int| 0 <= v < g0.len() && level[v] < level[node] ==> #[trigger] next[v] == n0[v],
        g3.len() == g1.len(),
        g3[node]@ == g1[node]@.update(
            ei,
            FlowEdge { capacity: (g1[node]@[ei].capacity - sent) as u64, ..g1[node]@[ei] },
        ),
        ({
            let to = g0[node]@[ei].to as int;
            let rev = g0[node]@[ei].rev as int;
            g3[to]@ == g1[to]@.update(
                rev,
                FlowEdge { capacity: (g1[to]@[rev].capacity + sent) as u64, ..g1[to]@[rev] },
            )
        }),
        g1[g0[node]@[ei].to as int]@[g0[node]@[ei].rev as int].capacity + sent <= u64::MAX,
        forall|u: int| 0 <= u < g3.len() && u != node && u != g0[node]@[ei].to ==> #[trigger] g3[u] == g1[u],
    ensures
        flow_wf(g3),
        same_shape(g3, g0),
        pairs_preserved(g3, g0),
        fewer_useful(g3, g0, level),
        blocked(g3, level, next, sink),
        forall|v: int| 0 <= v < g0.len() && level[v] < level[node] ==> #[trigger] g3[v] == g0[v],
        row_capacity(g3[node]@) + sent == row_capacity(g0[node]@),
{
    reveal(fewer_useful);
    reveal(same_shape);
    reveal(pairs_preserved);
    reveal(flow_wf);
    let fe = g0[node]@[ei];
    let to = fe.to as int;
    let rev = fe.rev as int;
    assert(g1[node]@[ei] == fe);
    assert(g1[to]@[rev].to == node && g1[to]@[rev].rev == ei);
    assert(same_shape(g3, g1)) by {
        assert forall|u: int| 0 <= u < g3.len() implies (#[trigger] g3[u])@.len() == g1[u]@.len() by {
            if u != node && u != to {
                assert(g3[u] == g1[u]);
            }
        }
        assert forall|u: int, i: int| 0 <= u < g3.len() && 0 <= i < g3[u]@.len() implies (
        #[trigger] g3[u]@[i]).to == g1[u]@[i].to && g3[u]@[i].rev == g1[u]@[i].rev by {
            if u != node && u != to {
                assert(g3[u] == g1[u]);
            }
        }
    }
    assert forall|u: int, i: int| 0 <= u < g3.len() && 0 <= i < g3[u]@.len() implies #[trigger] pair_capacity(
        g3,
        u,
        i,
    ) == pair_capacity(g0, u, i) by {
        assert(pair_capacity(g1, u, i) == pair_capacity(g0, u, i));
        let e = g1[u]@[i];
        if u == node && i == ei {
        } else if u == to && i == rev {
        } else {
            if u != node && u != to {
                assert(g3[u] == g1[u]);
            }
            assert(g3[u]@[i] == g1[u]@[i]);
            assert(!(e.to == node && e.rev == ei));
            assert(!(e.to == to && e.rev == rev));
            if e.to != node && e.to != to {
                assert(g3[e.to as int] == g1[e.to as int]);
            }
            assert(g3[e.to as int]@[e.rev as int] == g1[e.to as int]@[e.rev as int]);
        }
    }
    assert(same_shape(g3, g0));
    assert forall|v: int, i: int|
        0 <= v < g3.len() && 0 <= i < g3[v]@.len() && #[trigger] useful(g3, level, v, i) implies useful(
        g1,
        level,
        v,
        i,
    ) by {
        if v == to && i == rev {
            assert(g3[to]@[rev].to == node);
            assert(false);
        } else if v == node && i == ei {
        } else {
            if v != node && v != to {
                assert(g3[v] == g1[v]);
            }
            assert(g3[v]@[i] == g1[v]@[i]);
        }
    }
    assert(fewer_useful(g3, g1, level));
    lemma_fewer_useful_trans(g3, g1, g0, level);
    lemma_wf_from_pairs(g3, g0);
    lemma_fewer_useful_blocked(g3, g1, level, next, sink);
    lemma_row_capacity_update(g1[node]@, ei, g3[node]@[ei]);
    assert forall|v: int| 0 <= v < g0.len() && level[v] < level[node] implies #[trigger] g3[v] == g0[v] by {
        assert(v != to);
        assert(v != node);
    }
}

/// Pushes at most `pushed` units from `node` towards `sink` along one
/// level-graph path, advancing the edge cursors past exhausted edges.

/// Overwrites the residual capacity of edge `i` of row `u`.
fn set_capacity(graph: &mut Vec<Vec<FlowEdge>>, u: usize, i: usize, capacity: u64)
    requires
        u < old(graph)@.len(),
        i < old(graph)@[u as int]@.len(),
    ensures
        final(graph)@.len() == old(graph)@.len(),
        final(graph)@[u as int]@ == old(graph)@[u as int]@.update(
            i as int,
            FlowEdge { capacity, ..old(graph)@[u as int]@[i as int] },
        ),
        forall|w: int| 0 <= w < old(graph)@.len() && w != u ==> #[trigger] final(graph)@[w] == old(graph)@[w],
{
    graph[u][i].capacity = capacity;
}


proof fn lemma_blocked_advance(g: Seq<Vec<FlowEdge>>, level: Seq<i32>, next: Seq<usize>, v: int, t: int)
    requires
        blocked(g, level, next, t),
        0 <= v < g.len(),
        next.len() == g.len(),
        next[v] < g[v]@.len(),
        !useful(g, level, v, next[v] as int) || dead(g, level, g[v]@[next[v] as int].to as int, t),
    ensures
        blocked(g, level, next.update(v, (next[v] + 1) as usize), t),
{
    reveal(blocked);
    let n2 = next.update(v, (next[v] + 1) as usize);
    assert forall|u: int, i: int| 0 <= u < g.len() && 0 <= i < n2[u] implies !useful(g, level, u, i) || dead(
        g,
        level,
        (#[trigger] g[u]@[i]).to as int,
        t,
    ) by {
        if u == v && i == next[v] {
        } else {
            assert(i < next[u]);
        }
    }
}

proof fn lemma_blocked_row_dead(g: Seq<Vec<FlowEdge>>, level: Seq<i32>, next: Seq<usize>, v: int, t: int)
    requires
        blocked(g, level, next, t),
        0 <= v < g.len(),
        next.len() == g.len(),
        next[v] == g[v]@.len(),
        v != t,
    ensures
        dead(g, level, v, t),
{
    reveal(blocked);
    reveal(dead);
    assert forall|k: nat| !#[trigger] level_path(g, level, v, t, k) by {
        if level_path(g, level, v, t, k) {
            let i = choose|i: int|
                0 <= i < g[v]@.len() && #[trigger] useful(g, level, v, i) && level_path(
                    g,
                    level,
                    g[v]@[i].to as int,
                    t,
                    (k - 1) as nat,
                );
            assert(g[v]@[i] == g[v]@[i]);
        }
    }
}

proof fn lemma_blocked_initial(g: Seq<Vec<FlowEdge>>, level: Seq<i32>, next: Seq<usize>, t: int)
    requires
        forall|v: int| 0 <= v < next.len() ==> #[trigger] next[v] == 0,
        next.len() == g.len(),
    ensures
        blocked(g, level, next, t),
{
    reveal(blocked);
}

proof fn lemma_alive_not_dead(g: Seq<Vec<FlowEdge>>, level: Seq<i32>, v: int, t: int, k: nat)
    requires
        level_path(g, level, v, t, k),
    ensures
        !dead(g, level, v, t),
{
    reveal(dead);
}

proof fn lemma_same_fewer_useful(g: Seq<Vec<FlowEdge>>, level: Seq<i32>)
    ensures
        fewer_useful(g, g, level),
        same_shape(g, g),
        pairs_preserved(g, g),
{
    reveal(fewer_useful);
    reveal(same_shape);
    reveal(pairs_preserved);
}

/// Facts about one edge of a well-formed residual graph.
pub proof fn lemma_flow_edge(g: Seq<Vec<FlowEdge>>, u: int, i: int)
    requires
        flow_wf(g),
        0 <= u < g.len(),
        0 <= i < g[u]@.len(),
    ensures
        ({
            let e = g[u]@[i];
            &&& e.to < g.len()
            &&& e.to != u
            &&& e.rev < g[e.to as int]@.len()
            &&& g[e.to as int]@[e.rev as int].to == u
            &&& g[e.to as int]@[e.rev as int].rev == i
            &&& e.capacity + g[e.to as int]@[e.rev as int].capacity <= u64::MAX
        }),
{
    reveal(flow_wf);
}

proof fn lemma_flow_targets(g: Seq<Vec<FlowEdge>>)
    requires
        flow_wf(g),
    ensures
        forall|u: int, i: int| 0 <= u < g.len() && 0 <= i < g[u]@.len() ==> (#[trigger] g[u]@[i]).to < g.len(),
{
    reveal(flow_wf);
}

proof fn lemma_pair_of(a: Seq<Vec<FlowEdge>>, b: Seq<Vec<FlowEdge>>, u: int, i: int)
    requires
        pairs_preserved(a, b),
        0 <= u < a.len(),
        0 <= i < a[u]@.len(),
    ensures
        pair_capacity(a, u, i) == pair_capacity(b, u, i),
{
    reveal(pairs_preserved);
}

proof fn lemma_same_shape_trans(a: Seq<Vec<FlowEdge>>, b: Seq<Vec<FlowEdge>>, c: Seq<Vec<FlowEdge>>)
    requires
        same_shape(a, b),
        same_shape(b, c),
    ensures
        same_shape(a, c),
        a.len() == b.len(),
        forall|u: int| 0 <= u < a.len() ==> (#[trigger] a[u])@.len() == b[u]@.len(),
{
    reveal(same_shape);
}

proof fn lemma_pairs_trans(a: Seq<Vec<FlowEdge>>, b: Seq<Vec<FlowEdge>>, c: Seq<Vec<FlowEdge>>)
    requires
        same_shape(a, b),
        pairs_preserved(a, b),
        pairs_preserved(b, c),
    ensures
        pairs_preserved(a, c),
{
    reveal(same_shape);
    reveal(pairs_preserved);
}

proof fn lemma_same_shape_rows(a: Seq<Vec<FlowEdge>>, b: Seq<Vec<FlowEdge>>)
    requires
        same_shape(a, b),
    ensures
        a.len() == b.len(),
        forall|u: int| 0 <= u < a.len() ==> (#[trigger] a[u])@.len() == b[u]@.len(),
{
    reveal(same_shape);
}

#[verifier::rlimit(40)]
fn flow_dfs(
    node: usize,
    sink: usize,
    pushed: u64,
    level: &Vec<i32>,
    next_edge: &mut Vec<usize>,
    graph: &mut Vec<Vec<FlowEdge>>,
) -> (sent: u64)
    requires
        flow_wf(old(graph)@),
        old(graph)@.len() < i32::MAX,
        level@.len() == old(graph)@.len(),
        forall|v: int| 0 <= v < level@.len() ==> -1 <= #[trigger] level@[v] < old(graph)@.len(),
        node < old(graph)@.len(),
        sink < old(graph)@.len(),
        level@[node as int] >= 0,
        old(next_edge)@.len() == old(graph)@.len(),
        forall|v: int| 0 <= v < old(graph)@.len() ==> #[trigger] old(next_edge)@[v] <= old(graph)@[v]@.len(),
        blocked(old(graph)@, level@, old(next_edge)@, sink as int),
    ensures
        flow_wf(final(graph)@),
        same_shape(final(graph)@, old(graph)@),
        pairs_preserved(final(graph)@, old(graph)@),
        fewer_useful(final(graph)@, old(graph)@, level@),
        final(next_edge)@.len() == old(graph)@.len(),
        forall|v: int| 0 <= v < old(graph)@.len() ==> #[trigger] final(next_edge)@[v] <= old(graph)@[v]@.len(),
        blocked(final(graph)@, level@, final(next_edge)@, sink as int),
        forall|v: int|
            0 <= v < old(graph)@.len() && level@[v] < level@[node as int] ==> #[trigger] final(graph)@[v]
                == old(graph)@[v],
        forall|v: int|
            0 <= v < old(graph)@.len() && level@[v] < level@[node as int] ==> #[trigger] final(next_edge)@[v]
                == old(next_edge)@[v],
        sent <= pushed,
        sent == 0 ==> final(graph)@ == old(graph)@,
        pushed > 0 && sent == 0 ==> dead(final(graph)@, level@, node as int, sink as int),
        node != sink ==> row_capacity(final(graph)@[node as int]@) + sent == row_capacity(
            old(graph)@[node as int]@,
        ),
        forall|v: int|
            0 <= v < old(graph)@.len() && v != node && v != sink ==> #[trigger] row_capacity(final(graph)@[v]@)
                == row_capacity(old(graph)@[v]@),
    decreases i32::MAX - level@[node as int],
{
    let ghost g0 = graph@;
    let ghost n0 = next_edge@;
    if pushed == 0 {
        proof {
            lemma_same_fewer_useful(g0, level@);
        }
        return 0;
    }
    if node == sink {
        proof {
            lemma_same_fewer_useful(g0, level@);
        }
        return pushed;
    }
    #[verifier::loop_isolation(false)]
    while next_edge[node] < graph[node].len()
        invariant
            graph@ == g0,
            flow_wf(g0),
            g0.len() < i32::MAX,
            level@.len() == g0.len(),
            forall|v: int| 0 <= v < level@.len() ==> -1 <= #[trigger] level@[v] < g0.len(),
            node < g0.len(),
            sink < g0.len(),
            node != sink,
            pushed > 0,
            level@[node as int] >= 0,
            next_edge@.len() == g0.len(),
            forall|v: int| 0 <= v < g0.len() ==> #[trigger] next_edge@[v] <= g0[v]@.len(),
            blocked(g0, level@, next_edge@, sink as int),
            forall|v: int|
                0 <= v < g0.len() && level@[v] < level@[node as int] ==> #[trigger] next_edge@[v] == n0[v],
        decreases g0[node as int]@.len() - next_edge@[node as int],
    {
        let edge_index = next_edge[node];
        proof {
            lemma_flow_edge(g0, node as int, edge_index as int);
        }
        let to = graph[node][edge_index].to;
        let reverse = graph[node][edge_index].rev;
        let capacity = graph[node][edge_index].capacity;
        if capacity > 0 && level[to] == level[node] + 1 {
            let amount = if pushed < capacity {
                pushed
            } else {
                capacity
            };
            let ghost next_before = next_edge@;
            let sent = flow_dfs(to, sink, amount, level, next_edge, graph);
            proof {
                assert forall|v: int| 0 <= v < g0.len() && level@[v] < level@[node as int] implies #[trigger] next_edge@[v]
                    == n0[v] by {
                    assert(next_edge@[v] == next_before[v]);
                }
            }
            if sent > 0 {
                let ghost g1 = graph@;
                proof {
                    assert(g1[node as int] == g0[node as int]);
                    lemma_same_shape_rows(g1, g0);
                    lemma_flow_edge(g1, node as int, edge_index as int);
                }
                set_capacity(graph, node, edge_index, capacity - sent);
                let ghost g2 = graph@;
                let back = graph[to][reverse].capacity;
                proof {
                    assert(g2[to as int] == g1[to as int]);
                    assert(g1[node as int] == g0[node as int]);
                    lemma_pair_of(g1, g0, node as int, edge_index as int);
                }
                set_capacity(graph, to, reverse, back + sent);
                proof {
                    assert(graph@[node as int] == g2[node as int]);
                    lemma_augment_step(
                        g0,
                        g1,
                        graph@,
                        level@,
                        n0,
                        next_edge@,
                        node as int,
                        edge_index as int,
                        sent as int,
                        sink as int,
                    );
                    assert forall|v: int| 0 <= v < g0.len() && v != node && v != sink implies #[trigger] row_capacity(
                        graph@[v]@,
                    ) == row_capacity(g0[v]@) by {
                        if v == to {
                            lemma_row_capacity_update(g2[to as int]@, reverse as int, graph@[to as int]@[reverse as int]);
                        } else {
                            assert(graph@[v] == g1[v]);
                        }
                    }
                }
                return sent;
            }
        }
        proof {
            lemma_blocked_advance(g0, level@, next_edge@, node as int, sink as int);
        }
        next_edge.set(node, edge_index + 1);
    }
    proof {
        lemma_blocked_row_dead(g0, level@, next_edge@, node as int, sink as int);
        lemma_same_fewer_useful(g0, level@);
    }
    0
}

/// Saturates `graph` with a maximum flow from `source` to `sink`. Every edge
/// pair keeps its combined capacity and every inner node keeps its total
/// residual capacity (flow in equals flow out), so the change is a flow;
/// afterwards no path of positive residual capacity joins source and sink,
/// so that flow is maximum and the nodes still reachable from `source` form
/// the source side of a minimum cut.
pub fn max_flow(graph: &mut Vec<Vec<FlowEdge>>, source: usize, sink: usize)
    requires
        flow_wf(old(graph)@),
        source < old(graph)@.len(),
        sink < old(graph)@.len(),
        source != sink,
        old(graph)@.len() < i32::MAX,
    ensures
        flow_wf(final(graph)@),
        same_shape(final(graph)@, old(graph)@),
        pairs_preserved(final(graph)@, old(graph)@),
        forall|v: int|
            0 <= v < old(graph)@.len() && v != source && v != sink ==> #[trigger] row_capacity(final(graph)@[v]@)
                == row_capacity(old(graph)@[v]@),
        !residual_reachable(final(graph)@, source as int, sink as int),
{
    let ghost g0 = graph@;
    let n = graph.len();
    proof {
        lemma_same_fewer_useful(g0, Seq::<i32>::empty());
    }
    loop
        invariant_except_break
            flow_wf(graph@),
            graph@.len() == n,
            same_shape(graph@, g0),
            pairs_preserved(graph@, g0),
            forall|v: int|
                0 <= v < n && v != source && v != sink ==> #[trigger] row_capacity(graph@[v]@) == row_capacity(g0[v]@),
            n == g0.len(),
            source < n,
            sink < n,
            source != sink,
            n < i32::MAX,
        ensures
            flow_wf(graph@),
            same_shape(graph@, g0),
            pairs_preserved(graph@, g0),
            forall|v: int|
                0 <= v < n && v != source && v != sink ==> #[trigger] row_capacity(graph@[v]@) == row_capacity(g0[v]@),
            !residual_reachable(graph@, source as int, sink as int),
        decreases row_capacity(graph@[source as int]@),
    {
        let levels = flow_levels(graph, source, sink);
        let level = match levels {
            Some(level) => level,
            None => break,
        };
        let mut next_edge: Vec<usize> = vec![0usize; n];
        let ghost start = graph@;
        let ghost start_capacity = row_capacity(graph@[source as int]@);
        let ghost mut progressed = false;
        proof {
            lemma_row_capacity_nonneg(graph@[source as int]@);
            lemma_blocked_initial(graph@, level@, next_edge@, sink as int);
        }
        loop
            invariant_except_break
                flow_wf(graph@),
                graph@.len() == n,
                same_shape(graph@, g0),
                pairs_preserved(graph@, g0),
                forall|v: int|
                    0 <= v < n && v != source && v != sink ==> #[trigger] row_capacity(graph@[v]@) == row_capacity(g0[v]@),
                n == g0.len(),
                source < n,
                sink < n,
                source != sink,
                n < i32::MAX,
                level@.len() == n,
                level@[source as int] == 0,
                forall|v: int| 0 <= v < level@.len() ==> -1 <= #[trigger] level@[v] < n,
                next_edge@.len() == n,
                forall|v: int| 0 <= v < n ==> #[trigger] next_edge@[v] <= graph@[v]@.len(),
                blocked(graph@, level@, next_edge@, sink as int),
                !progressed ==> graph@ == start,
                exists|k: nat| level_path(start, level@, source as int, sink as int, k),
                progressed ==> row_capacity(graph@[source as int]@) < start_capacity,
                row_capacity(graph@[source as int]@) <= start_capacity,
            ensures
                flow_wf(graph@),
                graph@.len() == n,
                same_shape(graph@, g0),
                pairs_preserved(graph@, g0),
                forall|v: int|
                    0 <= v < n && v != source && v != sink ==> #[trigger] row_capacity(graph@[v]@) == row_capacity(g0[v]@),
                row_capacity(graph@[source as int]@) < start_capacity,
            decreases row_capacity(graph@[source as int]@),
        {
            proof {
                lemma_row_capacity_nonneg(graph@[source as int]@);
            }
            let ghost before = graph@;
            let ghost before_capacity = row_capacity(graph@[source as int]@);
            let pushed = flow_dfs(source, sink, 0x1000_0000_0000_0000u64, &level, &mut next_edge, graph);
            proof {
                lemma_pairs_trans(graph@, before, g0);
                lemma_same_shape_trans(graph@, before, g0);
            }
            if pushed == 0 {
                proof {
                    if !progressed {
                        let k = choose|k: nat| level_path(start, level@, source as int, sink as int, k);
                        lemma_alive_not_dead(start, level@, source as int, sink as int, k);
                    }
                }
                break;
            }
            proof {
                progressed = true;
                assert(row_capacity(graph@[source as int]@) < before_capacity);
                lemma_row_capacity_nonneg(graph@[source as int]@);
            }
        }
        proof {
            lemma_row_capacity_nonneg(graph@[source as int]@);
        }
    }
}

} // verus!
