use interlink_worldgen::flow::{add_flow_edge, add_undirected_flow_edge, flow_levels, max_flow, residual_side, FlowEdge};

fn empty_network(nodes: usize) -> Vec<Vec<FlowEdge>> {
    vec![Vec::new(); nodes]
}

/// Flow carried by the edge `from -> to` added first: the capacity of its partner.
fn carried(graph: &[Vec<FlowEdge>], from: usize, index: usize) -> u64 {
    let edge = graph[from][index];
    graph[edge.to][edge.rev].capacity
}

#[test]
fn add_flow_edge_links_partner_edges() {
    let mut graph = empty_network(2);
    add_flow_edge(&mut graph, 0, 1, 7);
    assert_eq!(graph[0].len(), 1);
    assert_eq!(graph[1].len(), 1);
    assert_eq!((graph[0][0].to, graph[0][0].rev, graph[0][0].capacity), (1, 0, 7));
    assert_eq!((graph[1][0].to, graph[1][0].rev, graph[1][0].capacity), (0, 0, 0));
}

#[test]
fn undirected_edge_adds_capacity_both_ways() {
    let mut graph = empty_network(2);
    add_undirected_flow_edge(&mut graph, 0, 1, 4);
    assert_eq!(graph[0].len(), 2);
    assert_eq!(graph[1].len(), 2);
    assert_eq!((graph[0][0].to, graph[0][0].rev, graph[0][0].capacity), (1, 0, 4));
    assert_eq!((graph[0][1].to, graph[0][1].rev, graph[0][1].capacity), (1, 1, 0));
    assert_eq!((graph[1][0].to, graph[1][0].rev, graph[1][0].capacity), (0, 0, 0));
    assert_eq!((graph[1][1].to, graph[1][1].rev, graph[1][1].capacity), (0, 1, 4));
}

#[test]
fn levels_follow_breadth_first_distance() {
    let mut graph = empty_network(4);
    add_flow_edge(&mut graph, 0, 1, 1);
    add_flow_edge(&mut graph, 1, 2, 1);
    add_flow_edge(&mut graph, 0, 2, 1);
    let levels = flow_levels(&graph, 0, 2).unwrap();
    assert_eq!(levels, vec![0, 1, 1, -1]);
    assert!(flow_levels(&graph, 0, 3).is_none());
}

#[test]
fn max_flow_saturates_the_bottleneck_and_leaves_no_augmenting_path() {
    let mut graph = empty_network(4);
    add_flow_edge(&mut graph, 0, 1, 10);
    add_flow_edge(&mut graph, 1, 2, 1);
    add_flow_edge(&mut graph, 2, 3, 10);
    max_flow(&mut graph, 0, 3);
    assert!(flow_levels(&graph, 0, 3).is_none());
    assert_eq!(carried(&graph, 0, 0), 1);
    assert_eq!(carried(&graph, 1, 1), 1);
    assert_eq!(residual_side(&graph, 0), vec![true, true, false, false]);
}

#[test]
fn max_flow_value_equals_min_cut_on_diamond() {
    let mut graph = empty_network(4);
    add_flow_edge(&mut graph, 0, 1, 3);
    add_flow_edge(&mut graph, 0, 2, 2);
    add_flow_edge(&mut graph, 1, 3, 2);
    add_flow_edge(&mut graph, 2, 3, 3);
    add_flow_edge(&mut graph, 1, 2, 1);
    max_flow(&mut graph, 0, 3);
    let out_of_source = carried(&graph, 0, 0) + carried(&graph, 0, 1);
    assert_eq!(out_of_source, 5);
    assert_eq!(residual_side(&graph, 0), vec![true, false, false, false]);
}

#[test]
fn undirected_corridor_is_cut_at_its_narrowest_link() {
    let mut graph = empty_network(4);
    add_undirected_flow_edge(&mut graph, 0, 1, 5);
    add_undirected_flow_edge(&mut graph, 1, 2, 2);
    add_undirected_flow_edge(&mut graph, 2, 3, 5);
    max_flow(&mut graph, 0, 3);
    assert_eq!(residual_side(&graph, 0), vec![true, true, false, false]);
}

#[test]
fn a_self_loop_edge_lands_twice_in_one_row() {
    let mut graph = empty_network(1);
    add_flow_edge(&mut graph, 0, 0, 3);
    assert_eq!(graph[0].len(), 2);
    assert_eq!((graph[0][0].to, graph[0][0].rev, graph[0][0].capacity), (0, 0, 3));
    assert_eq!((graph[0][1].to, graph[0][1].rev, graph[0][1].capacity), (0, 0, 0));
}

#[test]
fn levels_are_shortest_residual_distances() {
    // 0 -> 1 -> 2 -> 3 and a shortcut 0 -> 3; saturated edges do not count
    let mut graph = empty_network(5);
    add_flow_edge(&mut graph, 0, 1, 1);
    add_flow_edge(&mut graph, 1, 2, 1);
    add_flow_edge(&mut graph, 2, 3, 1);
    add_flow_edge(&mut graph, 0, 3, 1);
    add_flow_edge(&mut graph, 3, 4, 0);
    assert_eq!(flow_levels(&graph, 0, 3).unwrap(), vec![0, 1, 2, 1, -1]);
}

#[test]
fn max_flow_conserves_residual_capacity_at_inner_nodes() {
    let mut graph = empty_network(5);
    add_flow_edge(&mut graph, 0, 1, 4);
    add_flow_edge(&mut graph, 0, 2, 3);
    add_flow_edge(&mut graph, 1, 2, 2);
    add_flow_edge(&mut graph, 1, 3, 2);
    add_flow_edge(&mut graph, 2, 3, 4);
    add_flow_edge(&mut graph, 3, 4, 9);
    let row_sum = |g: &Vec<Vec<FlowEdge>>, v: usize| g[v].iter().map(|e| e.capacity).sum::<u64>();
    let before: Vec<u64> = (0..5).map(|v| row_sum(&graph, v)).collect();
    max_flow(&mut graph, 0, 4);
    for v in 1..4 {
        assert_eq!(row_sum(&graph, v), before[v]);
    }
    // six units leave the source (the cut {1->3, 2->3} holds 2 + 4)
    assert_eq!(before[0] - row_sum(&graph, 0), 6);
    assert_eq!(row_sum(&graph, 4) - before[4], 6);
}
