use uft_ca::{conway_3d_rule, step_graph, GraphCA};

#[test]
fn test_graph_ca() {
    let mut graph = GraphCA::new(5);
    graph.add_edge(0, 1);
    graph.add_edge(0, 2);
    graph.add_edge(1, 2);
    graph.add_edge(2, 3);
    graph.add_edge(3, 4);

    graph.states[0] = 1;
    graph.states[1] = 1;

    let next = step_graph(&graph, conway_3d_rule);
    assert_eq!(next.len(), 5);
}

#[test]
fn new_graph_is_void_and_has_no_edges() {
    let graph = GraphCA::new(4);
    assert_eq!(graph.states, vec![0u8; 4]);
    assert!(graph.adjacency.is_empty());
    for node in 0..4 {
        assert!(graph.get_neighbors(node).is_empty());
    }
    assert!(GraphCA::new(0).states.is_empty());
}

#[test]
fn edges_are_directed_and_kept_in_order() {
    let mut graph = GraphCA::new(4);
    graph.add_edge(0, 3);
    graph.add_edge(0, 1);
    graph.add_edge(2, 0);
    assert_eq!(graph.get_neighbors(0), &[3, 1]);
    assert_eq!(graph.get_neighbors(2), &[0]);
    assert!(graph.get_neighbors(1).is_empty());
    assert!(graph.get_neighbors(3).is_empty());
    assert_eq!(graph.states, vec![0u8; 4]);
    assert_eq!(graph.adjacency.len(), 2);
}

#[test]
fn duplicate_edges_and_self_loops_are_kept() {
    let mut graph = GraphCA::new(3);
    graph.add_edge(1, 2);
    graph.add_edge(1, 2);
    graph.add_edge(1, 1);
    assert_eq!(graph.get_neighbors(1), &[2, 2, 1]);
}

#[test]
fn unknown_node_has_no_neighbors() {
    let mut graph = GraphCA::new(2);
    graph.add_edge(0, 1);
    assert!(graph.get_neighbors(1).is_empty());
    assert!(graph.get_neighbors(7).is_empty());
    assert!(graph.get_neighbors(usize::MAX).is_empty());
}

#[test]
fn add_edge_does_not_check_its_ends() {
    let mut graph = GraphCA::new(2);
    graph.add_edge(9, 1);
    graph.add_edge(0, 1);
    assert_eq!(graph.get_neighbors(9), &[1]);
    assert_eq!(step_graph(&graph, conway_3d_rule), vec![0, 0]);
}

#[test]
fn graph_step_counts_outgoing_neighbors_only() {
    let mut graph = GraphCA::new(5);
    graph.add_edge(0, 1);
    graph.add_edge(0, 2);
    graph.add_edge(1, 2);
    graph.add_edge(2, 3);
    graph.add_edge(3, 4);
    graph.states[0] = 1;
    graph.states[1] = 1;

    let counts = step_graph(&graph, |_current: u8, count: usize| count as u8);
    assert_eq!(counts, vec![1, 0, 0, 0, 0]);
    let next = step_graph(&graph, conway_3d_rule);
    assert_eq!(next, vec![0, 0, 0, 0, 0]);
    assert_eq!(graph.states, vec![1, 1, 0, 0, 0]);
}

#[test]
fn graph_step_gives_birth_and_survival() {
    let mut graph = GraphCA::new(6);
    for to in 1..5 {
        graph.add_edge(0, to);
        graph.add_edge(5, to);
    }
    graph.add_edge(1, 5);
    for node in 1..5 {
        graph.states[node] = 1;
    }
    graph.states[5] = 1;
    let next = step_graph(&graph, conway_3d_rule);
    assert_eq!(next, vec![1, 0, 0, 0, 0, 1]);
}

#[test]
fn graph_step_counts_a_neighbor_once_per_edge() {
    let mut graph = GraphCA::new(2);
    for _ in 0..4 {
        graph.add_edge(0, 1);
    }
    graph.add_edge(1, 1);
    graph.states[1] = 3;
    let counts = step_graph(&graph, |_current: u8, count: usize| count as u8);
    assert_eq!(counts, vec![4, 1]);
    assert_eq!(step_graph(&graph, conway_3d_rule), vec![1, 0]);
}

#[test]
fn graph_step_is_repeatable_and_leaves_the_graph_alone() {
    let mut graph = GraphCA::new(4);
    graph.add_edge(0, 1);
    graph.add_edge(1, 2);
    graph.add_edge(2, 3);
    graph.add_edge(3, 0);
    graph.states = vec![1, 2, 0, 4];
    let first = step_graph(&graph, |current: u8, count: usize| current + count as u8);
    let second = step_graph(&graph, |current: u8, count: usize| current + count as u8);
    assert_eq!(first, vec![2, 2, 1, 5]);
    assert_eq!(first, second);
    assert_eq!(graph.states, vec![1, 2, 0, 4]);
    assert_eq!(graph.get_neighbors(3), &[0]);
}

#[test]
fn empty_graph_steps_to_nothing() {
    let graph = GraphCA::new(0);
    assert!(step_graph(&graph, conway_3d_rule).is_empty());
}

#[test]
fn has_valid_edges_finds_an_edge_that_leaves_the_graph() {
    let mut graph = GraphCA::new(3);
    assert!(graph.has_valid_edges());
    graph.add_edge(0, 2);
    graph.add_edge(2, 2);
    assert!(graph.has_valid_edges());
    graph.add_edge(7, 9);
    assert!(graph.has_valid_edges());
    graph.add_edge(1, 3);
    assert!(!graph.has_valid_edges());
    assert!(GraphCA::new(0).has_valid_edges());
}
