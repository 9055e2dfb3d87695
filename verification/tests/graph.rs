use std::collections::HashSet;
use undirected_graph::graph::UndirectedGraph;
use undirected_graph::model::ElementId;

fn set_of(items: Vec<ElementId>) -> HashSet<ElementId> {
    items.into_iter().collect()
}

fn sorted(items: Vec<ElementId>) -> Vec<ElementId> {
    let mut v = items;
    v.sort();
    v
}

fn sorted_set(items: HashSet<ElementId>) -> Vec<ElementId> {
    sorted(items.into_iter().collect())
}

fn check(g: &UndirectedGraph, expected: Vec<(ElementId, Vec<ElementId>)>) {
    for (n, e) in expected {
        let edges: HashSet<ElementId> = e.into_iter().collect();
        assert_eq!(g.get_edges(&n), Some(&edges), "{n}");
    }
}

/// The whole graph equals `expected`: the same nodes, each with the same neighbours.
fn check_all(g: &UndirectedGraph, expected: Vec<(ElementId, Vec<ElementId>)>) {
    assert_eq!(g.len(), expected.len());
    check(g, expected);
}

fn is_symmetric(g: &UndirectedGraph, nodes: &[ElementId]) -> bool {
    for a in nodes {
        if let Some(edges) = g.get_edges(a) {
            for b in edges {
                match g.get_edges(b) {
                    Some(back) => {
                        if !back.contains(a) {
                            return false;
                        }
                    }
                    None => return false,
                }
            }
        }
    }
    true
}

#[test]
fn test_undirected_graph() {
    // Graph creation
    let mut g: UndirectedGraph = 10.into();
    assert_eq!(g.m_max(), 10);

    // Adding an empty node
    let res = g.add_empty_node(0);
    assert!(res);
    check(&g, vec![(0, vec![])]);

    // Adding the same node
    let res = g.add_empty_node(0);
    assert!(!res);
    check(&g, vec![(0, vec![])]);

    // Adding a node with one edge
    let res = g.add_node(1, HashSet::from([0]));
    assert_eq!(res, Some(vec![0]));
    check(&g, vec![(0, vec![1]), (1, vec![0])]);

    // Adding the same node
    let res = g.add_node(1, HashSet::from([2]));
    assert_eq!(res, None);
    check(&g, vec![(0, vec![1]), (1, vec![0])]);

    // Adding a node with two edges
    let res = g.add_node(2, HashSet::from([0, 1]));
    assert_eq!(
        res.map(|mut v| {
            v.sort();
            v
        }),
        Some(vec![0, 1])
    );
    check(&g, vec![(0, vec![1, 2]), (1, vec![0, 2]), (2, vec![0, 1])]);

    // Adding a node with two edges
    let res = g.add_node(3, HashSet::from([1, 2]));
    assert_eq!(
        res.map(|mut v| {
            v.sort();
            v
        }),
        Some(vec![1, 2])
    );
    check(&g, vec![(0, vec![1, 2]), (1, vec![0, 2, 3]), (2, vec![0, 1, 3]), (3, vec![1, 2])]);

    // Change the edges of a node
    g.set_node(3, HashSet::from([0]));
    check(&g, vec![(0, vec![1, 2, 3]), (1, vec![0, 2]), (2, vec![0, 1]), (3, vec![0])]);

    // Add an edge
    g.add_edge(2, 3);
    check(&g, vec![(0, vec![1, 2, 3]), (1, vec![0, 2]), (2, vec![0, 1, 3]), (3, vec![0, 2])]);

    // Remove a node
    let res = g.remove_node(&2);
    assert_eq!(
        res.map(|v| {
            let mut v: Vec<ElementId> = v.into_iter().collect();
            v.sort();
            v
        }),
        Some(vec![0, 1, 3])
    );
    check(&g, vec![(0, vec![1, 3]), (1, vec![0]), (3, vec![0])]);

    // Remove again
    let res = g.remove_node(&2);
    assert_eq!(res, None);

    // Set a non existing node
    g.set_node(2, HashSet::from([1]));
    check(&g, vec![(0, vec![1, 3]), (1, vec![0, 2]), (2, vec![1]), (3, vec![0])]);
}

#[test]
fn new_graph_is_empty_and_keeps_the_hint() {
    let g = UndirectedGraph::new(7);
    assert_eq!(g.m_max(), 7);
    assert_eq!(g.len(), 0);
    assert_eq!(g.get_edges(&0), None);

    let h = UndirectedGraph::from(3);
    assert_eq!(h.m_max(), 3);
    assert_eq!(h.len(), 0);
}

#[test]
fn literal_scenario_step_by_step() {
    let mut g = UndirectedGraph::new(10);

    assert!(g.add_empty_node(0));
    check_all(&g, vec![(0, vec![])]);

    let res = g.add_node(1, set_of(vec![0]));
    assert_eq!(res, Some(vec![0]));
    check_all(&g, vec![(0, vec![1]), (1, vec![0])]);

    let res = g.add_node(1, set_of(vec![2]));
    assert_eq!(res, None);
    check_all(&g, vec![(0, vec![1]), (1, vec![0])]);

    let res = g.add_node(2, set_of(vec![0, 1]));
    assert_eq!(res.map(sorted), Some(vec![0, 1]));
    check_all(&g, vec![(0, vec![1, 2]), (1, vec![0, 2]), (2, vec![0, 1])]);

    g.set_node(2, set_of(vec![1]));
    check_all(&g, vec![(0, vec![1]), (1, vec![0, 2]), (2, vec![1])]);

    let res = g.remove_node(&2);
    assert_eq!(res.map(sorted_set), Some(vec![1]));
    check_all(&g, vec![(0, vec![1]), (1, vec![0])]);
}

#[test]
fn get_edges_tells_an_empty_node_from_an_absent_one() {
    let mut g = UndirectedGraph::new(4);
    g.add_empty_node(5);
    assert_eq!(g.get_edges(&5), Some(&HashSet::new()));
    assert_eq!(g.get_edges(&6), None);
}

#[test]
fn add_empty_node_twice_is_true_then_false() {
    let mut g = UndirectedGraph::new(2);
    g.add_edge(1, 2);
    assert!(g.add_empty_node(9));
    check_all(&g, vec![(1, vec![2]), (2, vec![1]), (9, vec![])]);
    assert!(!g.add_empty_node(9));
    check_all(&g, vec![(1, vec![2]), (2, vec![1]), (9, vec![])]);
}

#[test]
fn add_empty_node_leaves_a_registered_node_as_it_is() {
    let mut g = UndirectedGraph::new(2);
    g.add_edge(1, 2);
    assert!(!g.add_empty_node(1));
    check_all(&g, vec![(1, vec![2]), (2, vec![1])]);
}

#[test]
fn add_node_registers_missing_neighbours() {
    let mut g = UndirectedGraph::new(0);
    let res = g.add_node(4, set_of(vec![7, 8]));
    assert_eq!(res.map(sorted), Some(vec![7, 8]));
    check_all(&g, vec![(4, vec![7, 8]), (7, vec![4]), (8, vec![4])]);
}

#[test]
fn add_node_with_no_edges_registers_only_the_node() {
    let mut g = UndirectedGraph::new(0);
    let res = g.add_node(4, HashSet::new());
    assert_eq!(res, Some(vec![]));
    check_all(&g, vec![(4, vec![])]);
}

#[test]
fn add_node_on_a_registered_node_changes_nothing() {
    let mut g = UndirectedGraph::new(3);
    g.add_node(1, set_of(vec![2, 3]));
    let res = g.add_node(2, set_of(vec![5]));
    assert_eq!(res, None);
    check_all(&g, vec![(1, vec![2, 3]), (2, vec![1]), (3, vec![1])]);
    assert_eq!(g.get_edges(&5), None);
}

#[test]
fn add_node_stores_more_neighbours_than_the_hint() {
    let mut g = UndirectedGraph::new(1);
    let res = g.add_node(0, set_of(vec![1, 2, 3]));
    assert_eq!(res.map(sorted), Some(vec![1, 2, 3]));
    check_all(&g, vec![(0, vec![1, 2, 3]), (1, vec![0]), (2, vec![0]), (3, vec![0])]);
}

#[test]
fn set_node_adds_and_removes_only_the_difference() {
    let mut g = UndirectedGraph::new(3);
    g.add_node(1, set_of(vec![2, 3]));
    g.add_edge(2, 3);
    // 2 stays, 3 is dropped, 4 is new and not yet registered.
    g.set_node(1, set_of(vec![2, 4]));
    check_all(&g, vec![(1, vec![2, 4]), (2, vec![1, 3]), (3, vec![2]), (4, vec![1])]);
}

#[test]
fn set_node_keeps_a_dropped_neighbour_registered() {
    let mut g = UndirectedGraph::new(3);
    g.add_node(1, set_of(vec![2]));
    g.set_node(1, HashSet::new());
    check_all(&g, vec![(1, vec![]), (2, vec![])]);
}

#[test]
fn set_node_on_an_absent_node_installs_it() {
    let mut g = UndirectedGraph::new(3);
    g.add_empty_node(1);
    g.set_node(2, set_of(vec![1, 3]));
    check_all(&g, vec![(1, vec![2]), (2, vec![1, 3]), (3, vec![2])]);
}

#[test]
fn set_node_twice_with_the_same_set_changes_nothing_more() {
    let mut g = UndirectedGraph::new(3);
    g.add_node(1, set_of(vec![2, 3]));
    g.set_node(1, set_of(vec![3, 4]));
    check_all(&g, vec![(1, vec![3, 4]), (2, vec![]), (3, vec![1]), (4, vec![1])]);
    g.set_node(1, set_of(vec![3, 4]));
    check_all(&g, vec![(1, vec![3, 4]), (2, vec![]), (3, vec![1]), (4, vec![1])]);
}

#[test]
fn set_node_does_not_filter_a_self_reference() {
    let mut g = UndirectedGraph::new(3);
    g.set_node(1, set_of(vec![1, 2]));
    check_all(&g, vec![(1, vec![1, 2]), (2, vec![1])]);
    g.set_node(1, set_of(vec![2]));
    check_all(&g, vec![(1, vec![2]), (2, vec![1])]);
}

#[test]
fn remove_node_orphans_the_node() {
    let mut g = UndirectedGraph::new(3);
    g.add_node(1, set_of(vec![2, 3]));
    g.add_edge(2, 3);
    let res = g.remove_node(&1);
    assert_eq!(res.map(sorted_set), Some(vec![2, 3]));
    assert_eq!(g.get_edges(&1), None);
    check_all(&g, vec![(2, vec![3]), (3, vec![2])]);
    assert_eq!(g.remove_node(&1), None);
    check_all(&g, vec![(2, vec![3]), (3, vec![2])]);
}

#[test]
fn remove_node_keeps_neighbours_that_become_isolated() {
    let mut g = UndirectedGraph::new(3);
    g.add_edge(1, 2);
    let res = g.remove_node(&1);
    assert_eq!(res.map(sorted_set), Some(vec![2]));
    check_all(&g, vec![(2, vec![])]);
}

#[test]
fn remove_node_of_an_isolated_node_returns_an_empty_set() {
    let mut g = UndirectedGraph::new(3);
    g.add_empty_node(1);
    assert_eq!(g.remove_node(&1), Some(HashSet::new()));
    assert_eq!(g.len(), 0);
}

#[test]
fn remove_node_on_an_absent_node_changes_nothing() {
    let mut g = UndirectedGraph::new(3);
    g.add_edge(1, 2);
    assert_eq!(g.remove_node(&3), None);
    check_all(&g, vec![(1, vec![2]), (2, vec![1])]);
}

#[test]
fn add_edge_registers_both_ends() {
    let mut g = UndirectedGraph::new(3);
    g.add_edge(1, 2);
    check_all(&g, vec![(1, vec![2]), (2, vec![1])]);
    g.add_edge(1, 2);
    check_all(&g, vec![(1, vec![2]), (2, vec![1])]);
    g.add_edge(3, 1);
    check_all(&g, vec![(1, vec![2, 3]), (2, vec![1]), (3, vec![1])]);
}

#[test]
fn add_edge_ignores_a_self_loop() {
    let mut g = UndirectedGraph::new(3);
    g.add_edge(4, 4);
    assert_eq!(g.len(), 0);
    g.add_edge(1, 2);
    g.add_edge(1, 1);
    check_all(&g, vec![(1, vec![2]), (2, vec![1])]);
}

#[test]
fn every_edge_is_recorded_at_both_ends_after_each_step() {
    let nodes: Vec<ElementId> = (0..8).collect();
    let mut g = UndirectedGraph::new(4);
    assert!(is_symmetric(&g, &nodes));
    g.add_empty_node(0);
    assert!(is_symmetric(&g, &nodes));
    g.add_node(1, set_of(vec![0, 5]));
    assert!(is_symmetric(&g, &nodes));
    g.add_node(2, set_of(vec![0, 1, 6]));
    assert!(is_symmetric(&g, &nodes));
    g.add_edge(5, 6);
    assert!(is_symmetric(&g, &nodes));
    g.set_node(2, set_of(vec![1, 7]));
    assert!(is_symmetric(&g, &nodes));
    g.set_node(3, set_of(vec![2, 3]));
    assert!(is_symmetric(&g, &nodes));
    g.remove_node(&1);
    assert!(is_symmetric(&g, &nodes));
    g.remove_node(&3);
    assert!(is_symmetric(&g, &nodes));
    check_all(
        &g,
        vec![
            (0, vec![]),
            (2, vec![7]),
            (5, vec![6]),
            (6, vec![5]),
            (7, vec![2]),
        ],
    );
}
