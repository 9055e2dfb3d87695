//! What holds of the operations on the model, whatever the graph.

use crate::model::{
    applied, neighbours, reached, replaced, symmetric, with_edge, with_empty_node, with_node,
    without_node, Adjacency, ElementId, Operation,
};
use vstd::prelude::*;

verus! {

/// Registering an empty node keeps every edge recorded at both ends.
pub proof fn lemma_with_empty_node_symmetric(g: Adjacency, n: ElementId)
    requires
        symmetric(g),
    ensures
        symmetric(with_empty_node(g, n)),
{
}

/// Installing a node that was not registered keeps every edge recorded at both ends.
pub proof fn lemma_with_node_symmetric(g: Adjacency, n: ElementId, edges: Set<ElementId>)
    requires
        symmetric(g),
        !g.contains_key(n),
    ensures
        symmetric(with_node(g, n, edges)),
{
}

/// Replacing a node's neighbour set keeps every edge recorded at both ends.
pub proof fn lemma_replaced_symmetric(g: Adjacency, n: ElementId, edges: Set<ElementId>)
    requires
        symmetric(g),
    ensures
        symmetric(replaced(g, n, edges)),
{
}

/// Removing a node keeps every edge recorded at both ends.
pub proof fn lemma_without_node_symmetric(g: Adjacency, n: ElementId)
    requires
        symmetric(g),
    ensures
        symmetric(without_node(g, n)),
{
}

/// Adding an edge keeps every edge recorded at both ends.
pub proof fn lemma_with_edge_symmetric(g: Adjacency, a: ElementId, b: ElementId)
    requires
        symmetric(g),
    ensures
        symmetric(with_edge(g, a, b)),
{
}

/// Each operation keeps every edge recorded at both ends.
pub proof fn lemma_applied_symmetric(g: Adjacency, op: Operation)
    requires
        symmetric(g),
    ensures
        symmetric(applied(g, op)),
{
    match op {
        Operation::AddEmptyNode { node } => lemma_with_empty_node_symmetric(g, node),
        Operation::AddNode { node, edges } => {
            if !g.contains_key(node) {
                lemma_with_node_symmetric(g, node, edges);
            }
        },
        Operation::SetNode { node, edges } => lemma_replaced_symmetric(g, node, edges),
        Operation::RemoveNode { node } => lemma_without_node_symmetric(g, node),
        Operation::AddEdge { node1, node2 } => lemma_with_edge_symmetric(g, node1, node2),
    }
}

/// In every graph that a sequence of operations makes of the empty graph,
/// each edge is recorded at both of its ends.
pub proof fn lemma_reached_symmetric(ops: Seq<Operation>)
    ensures
        symmetric(reached(ops)),
    decreases ops.len(),
{
    if ops.len() > 0 {
        lemma_reached_symmetric(ops.drop_last());
        lemma_applied_symmetric(reached(ops.drop_last()), ops.last());
    }
}

/// Registering an absent node a second time finds it registered and
/// changes nothing more.
pub proof fn lemma_with_empty_node_twice(g: Adjacency, n: ElementId)
    requires
        !g.contains_key(n),
    ensures
        with_empty_node(g, n).contains_key(n),
        with_empty_node(with_empty_node(g, n), n) == with_empty_node(g, n),
{
}

/// Replacing a node's neighbour set by the set it already has changes nothing.
pub proof fn lemma_replaced_same_set(g: Adjacency, n: ElementId, edges: Set<ElementId>)
    requires
        g.contains_key(n),
        g[n] == edges,
    ensures
        replaced(g, n, edges) == g,
{
}

/// Replacing a node's neighbour set twice by the same set gives what the
/// first replacement gave: the second touches no other node.
pub proof fn lemma_replaced_twice(g: Adjacency, n: ElementId, edges: Set<ElementId>)
    ensures
        replaced(replaced(g, n, edges), n, edges) == replaced(g, n, edges),
{
    let once = replaced(g, n, edges);
    assert(once[n] =~= edges);
    lemma_replaced_same_set(once, n, edges);
}

/// What a replacement leaves at each node. The replaced node holds exactly
/// the new set; a node is registered afterwards if it was before, is the
/// replaced node, or is a new neighbour; a new neighbour gains the reverse
/// edge, a dropped one loses it, and every other node keeps its set.
pub proof fn lemma_replaced_contents(g: Adjacency, n: ElementId, edges: Set<ElementId>)
    ensures
        replaced(g, n, edges).contains_key(n),
        replaced(g, n, edges)[n] == edges,
        forall|k: ElementId| #[trigger]
            replaced(g, n, edges).contains_key(k) <==> g.contains_key(k) || k == n || (
            edges.contains(k) && !neighbours(g, n).contains(k)),
        forall|k: ElementId|
            k != n && #[trigger] replaced(g, n, edges).contains_key(k) ==> replaced(g, n, edges)[k]
                == if edges.contains(k) && !neighbours(g, n).contains(k) {
                neighbours(g, k).insert(n)
            } else if neighbours(g, n).contains(k) && !edges.contains(k) {
                g[k].remove(n)
            } else {
                g[k]
            },
{
}

/// On a graph whose edges are all recorded at both ends, a replacement
/// gives what a full reconciliation would: afterwards the registered nodes
/// are those of before, the node itself and its new neighbours, and another
/// node has the node as a neighbour exactly if it is in the new set.
pub proof fn lemma_replaced_reconciles(g: Adjacency, n: ElementId, edges: Set<ElementId>)
    requires
        symmetric(g),
    ensures
        replaced(g, n, edges).dom() == g.dom().insert(n).union(edges),
        forall|k: ElementId|
            k != n && #[trigger] replaced(g, n, edges).contains_key(k) ==> replaced(g, n, edges)[k]
                == if edges.contains(k) {
                neighbours(g, k).insert(n)
            } else {
                neighbours(g, k).remove(n)
            },
{
    let r = replaced(g, n, edges);
    assert forall|k: ElementId| k != n && #[trigger] r.contains_key(k) implies r[k] =~= if edges.contains(
        k,
    ) {
        neighbours(g, k).insert(n)
    } else {
        neighbours(g, k).remove(n)
    } by {}
}

/// After a node is removed from a graph whose edges are all recorded at
/// both ends, it is not registered, it is no node's neighbour, and removing
/// it again changes nothing.
pub proof fn lemma_without_node_orphans(g: Adjacency, n: ElementId)
    requires
        symmetric(g),
    ensures
        !without_node(g, n).contains_key(n),
        forall|k: ElementId| #[trigger]
            without_node(g, n).contains_key(k) ==> !without_node(g, n)[k].contains(n),
        without_node(without_node(g, n), n) == without_node(g, n),
{
}

/// Adding an edge from a node to itself changes nothing.
pub proof fn lemma_with_edge_to_itself(g: Adjacency, x: ElementId)
    ensures
        with_edge(g, x, x) == g,
{
}

/// An added edge between two different nodes is recorded at both ends, and
/// no other neighbour set changes.
pub proof fn lemma_with_edge_contents(g: Adjacency, a: ElementId, b: ElementId)
    requires
        a != b,
    ensures
        with_edge(g, a, b).dom() == g.dom().insert(a).insert(b),
        with_edge(g, a, b)[a] == neighbours(g, a).insert(b),
        with_edge(g, a, b)[b] == neighbours(g, b).insert(a),
        forall|k: ElementId|
            k != a && k != b && #[trigger] g.contains_key(k) ==> with_edge(g, a, b)[k] == g[k],
{
}

} // verus!
