//! The mathematical model of the graph: a map from each registered node to
//! the set of its neighbours, and the effect of every operation on that map.

use vstd::prelude::*;

verus! {

/// Handle of a node. The graph neither issues nor recycles these.
pub type ElementId = u64;

/// What a graph holds: each registered node with the set of its neighbours.
pub type Adjacency = Map<ElementId, Set<ElementId>>;

/// Every edge is recorded at both endpoints: if `b` is a neighbour of `a`,
/// then `b` is registered and `a` is a neighbour of `b`.
pub open spec fn symmetric(g: Adjacency) -> bool {
    forall|a: ElementId, b: ElementId|
        g.contains_key(a) && #[trigger] g[a].contains(b) ==> g.contains_key(b) && g[b].contains(a)
}

/// The neighbours of `n`, empty when `n` is not registered.
pub open spec fn neighbours(g: Adjacency, n: ElementId) -> Set<ElementId> {
    if g.contains_key(n) {
        g[n]
    } else {
        Set::empty()
    }
}

/// `g` with `to` among the neighbours of `from`; `from` is registered if it was not.
pub open spec fn linked(g: Adjacency, from: ElementId, to: ElementId) -> Adjacency {
    g.insert(from, neighbours(g, from).insert(to))
}

/// `g` with `to` no longer among the neighbours of `from`; nothing changes
/// when `from` is not registered.
pub open spec fn unlinked(g: Adjacency, from: ElementId, to: ElementId) -> Adjacency {
    if g.contains_key(from) {
        g.insert(from, g[from].remove(to))
    } else {
        g
    }
}

/// `g` with `n` among the neighbours of every node in `targets`, each of
/// which is registered if it was not.
pub open spec fn linked_all(g: Adjacency, targets: Set<ElementId>, n: ElementId) -> Adjacency {
    Map::new(
        |k: ElementId| g.contains_key(k) || targets.contains(k),
        |k: ElementId|
            if targets.contains(k) {
                neighbours(g, k).insert(n)
            } else {
                g[k]
            },
    )
}

/// `g` with `n` taken out of the neighbours of every registered node in
/// `targets`. No node is registered or dropped.
pub open spec fn unlinked_all(g: Adjacency, targets: Set<ElementId>, n: ElementId) -> Adjacency {
    Map::new(
        |k: ElementId| g.contains_key(k),
        |k: ElementId|
            if targets.contains(k) {
                g[k].remove(n)
            } else {
                g[k]
            },
    )
}

/// Registering `n` with no neighbours; nothing changes when `n` is already registered.
pub open spec fn with_empty_node(g: Adjacency, n: ElementId) -> Adjacency {
    if g.contains_key(n) {
        g
    } else {
        g.insert(n, Set::empty())
    }
}

/// Installing `n` with the neighbour set `edges` and the reverse edge at
/// every one of those neighbours.
pub open spec fn with_node(g: Adjacency, n: ElementId, edges: Set<ElementId>) -> Adjacency {
    linked_all(g.insert(n, edges), edges, n)
}

/// Replacing the neighbour set of `n` by `edges`: the reverse edge is added
/// at the neighbours that are new and removed at those that were dropped;
/// the neighbours that stay are not touched.
pub open spec fn replaced(g: Adjacency, n: ElementId, edges: Set<ElementId>) -> Adjacency {
    let before = neighbours(g, n);
    unlinked_all(
        linked_all(g.insert(n, edges), edges.difference(before), n),
        before.difference(edges),
        n,
    )
}

/// Dropping `n`, and taking it out of the neighbour set of each of its
/// former neighbours. Nothing changes when `n` is not registered.
pub open spec fn without_node(g: Adjacency, n: ElementId) -> Adjacency {
    if g.contains_key(n) {
        unlinked_all(g.remove(n), g[n], n)
    } else {
        g
    }
}

/// Adding the edge between `a` and `b` at both ends; an edge from a node to
/// itself is ignored.
pub open spec fn with_edge(g: Adjacency, a: ElementId, b: ElementId) -> Adjacency {
    if a == b {
        g
    } else {
        linked(linked(g, a, b), b, a)
    }
}

/// One call that changes a graph, with its arguments.
pub enum Operation {
    AddEmptyNode { node: ElementId },
    AddNode { node: ElementId, edges: Set<ElementId> },
    SetNode { node: ElementId, edges: Set<ElementId> },
    RemoveNode { node: ElementId },
    AddEdge { node1: ElementId, node2: ElementId },
}

/// The graph after `op` on `g`. Adding a node that is registered already
/// changes nothing.
pub open spec fn applied(g: Adjacency, op: Operation) -> Adjacency {
    match op {
        Operation::AddEmptyNode { node } => with_empty_node(g, node),
        Operation::AddNode { node, edges } => if g.contains_key(node) {
            g
        } else {
            with_node(g, node, edges)
        },
        Operation::SetNode { node, edges } => replaced(g, node, edges),
        Operation::RemoveNode { node } => without_node(g, node),
        Operation::AddEdge { node1, node2 } => with_edge(g, node1, node2),
    }
}

/// The graph that the operations `ops`, in order, make of the empty graph.
pub open spec fn reached(ops: Seq<Operation>) -> Adjacency
    decreases ops.len(),
{
    if ops.len() == 0 {
        Map::empty()
    } else {
        applied(reached(ops.drop_last()), ops.last())
    }
}

} // verus!
