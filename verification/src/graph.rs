//! The adjacency map and its operations.

use crate::lemmas::{
    lemma_replaced_symmetric, lemma_with_edge_symmetric, lemma_with_empty_node_symmetric,
    lemma_with_node_symmetric, lemma_without_node_orphans, lemma_without_node_symmetric,
};
use crate::model::{
    linked, linked_all, neighbours, replaced, symmetric, unlinked, unlinked_all, with_edge,
    with_empty_node, with_node, without_node, Adjacency, ElementId,
};
use std::collections::hash_map::Entry;
use std::collections::HashMap;
use std::collections::HashSet;
use vstd::prelude::*;
use vstd::std_specs::iter::IteratorSpec;

verus! {

/// An undirected graph: one owned map from each registered node to the set
/// of its neighbours.
pub struct UndirectedGraph {
    m_max: usize,
    nodes: HashMap<ElementId, HashSet<ElementId>>,
}

impl View for UndirectedGraph {
    type V = Adjacency;

    closed spec fn view(&self) -> Adjacency {
        Map::new(|k: ElementId| self.nodes@.contains_key(k), |k: ElementId| self.nodes@[k]@)
    }
}

impl UndirectedGraph {
    /// The capacity hint the graph was built with.
    pub closed spec fn capacity_hint(&self) -> usize {
        self.m_max
    }

    /// An empty graph. `m_max` is kept as the capacity with which the
    /// neighbour set of an empty node is allocated; it limits nothing.
    pub fn new(m_max: usize) -> (g: Self)
        ensures
            g@ == Map::<ElementId, Set<ElementId>>::empty(),
            symmetric(g@),
            g.capacity_hint() == m_max,
    {
        UndirectedGraph { m_max, nodes: HashMap::new() }
    }

    /// The capacity hint the graph was built with.
    pub fn m_max(&self) -> (m: usize)
        ensures
            m == self.capacity_hint(),
    {
        self.m_max
    }

    /// The number of registered nodes.
    pub fn len(&self) -> (n: usize)
        ensures
            self@.dom().finite(),
            n == self@.dom().len(),
    {
        assert(self@.dom() =~= self.nodes@.dom());
        self.nodes.len()
    }

    /// The neighbour set of `node`, or `None` when `node` is not registered.
    pub fn get_edges(&self, node: &ElementId) -> (res: Option<&HashSet<ElementId>>)
        ensures
            res is Some <==> self@.contains_key(*node),
            res matches Some(s) ==> s@ == self@[*node],
    {
        self.nodes.get(node)
    }

    /// Adds the edge between `node1` and `node2` at both ends, registering
    /// either node if needed. An edge from a node to itself is ignored.
    pub fn add_edge(&mut self, node1: ElementId, node2: ElementId)
        ensures
            final(self)@ == with_edge(old(self)@, node1, node2),
            node1 == node2 ==> final(self)@ == old(self)@,
            symmetric(old(self)@) ==> symmetric(final(self)@),
            final(self).capacity_hint() == old(self).capacity_hint(),
    {
        proof {
            if symmetric(self@) {
                lemma_with_edge_symmetric(self@, node1, node2);
            }
        }
        if node1 != node2 {
            self.link(node1, node2);
            self.link(node2, node1);
        }
    }

    /// Registers `node` with no neighbours unless it is registered already.
    /// Returns whether it was registered by this call.
    pub fn add_empty_node(&mut self, node: ElementId) -> (res: bool)
        ensures
            res == !old(self)@.contains_key(node),
            final(self)@ == with_empty_node(old(self)@, node),
            symmetric(old(self)@) ==> symmetric(final(self)@),
            final(self).capacity_hint() == old(self).capacity_hint(),
    {
        proof {
            if symmetric(self@) {
                lemma_with_empty_node_symmetric(self@, node);
            }
        }
        if self.nodes.contains_key(&node) {
            false
        } else {
            self.nodes.insert(node, HashSet::with_capacity(self.m_max));
            assert(self@ =~= old(self)@.insert(node, Set::empty()));
            true
        }
    }

    /// Installs `node` with the neighbour set `edges` and adds the reverse
    /// edge at each neighbour, registering it if needed. Returns the
    /// neighbours that were linked. When `node` is registered already,
    /// nothing changes and `None` is returned.
    pub fn add_node(&mut self, node: ElementId, edges: HashSet<ElementId>) -> (res: Option<
        Vec<ElementId>,
    >)
        ensures
            res is None <==> old(self)@.contains_key(node),
            res is None ==> final(self)@ == old(self)@,
            res matches Some(linked) ==> {
                &&& final(self)@ == with_node(old(self)@, node, edges@)
                &&& linked@.no_duplicates()
                &&& linked@.to_set() == edges@
            },
            symmetric(old(self)@) ==> symmetric(final(self)@),
            final(self).capacity_hint() == old(self).capacity_hint(),
    {
        proof {
            if symmetric(self@) && !self@.contains_key(node) {
                lemma_with_node_symmetric(self@, node, edges@);
            }
        }
        if self.nodes.contains_key(&node) {
            return None;
        }
        let linked = members(&edges);
        self.nodes.insert(node, edges);
        assert(self@ =~= old(self)@.insert(node, edges@));
        self.link_all(&linked, node);
        Some(linked)
    }

    /// Replaces the neighbour set of `node` by `edges`, registering `node`
    /// if needed. The reverse edge is added at each neighbour that is new
    /// and removed at each that was dropped; no other node is touched.
    pub fn set_node(&mut self, node: ElementId, edges: HashSet<ElementId>)
        ensures
            final(self)@ == replaced(old(self)@, node, edges@),
            symmetric(old(self)@) ==> symmetric(final(self)@),
            final(self).capacity_hint() == old(self).capacity_hint(),
    {
        proof {
            if symmetric(self@) {
                lemma_replaced_symmetric(self@, node, edges@);
            }
        }
        let (to_add, to_remove) = match self.nodes.get(&node) {
            Some(old_edges) => {
                let to_remove = members_outside(old_edges, &edges);
                let to_add = members_outside(&edges, old_edges);
                (to_add, to_remove)
            },
            None => (members(&edges), Vec::new()),
        };
        self.nodes.insert(node, edges);
        assert(self@ =~= old(self)@.insert(node, edges@));
        self.link_all(&to_add, node);
        self.unlink_all(&to_remove, node);
    }

    /// Drops `node` and takes it out of the neighbour set of each of its
    /// former neighbours, which stay registered. Returns the former
    /// neighbour set, or `None`, with nothing changed, when `node` is not
    /// registered.
    pub fn remove_node(&mut self, node: &ElementId) -> (res: Option<HashSet<ElementId>>)
        ensures
            res is Some <==> old(self)@.contains_key(*node),
            res matches Some(former) ==> former@ == old(self)@[*node],
            final(self)@ == without_node(old(self)@, *node),
            !final(self)@.contains_key(*node),
            symmetric(old(self)@) ==> symmetric(final(self)@) && forall|k: ElementId| #[trigger]
                final(self)@.contains_key(k) ==> !final(self)@[k].contains(*node),
            final(self).capacity_hint() == old(self).capacity_hint(),
    {
        proof {
            if symmetric(self@) {
                lemma_without_node_symmetric(self@, *node);
                lemma_without_node_orphans(self@, *node);
            }
        }
        match self.nodes.remove(node) {
            Some(edges) => {
                assert(self@ =~= old(self)@.remove(*node));
                self.unlink_members(&edges, *node);
                Some(edges)
            },
            None => None,
        }
    }

    /// Puts `to` among the neighbours of `from`, registering `from` first if needed.
    fn link(&mut self, from: ElementId, to: ElementId)
        ensures
            final(self)@ == linked(old(self)@, from, to),
            final(self).capacity_hint() == old(self).capacity_hint(),
    {
        let set = self.nodes.entry(from).or_insert(HashSet::new());
        set.insert(to);
    }

    /// Takes `to` out of the neighbours of `from`, if `from` is registered.
    fn unlink(&mut self, from: ElementId, to: ElementId)
        ensures
            final(self)@ == unlinked(old(self)@, from, to),
            final(self).capacity_hint() == old(self).capacity_hint(),
    {
        match self.nodes.entry(from) {
            Entry::Occupied(mut e) => {
                e.get_mut().remove(&to);
            },
            Entry::Vacant(_) => {},
        }
    }

    /// Puts `n` among the neighbours of every node listed in `targets`.
    fn link_all(&mut self, targets: &Vec<ElementId>, n: ElementId)
        ensures
            final(self)@ == linked_all(old(self)@, targets@.to_set(), n),
            final(self).capacity_hint() == old(self).capacity_hint(),
    {
        for i in 0..targets.len()
            invariant
                self@ == linked_all(old(self)@, targets@.take(i as int).to_set(), n),
                self.capacity_hint() == old(self).capacity_hint(),
        {
            let ghost done = targets@.take(i as int).to_set();
            self.link(targets[i], n);
            proof {
                assert(targets@.take(i + 1) == targets@.take(i as int).push(targets@[i as int]));
                targets@.take(i as int).lemma_push_to_set_commute(targets@[i as int]);
                assert(self@ =~~= linked_all(old(self)@, done.insert(targets@[i as int]), n));
            }
        }
        assert(targets@.take(targets@.len() as int) == targets@);
    }

    /// Takes `n` out of the neighbours of every registered node in `targets`.
    fn unlink_members(&mut self, targets: &HashSet<ElementId>, n: ElementId)
        ensures
            final(self)@ == unlinked_all(old(self)@, targets@, n),
            final(self).capacity_hint() == old(self).capacity_hint(),
    {
        let ghost order = targets.iter().remaining();
        let ghost mut seen: int = 0;
        for e in it: targets.iter()
            invariant
                it.seq() == order,
                it.index() == seen,
                0 <= seen <= order.len(),
                self@ == unlinked_all(old(self)@, order.take(seen).unref().to_set(), n),
                self.capacity_hint() == old(self).capacity_hint(),
        {
            let ghost done = order.take(seen).unref();
            self.unlink(*e, n);
            proof {
                assert(order.take(seen + 1).unref() == done.push(*e));
                done.lemma_push_to_set_commute(*e);
                seen = seen + 1;
            }
        }
        assert(order.take(order.len() as int) == order);
    }

    /// Takes `n` out of the neighbours of every registered node listed in `targets`.
    fn unlink_all(&mut self, targets: &Vec<ElementId>, n: ElementId)
        ensures
            final(self)@ == unlinked_all(old(self)@, targets@.to_set(), n),
            final(self).capacity_hint() == old(self).capacity_hint(),
    {
        for i in 0..targets.len()
            invariant
                self@ == unlinked_all(old(self)@, targets@.take(i as int).to_set(), n),
                self.capacity_hint() == old(self).capacity_hint(),
        {
            let ghost done = targets@.take(i as int).to_set();
            self.unlink(targets[i], n);
            proof {
                assert(targets@.take(i + 1) == targets@.take(i as int).push(targets@[i as int]));
                targets@.take(i as int).lemma_push_to_set_commute(targets@[i as int]);
                assert(self@ =~~= unlinked_all(old(self)@, done.insert(targets@[i as int]), n));
            }
        }
        assert(targets@.take(targets@.len() as int) == targets@);
    }
}

impl From<usize> for UndirectedGraph {
    /// An empty graph with the capacity hint `m_max`.
    fn from(m_max: usize) -> (g: Self)
        ensures
            g@ == Map::<ElementId, Set<ElementId>>::empty(),
            symmetric(g@),
            g.capacity_hint() == m_max,
    {
        UndirectedGraph::new(m_max)
    }
}

impl vstd::std_specs::convert::FromSpecImpl<usize> for UndirectedGraph {
    /// Two empty graphs agree in what they hold, not as values: the
    /// conversion is specified by the `ensures` of `from`, over the view.
    open spec fn obeys_from_spec() -> bool {
        false
    }

    open spec fn from_spec(m_max: usize) -> Self {
        choose|g: UndirectedGraph|
            g@ == Map::<ElementId, Set<ElementId>>::empty() && g.capacity_hint() == m_max
    }
}

/// The members of `a`, each once, in no particular order.
fn members(a: &HashSet<ElementId>) -> (v: Vec<ElementId>)
    ensures
        v@.no_duplicates(),
        v@.to_set() == a@,
{
    let none: HashSet<ElementId> = HashSet::new();
    members_outside(a, &none)
}

/// The members of `a` that are not in `b`, each once, in no particular order.
fn members_outside(a: &HashSet<ElementId>, b: &HashSet<ElementId>) -> (v: Vec<ElementId>)
    ensures
        v@.no_duplicates(),
        v@.to_set() == a@.difference(b@),
{
    let mut v: Vec<ElementId> = Vec::new();
    let ghost order = a.iter().remaining();
    let ghost mut seen: int = 0;
    for e in it: a.iter()
        invariant
            it.seq() == order,
            it.index() == seen,
            0 <= seen <= order.len(),
            order.no_duplicates(),
            v@.no_duplicates(),
            forall|x: ElementId| #[trigger]
                v@.contains(x) ==> !b@.contains(x) && exists|j: int|
                    0 <= j < seen && *order[j] == x,
            forall|j: int|
                0 <= j < seen && !b@.contains(*order[j]) ==> v@.contains(*#[trigger] order[j]),
    {
        if !b.contains(e) {
            proof {
                if v@.contains(*e) {
                    let j = choose|j: int| 0 <= j < seen && *order[j] == *e;
                    assert(order[j] == order[seen]);
                }
            }
            let ghost before = v@;
            v.push(*e);
            assert forall|x: ElementId| #[trigger] v@.contains(x) implies !b@.contains(x)
                && exists|j: int| 0 <= j < seen + 1 && *order[j] == x by {
                if before.contains(x) {
                    let j = choose|j: int| 0 <= j < seen && *order[j] == x;
                    assert(0 <= j < seen + 1 && *order[j] == x);
                } else {
                    assert(x == *order[seen]);
                }
            }
            assert forall|j: int| 0 <= j < seen + 1 && !b@.contains(*order[j]) implies v@.contains(
                *#[trigger] order[j],
            ) by {
                if j < seen {
                    let x = *order[j];
                    assert(before.contains(x));
                    let k = choose|k: int| 0 <= k < before.len() && before[k] == x;
                    assert(v@[k] == x);
                } else {
                    assert(v@[v@.len() - 1] == *e);
                }
            }
        }
        proof {
            seen = seen + 1;
        }
    }
    proof {
        assert(seen == order.len());
        assert(order.unref().to_set() == a@);
        assert forall|x: ElementId| a@.difference(b@).contains(x) implies v@.to_set().contains(
            x,
        ) by {
            assert(order.unref().to_set().contains(x));
            let j = choose|j: int| 0 <= j < order.unref().len() && order.unref()[j] == x;
            assert(*order[j] == x);
        }
        assert forall|x: ElementId| v@.to_set().contains(x) implies a@.difference(b@).contains(
            x,
        ) by {
            assert(v@.contains(x));
            let j = choose|j: int| 0 <= j < seen && *order[j] == x;
            assert(order.unref()[j] == x);
            assert(order.unref().contains(x));
        }
        assert(v@.to_set() =~= a@.difference(b@));
    }
    v
}

} // verus!
