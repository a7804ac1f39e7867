//! A directed graph of cells given by adjacency lists, with the current
//! state of every node.

use vstd::prelude::*;
use std::collections::HashMap;

verus! {

broadcast use vstd::std_specs::hash::group_hash_axioms;

/// Nodes are numbered from 0. `states` holds one byte per node and so fixes
/// the number of nodes. `adjacency` maps a node to the nodes its outgoing
/// edges lead to, in the order in which the edges were added; duplicates and
/// self-loops are kept, and a node without an entry has no outgoing edge.
pub struct GraphCA {
    pub adjacency: HashMap<usize, Vec<usize>>,
    pub states: Vec<u8>,
}

impl GraphCA {
    /// The number of nodes.
    pub open spec fn num_nodes(&self) -> nat {
        self.states@.len()
    }

    /// The targets of the edges that leave `node`, in insertion order.
    pub open spec fn neighbors_spec(&self, node: usize) -> Seq<usize> {
        if self.adjacency@.contains_key(node) {
            self.adjacency@[node]@
        } else {
            Seq::empty()
        }
    }

    /// Every edge that leaves a node of the graph leads to a node of the
    /// graph.
    pub open spec fn edges_in_range(&self) -> bool {
        forall|node: usize, j: int|
            node < self.num_nodes() && 0 <= j < self.neighbors_spec(node).len() ==> (
            #[trigger] self.neighbors_spec(node)[j]) < self.num_nodes()
    }

    /// An adjacency list is held in memory, so its length fits a `usize`.
    pub proof fn lemma_degree_bound(&self, node: usize)
        ensures
            self.neighbors_spec(node).len() <= usize::MAX,
    {
        if self.adjacency@.contains_key(node) {
            let targets = self.adjacency@[node];
            assert(targets@.len() == targets.len());
        }
    }

    /// A graph of `num_nodes` nodes, all `Void`, without edges.
    pub fn new(num_nodes: usize) -> (graph: Self)
        ensures
            graph.states@ == Seq::new(num_nodes as nat, |i: int| 0u8),
            graph.adjacency@ == Map::<usize, Vec<usize>>::empty(),
            graph.edges_in_range(),
    {
        let graph = Self { adjacency: HashMap::new(), states: vec![0u8; num_nodes] };
        assert(graph.states@ =~= Seq::new(num_nodes as nat, |i: int| 0u8));
        graph
    }

    /// Adds the directed edge `from -> to` after the edges that already
    /// leave `from`. No reverse edge is added and neither end is checked
    /// against the number of nodes.
    pub fn add_edge(&mut self, from: usize, to: usize)
        ensures
            final(self).states == old(self).states,
            final(self).neighbors_spec(from) == old(self).neighbors_spec(from).push(to),
            forall|node: usize|
                node != from ==> #[trigger] final(self).neighbors_spec(node)
                    == old(self).neighbors_spec(node),
            final(self).adjacency@.dom() == old(self).adjacency@.dom().insert(from),
            old(self).edges_in_range() && to < old(self).num_nodes()
                ==> final(self).edges_in_range(),
    {
        let mut targets = match self.adjacency.remove(&from) {
            Some(targets) => targets,
            None => Vec::new(),
        };
        targets.push(to);
        self.adjacency.insert(from, targets);
        proof {
            assert(self.adjacency@.dom() =~= old(self).adjacency@.dom().insert(from));
            assert(self.neighbors_spec(from) == old(self).neighbors_spec(from).push(to));
            if old(self).edges_in_range() && to < old(self).num_nodes() {
                assert forall|node: usize, j: int|
                    node < self.num_nodes() && 0 <= j < self.neighbors_spec(
                        node,
                    ).len() implies (#[trigger] self.neighbors_spec(node)[j])
                    < self.num_nodes() by {
                    if node == from {
                        if j < old(self).neighbors_spec(from).len() {
                            assert(self.neighbors_spec(node)[j] == old(self).neighbors_spec(
                                node,
                            )[j]);
                        }
                    } else {
                        assert(self.neighbors_spec(node) == old(self).neighbors_spec(node));
                        assert(self.neighbors_spec(node)[j] == old(self).neighbors_spec(node)[j]);
                    }
                }
            }
        }
    }

    /// Whether every edge that leaves a node of the graph leads to a node of
    /// the graph, which is what stepping the graph asks for.
    pub fn has_valid_edges(&self) -> (valid: bool)
        ensures
            valid == self.edges_in_range(),
    {
        let n = self.states.len();
        for node in 0..n
            invariant
                n == self.num_nodes(),
                forall|from: usize, j: int|
                    from < node && 0 <= j < self.neighbors_spec(from).len() ==> (
                    #[trigger] self.neighbors_spec(from)[j]) < n,
        {
            let neighbors = self.get_neighbors(node);
            for j in 0..neighbors.len()
                invariant
                    node < n,
                    n == self.num_nodes(),
                    neighbors@ == self.neighbors_spec(node),
                    forall|i: int| 0 <= i < j ==> neighbors@[i] < n,
            {
                if neighbors[j] >= n {
                    assert(self.neighbors_spec(node)[j as int] >= self.num_nodes());
                    return false;
                }
            }
        }
        true
    }

    /// The targets of the edges that leave `node`; empty for a node that has
    /// none.
    pub fn get_neighbors(&self, node: usize) -> (neighbors: &[usize])
        ensures
            neighbors@ == self.neighbors_spec(node),
    {
        match self.adjacency.get(&node) {
            Some(targets) => targets.as_slice(),
            None => &[],
        }
    }
}

} // verus!
