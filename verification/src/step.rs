//! The stepping engine: one synchronous generation over a lattice or a
//! graph. Every cell's next state is computed from the previous generation
//! alone; the input is only read and the result is a fresh array.

use vstd::prelude::*;
use crate::graph::GraphCA;
use crate::lattice::Lattice3D;
use crate::rule::{accepts, computes, conway_3d, conway_3d_rule, deterministic};

verus! {

/// A neighbour is live when its state is anything but `Void` (0).
pub open spec fn is_live(states: Seq<u8>) -> spec_fn(usize) -> bool {
    |n: usize| states[n as int] != 0
}

/// The number of live cells among `neighbors`, counting a cell once for
/// each time it is listed.
pub open spec fn live_count(states: Seq<u8>, neighbors: Seq<usize>) -> nat {
    neighbors.filter(is_live(states)).len()
}

/// Every state is `Void`.
pub open spec fn all_void(states: Seq<u8>) -> bool {
    forall|i: int| 0 <= i < states.len() ==> states[i] == 0
}

/// There are never more live neighbours than neighbours.
pub proof fn lemma_live_count_bound(states: Seq<u8>, neighbors: Seq<usize>)
    ensures
        live_count(states, neighbors) <= neighbors.len(),
{
    neighbors.lemma_filter_len(is_live(states));
}

/// Where every state is `Void`, no neighbour is live.
pub proof fn lemma_live_count_void(states: Seq<u8>, neighbors: Seq<usize>)
    requires
        all_void(states),
        forall|j: int| 0 <= j < neighbors.len() ==> neighbors[j] < states.len(),
    ensures
        live_count(states, neighbors) == 0,
    decreases neighbors.len(),
{
    reveal(Seq::filter);
    if neighbors.len() > 0 {
        lemma_live_count_void(states, neighbors.drop_last());
    }
}

/// Counts the live cells among `neighbors`.
pub fn count_live_neighbors(states: &[u8], neighbors: &[usize]) -> (count: usize)
    requires
        forall|j: int| 0 <= j < neighbors@.len() ==> neighbors@[j] < states@.len(),
    ensures
        count == live_count(states@, neighbors@),
        count <= neighbors@.len(),
{
    let mut count: usize = 0;
    proof {
        reveal(Seq::filter);
        assert(neighbors@.take(0) =~= Seq::<usize>::empty());
    }
    for j in 0..neighbors.len()
        invariant
            forall|j: int| 0 <= j < neighbors@.len() ==> neighbors@[j] < states@.len(),
            count == live_count(states@, neighbors@.take(j as int)),
            count <= j,
    {
        proof {
            assert(neighbors@.take(j + 1) =~= neighbors@.take(j as int).push(neighbors@[j as int]));
            neighbors@.take(j as int).lemma_filter_push(neighbors@[j as int], is_live(states@));
        }
        if states[neighbors[j]] != 0 {
            count = count + 1;
        }
    }
    proof {
        assert(neighbors@.take(neighbors@.len() as int) =~= neighbors@);
    }
    count
}

/// The number of live Moore neighbours of the cell at `(x, y, z)`.
pub open spec fn lattice_live_count(
    lattice: Lattice3D,
    states: Seq<u8>,
    x: int,
    y: int,
    z: int,
) -> nat {
    live_count(states, lattice.moore_neighbors_spec(x, y, z))
}

/// The entry of the cell at `(x, y, z)` in `next` is a state that `rule`
/// returns for the cell's state in `states` and its number of live
/// neighbours there.
pub open spec fn lattice_cell_stepped<F: Fn(u8, usize) -> u8>(
    lattice: Lattice3D,
    states: Seq<u8>,
    rule: F,
    next: Seq<u8>,
    x: int,
    y: int,
    z: int,
) -> bool {
    call_ensures(
        rule,
        (
            states[lattice.index_spec(x, y, z)],
            lattice_live_count(lattice, states, x, y, z) as usize,
        ),
        next[lattice.index_spec(x, y, z)],
    )
}

/// `next` is a generation that `rule` can produce from `states` on
/// `lattice`: it is as long as `states`; the entry of every cell is a state
/// that the rule returns for the cell's old state and its number of live
/// neighbours in `states`; and entries past the last cell are 0.
pub open spec fn is_lattice_step<F: Fn(u8, usize) -> u8>(
    lattice: Lattice3D,
    states: Seq<u8>,
    rule: F,
    next: Seq<u8>,
) -> bool {
    &&& next.len() == states.len()
    &&& forall|x: int, y: int, z: int|
        #![trigger lattice.index_spec(x, y, z)]
        lattice.in_bounds(x, y, z) ==> lattice_cell_stepped(lattice, states, rule, next, x, y, z)
    &&& forall|i: int| lattice.cell_count() <= i < next.len() ==> next[i] == 0
}

/// Every cell that comes before `(x, y, z)` in index order has its entry in
/// `next`.
spec fn stepped_before<F: Fn(u8, usize) -> u8>(
    lattice: Lattice3D,
    states: Seq<u8>,
    rule: F,
    next: Seq<u8>,
    x: int,
    y: int,
    z: int,
) -> bool {
    forall|cx: int, cy: int, cz: int|
        #![trigger lattice.index_spec(cx, cy, cz)]
        lattice.in_bounds(cx, cy, cz) && (cz < z || (cz == z && (cy < y || (cy == y && cx < x))))
            ==> lattice_cell_stepped(lattice, states, rule, next, cx, cy, cz)
}

/// The generation that follows `states` on `lattice` under the rule `f`.
pub open spec fn lattice_step(
    lattice: Lattice3D,
    states: Seq<u8>,
    f: spec_fn(u8, nat) -> u8,
) -> Seq<u8> {
    Seq::new(
        states.len(),
        |i: int|
            if i < lattice.cell_count() {
                let (x, y, z) = lattice.coords_spec(i);
                f(states[i], lattice_live_count(lattice, states, x, y, z))
            } else {
                0u8
            },
    )
}

/// What `n` steps under the rule `f` make of `states`.
pub open spec fn lattice_run(
    lattice: Lattice3D,
    states: Seq<u8>,
    f: spec_fn(u8, nat) -> u8,
    n: nat,
) -> Seq<u8>
    decreases n,
{
    if n == 0 {
        states
    } else {
        lattice_step(lattice, lattice_run(lattice, states, f, (n - 1) as nat), f)
    }
}

/// Steps the lattice once: the next state of every cell is `rule` applied
/// to the cell's current state and the number of its Moore neighbours that
/// are not `Void` in `states`. `states` holds one byte per cell, in index
/// order; bytes past the last cell are carried over as 0.
pub fn step_lattice_3d<F: Fn(u8, usize) -> u8>(
    lattice: &Lattice3D,
    states: &[u8],
    rule: F,
) -> (next: Vec<u8>)
    requires
        lattice.cell_count() <= states@.len(),
        accepts(rule, 26),
    ensures
        is_lattice_step(*lattice, states@, rule, next@),
{
    let mut next: Vec<u8> = vec![0u8; states.len()];
    for z in 0..lattice.depth
        invariant
            lattice.addressable(),
            lattice.cell_count() <= states@.len(),
            accepts(rule, 26),
            next@.len() == states@.len(),
            forall|i: int| lattice.cell_count() <= i < next@.len() ==> next@[i] == 0,
            stepped_before(*lattice, states@, rule, next@, 0, 0, z as int),
    {
        for y in 0..lattice.height
            invariant
                z < lattice.depth,
                lattice.addressable(),
                lattice.cell_count() <= states@.len(),
                accepts(rule, 26),
                next@.len() == states@.len(),
                forall|i: int| lattice.cell_count() <= i < next@.len() ==> next@[i] == 0,
                stepped_before(*lattice, states@, rule, next@, 0, y as int, z as int),
        {
            for x in 0..lattice.width
                invariant
                    z < lattice.depth,
                    y < lattice.height,
                    lattice.addressable(),
                    lattice.cell_count() <= states@.len(),
                    accepts(rule, 26),
                    next@.len() == states@.len(),
                    forall|i: int| lattice.cell_count() <= i < next@.len() ==> next@[i] == 0,
                    stepped_before(*lattice, states@, rule, next@, x as int, y as int, z as int),
            {
                let idx = lattice.index(x, y, z);
                let neighbors = lattice.moore_neighbors(x, y, z);
                proof {
                    lattice.lemma_moore_neighbors_sound(x as int, y as int, z as int);
                }
                let count = count_live_neighbors(states, neighbors.as_slice());
                let value = rule(states[idx], count);
                let ghost before = next@;
                next.set(idx, value);
                proof {
                    assert forall|cx: int, cy: int, cz: int|
                        #![trigger lattice.index_spec(cx, cy, cz)]
                        lattice.in_bounds(cx, cy, cz) && (cz < z || (cz == z && (cy < y || (cy
                            == y && cx < x + 1)))) implies lattice_cell_stepped(
                        *lattice,
                        states@,
                        rule,
                        next@,
                        cx,
                        cy,
                        cz,
                    ) by {
                        if !(cx == x && cy == y && cz == z) {
                            lattice.lemma_index_in_range(cx, cy, cz);
                            if lattice.index_spec(cx, cy, cz) == idx {
                                lattice.lemma_index_injective(
                                    cx,
                                    cy,
                                    cz,
                                    x as int,
                                    y as int,
                                    z as int,
                                );
                            }
                            assert(lattice_cell_stepped(
                                *lattice,
                                states@,
                                rule,
                                before,
                                cx,
                                cy,
                                cz,
                            ));
                        }
                    }
                }
            }
        }
    }
    next
}

/// The number of live cells among the nodes that the edges leaving `node`
/// lead to. Incoming edges do not count, and a node reached by two edges
/// counts twice.
pub open spec fn graph_live_count(graph: GraphCA, node: usize) -> nat {
    live_count(graph.states@, graph.neighbors_spec(node))
}

/// `next` is a generation that `rule` can produce from the states held in
/// `graph`: it has one entry per node, and the entry of every node is a state
/// that the rule returns for the node's state and its number of live
/// neighbours.
pub open spec fn is_graph_step<F: Fn(u8, usize) -> u8>(
    graph: GraphCA,
    rule: F,
    next: Seq<u8>,
) -> bool {
    &&& next.len() == graph.num_nodes()
    &&& forall|node: usize|
        node < graph.num_nodes() ==> call_ensures(
            rule,
            (graph.states@[node as int], graph_live_count(graph, node) as usize),
            #[trigger] next[node as int],
        )
}

/// `rule` may be called, for every node of the graph, with any state code
/// and any neighbour count up to the number of edges that leave the node.
pub open spec fn accepts_degrees<F: Fn(u8, usize) -> u8>(graph: GraphCA, rule: F) -> bool {
    forall|node: usize|
        node < graph.num_nodes() ==> accepts(rule, #[trigger] graph.neighbors_spec(node).len())
}

/// The generation that follows the states held in `graph` under the rule
/// `f`.
pub open spec fn graph_step(graph: GraphCA, f: spec_fn(u8, nat) -> u8) -> Seq<u8> {
    Seq::new(
        graph.num_nodes(),
        |i: int| f(graph.states@[i], graph_live_count(graph, i as usize)),
    )
}

/// Steps the graph once: the next state of every node is `rule` applied to
/// the node's current state and the number of its outgoing neighbours that
/// are not `Void`. The graph, its states included, is left as it is.
pub fn step_graph<F: Fn(u8, usize) -> u8>(graph: &GraphCA, rule: F) -> (next: Vec<u8>)
    requires
        graph.edges_in_range(),
        accepts_degrees(*graph, rule),
    ensures
        is_graph_step(*graph, rule, next@),
{
    let mut next: Vec<u8> = vec![0u8; graph.states.len()];
    for node in 0..graph.states.len()
        invariant
            graph.edges_in_range(),
            accepts_degrees(*graph, rule),
            next@.len() == graph.num_nodes(),
            forall|done: usize|
                done < node ==> call_ensures(
                    rule,
                    (graph.states@[done as int], graph_live_count(*graph, done) as usize),
                    #[trigger] next@[done as int],
                ),
    {
        let neighbors = graph.get_neighbors(node);
        assert forall|j: int| 0 <= j < neighbors@.len() implies neighbors@[j]
            < graph.states@.len() by {
            assert(graph.neighbors_spec(node)[j] < graph.num_nodes());
        }
        let count = count_live_neighbors(graph.states.as_slice(), neighbors);
        assert(accepts(rule, graph.neighbors_spec(node).len()));
        let value = rule(graph.states[node], count);
        next.set(node, value);
    }
    next
}

/// Under a rule that computes `f`, the only generation that can follow
/// `states` on the lattice is `lattice_step(lattice, states, f)`.
pub proof fn lemma_lattice_step_computes<F: Fn(u8, usize) -> u8>(
    lattice: Lattice3D,
    states: Seq<u8>,
    rule: F,
    f: spec_fn(u8, nat) -> u8,
    next: Seq<u8>,
)
    requires
        computes(rule, f),
        is_lattice_step(lattice, states, rule, next),
    ensures
        next == lattice_step(lattice, states, f),
{
    let expected = lattice_step(lattice, states, f);
    assert forall|i: int| 0 <= i < next.len() implies next[i] == expected[i] by {
        if i < lattice.cell_count() {
            lattice.lemma_coords_of_index(i);
            let (x, y, z) = lattice.coords_spec(i);
            assert(lattice.index_spec(x, y, z) == i);
            assert(lattice_cell_stepped(lattice, states, rule, next, x, y, z));
            lattice.lemma_moore_neighbors_len(x, y, z);
            lemma_live_count_bound(states, lattice.moore_neighbors_spec(x, y, z));
        }
    }
    assert(next =~= expected);
}

/// Determinism of a lattice step: with a rule that cannot return two
/// different states on the same input, the same lattice and the same states
/// always give the same next generation.
pub proof fn lemma_lattice_step_deterministic<F: Fn(u8, usize) -> u8>(
    lattice: Lattice3D,
    states: Seq<u8>,
    rule: F,
    first: Seq<u8>,
    second: Seq<u8>,
)
    requires
        deterministic(rule),
        is_lattice_step(lattice, states, rule, first),
        is_lattice_step(lattice, states, rule, second),
    ensures
        first == second,
{
    assert forall|i: int| 0 <= i < first.len() implies first[i] == second[i] by {
        if i < lattice.cell_count() {
            lattice.lemma_coords_of_index(i);
            let (x, y, z) = lattice.coords_spec(i);
            assert(lattice.index_spec(x, y, z) == i);
            assert(lattice_cell_stepped(lattice, states, rule, first, x, y, z));
            assert(lattice_cell_stepped(lattice, states, rule, second, x, y, z));
        }
    }
    assert(first =~= second);
}

/// One step of the reference rule leaves a lattice that is all `Void` all
/// `Void`: without a live neighbour nothing is born.
pub proof fn lemma_conway_step_keeps_void(lattice: Lattice3D, states: Seq<u8>)
    requires
        lattice.cell_count() <= states.len() <= usize::MAX,
        all_void(states),
    ensures
        lattice_step(lattice, states, |c: u8, n: nat| conway_3d(c, n)) == states,
{
    let f = |c: u8, n: nat| conway_3d(c, n);
    let next = lattice_step(lattice, states, f);
    assert forall|i: int| 0 <= i < states.len() implies next[i] == states[i] by {
        if i < lattice.cell_count() {
            lattice.lemma_coords_of_index(i);
            let (x, y, z) = lattice.coords_spec(i);
            lattice.lemma_moore_neighbors_sound(x, y, z);
            lemma_live_count_void(states, lattice.moore_neighbors_spec(x, y, z));
        }
    }
    assert(next =~= states);
}

/// Conservation of the void: under the reference rule a lattice that is all
/// `Void` is all `Void` after any number of steps.
pub proof fn lemma_conway_run_keeps_void(lattice: Lattice3D, states: Seq<u8>, n: nat)
    requires
        lattice.cell_count() <= states.len() <= usize::MAX,
        all_void(states),
    ensures
        lattice_run(lattice, states, |c: u8, n: nat| conway_3d(c, n), n) == states,
    decreases n,
{
    if n > 0 {
        lemma_conway_run_keeps_void(lattice, states, (n - 1) as nat);
        lemma_conway_step_keeps_void(lattice, states);
    }
}

/// What `step_lattice_3d` returns for the reference rule is
/// `lattice_step` of `conway_3d`; on a lattice that is all `Void` it is all
/// `Void` again.
pub proof fn lemma_conway_lattice_step(lattice: Lattice3D, states: Seq<u8>, next: Seq<u8>)
    requires
        is_lattice_step(lattice, states, conway_3d_rule, next),
    ensures
        next == lattice_step(lattice, states, |c: u8, n: nat| conway_3d(c, n)),
        lattice.cell_count() <= states.len() <= usize::MAX && all_void(states) ==> all_void(next),
{
    let f = |c: u8, n: nat| conway_3d(c, n);
    lemma_lattice_step_computes(lattice, states, conway_3d_rule, f, next);
    if lattice.cell_count() <= states.len() <= usize::MAX && all_void(states) {
        lemma_conway_step_keeps_void(lattice, states);
    }
}

/// Under a rule that computes `f`, the only generation that can follow the
/// states held in `graph` is `graph_step(graph, f)`.
pub proof fn lemma_graph_step_computes<F: Fn(u8, usize) -> u8>(
    graph: GraphCA,
    rule: F,
    f: spec_fn(u8, nat) -> u8,
    next: Seq<u8>,
)
    requires
        computes(rule, f),
        is_graph_step(graph, rule, next),
    ensures
        next == graph_step(graph, f),
{
    let expected = graph_step(graph, f);
    assert forall|i: int| 0 <= i < next.len() implies next[i] == expected[i] by {
        assert(graph.states@.len() == graph.states.len());
        let node = i as usize;
        assert(call_ensures(
            rule,
            (graph.states@[node as int], graph_live_count(graph, node) as usize),
            next[node as int],
        ));
        lemma_live_count_bound(graph.states@, graph.neighbors_spec(node));
        graph.lemma_degree_bound(node);
    }
    assert(next =~= expected);
}

/// Determinism of a graph step: with a rule that cannot return two
/// different states on the same input, the same graph always gives the same
/// next generation.
pub proof fn lemma_graph_step_deterministic<F: Fn(u8, usize) -> u8>(
    graph: GraphCA,
    rule: F,
    first: Seq<u8>,
    second: Seq<u8>,
)
    requires
        deterministic(rule),
        is_graph_step(graph, rule, first),
        is_graph_step(graph, rule, second),
    ensures
        first == second,
{
    assert forall|i: int| 0 <= i < first.len() implies first[i] == second[i] by {
        assert(graph.states@.len() == graph.states.len());
        let node = i as usize;
        assert(call_ensures(
            rule,
            (graph.states@[node as int], graph_live_count(graph, node) as usize),
            first[node as int],
        ));
        assert(call_ensures(
            rule,
            (graph.states@[node as int], graph_live_count(graph, node) as usize),
            second[node as int],
        ));
    }
    assert(first =~= second);
}

/// What `step_graph` returns for the reference rule is `graph_step` of
/// `conway_3d`; on a graph that is all `Void` it is all `Void` again.
pub proof fn lemma_conway_graph_step(graph: GraphCA, next: Seq<u8>)
    requires
        is_graph_step(graph, conway_3d_rule, next),
    ensures
        next == graph_step(graph, |c: u8, n: nat| conway_3d(c, n)),
        graph.edges_in_range() && all_void(graph.states@) ==> all_void(next),
{
    let f = |c: u8, n: nat| conway_3d(c, n);
    lemma_graph_step_computes(graph, conway_3d_rule, f, next);
    if graph.edges_in_range() && all_void(graph.states@) {
        assert forall|i: int| 0 <= i < next.len() implies next[i] == 0 by {
            assert(graph.states@.len() == graph.states.len());
            let node = i as usize;
            let targets = graph.neighbors_spec(node);
            assert forall|j: int| 0 <= j < targets.len() implies targets[j]
                < graph.states@.len() by {
                assert(graph.neighbors_spec(node)[j] < graph.num_nodes());
            }
            lemma_live_count_void(graph.states@, targets);
        }
    }
}

} // verus!
