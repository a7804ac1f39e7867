//! Outer-totalistic rules: the next state of a cell as a function of its
//! current state and its number of live neighbours.

use vstd::prelude::*;

verus! {

/// A rule given as a plain function. The stepping functions take any
/// `Fn(u8, usize) -> u8`, of which this is one.
pub type OuterTotalisticRule = fn(u8, usize) -> u8;

/// The reference rule, a 3D adaptation of Conway's Game of Life: a cell
/// that is `Void` (0) or `Structure` (1) is `Structure` in the next
/// generation when it has 4 to 7 live neighbours; in every other case the
/// cell is `Void`.
pub open spec fn conway_3d(current: u8, neighbor_count: nat) -> u8 {
    if (current == 0 || current == 1) && 4 <= neighbor_count <= 7 {
        1
    } else {
        0
    }
}

/// Whatever `rule` returns on `(current, count)` is `f(current, count)`.
pub open spec fn computes<F: Fn(u8, usize) -> u8>(rule: F, f: spec_fn(u8, nat) -> u8) -> bool {
    forall|current: u8, count: usize, next: u8| #[trigger]
        call_ensures(rule, (current, count), next) ==> next == f(current, count as nat)
}

/// `rule` cannot return two different states on the same input.
pub open spec fn deterministic<F: Fn(u8, usize) -> u8>(rule: F) -> bool {
    forall|current: u8, count: usize, first: u8, second: u8|
        (#[trigger] call_ensures(rule, (current, count), first)) && (#[trigger] call_ensures(
            rule,
            (current, count),
            second,
        )) ==> first == second
}

/// `rule` may be called with any state code and any neighbour count up to
/// `most`.
pub open spec fn accepts<F: Fn(u8, usize) -> u8>(rule: F, most: nat) -> bool {
    forall|current: u8, count: usize|
        count <= most ==> #[trigger] call_requires(rule, (current, count))
}

/// A rule whose result is a function of its input is deterministic.
pub proof fn lemma_computes_deterministic<F: Fn(u8, usize) -> u8>(
    rule: F,
    f: spec_fn(u8, nat) -> u8,
)
    requires
        computes(rule, f),
    ensures
        deterministic(rule),
{
}

/// The reference rule as an executable function.
pub fn conway_3d_rule(current: u8, neighbor_count: usize) -> (next: u8)
    ensures
        next == conway_3d(current, neighbor_count as nat),
{
    if (current == 0 || current == 1) && 4 <= neighbor_count && neighbor_count <= 7 {
        1
    } else {
        0
    }
}

/// The executable reference rule accepts every input and computes
/// `conway_3d`.
pub proof fn lemma_conway_3d_rule()
    ensures
        forall|most: nat| accepts(conway_3d_rule, most),
        computes(conway_3d_rule, |current: u8, count: nat| conway_3d(current, count)),
        deterministic(conway_3d_rule),
{
}

} // verus!
