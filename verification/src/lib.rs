//! Cellular-automaton stepping kernel.
//!
//! One synchronous generation of an outer-totalistic rule is computed either
//! over a dense 3D lattice with Moore neighbourhoods or over a directed graph
//! given by adjacency lists. Cell states travel as flat byte arrays.

pub mod cell_state;
pub mod graph;
pub mod lattice;
pub mod moore;
pub mod rule;
pub mod step;

pub use cell_state::CellState;
pub use graph::GraphCA;
pub use lattice::Lattice3D;
pub use rule::{conway_3d_rule, OuterTotalisticRule};
pub use step::{step_graph, step_lattice_3d};
