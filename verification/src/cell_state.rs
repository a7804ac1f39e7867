//! The closed set of cell states and its one-byte code.

use vstd::prelude::*;
use vstd::std_specs::convert::FromSpecImpl;

verus! {

/// What a cell holds. On the wire a state is the byte 0 to 4, in the order
/// of the variants.
#[derive(Debug, Clone, Copy, PartialEq, Eq, Hash, Structural)]
pub enum CellState {
    Void,
    Structure,
    Compute,
    Energy,
    Sensor,
}

impl CellState {
    /// The byte that stands for this state.
    pub open spec fn code(self) -> u8 {
        match self {
            CellState::Void => 0,
            CellState::Structure => 1,
            CellState::Compute => 2,
            CellState::Energy => 3,
            CellState::Sensor => 4,
        }
    }

    /// The state a byte stands for. Bytes above 4 are read as `Void`.
    pub open spec fn of_code(code: u8) -> CellState {
        if code == 1 {
            CellState::Structure
        } else if code == 2 {
            CellState::Compute
        } else if code == 3 {
            CellState::Energy
        } else if code == 4 {
            CellState::Sensor
        } else {
            CellState::Void
        }
    }

    /// Decoding undoes encoding: every state survives the trip through its
    /// byte.
    pub proof fn lemma_decode_encode(state: CellState)
        ensures
            CellState::of_code(state.code()) == state,
            state.code() <= 4,
    {
    }

    /// Encoding undoes decoding exactly on the five canonical bytes; every
    /// other byte collapses to `Void`, whose code is 0.
    pub proof fn lemma_encode_decode(code: u8)
        ensures
            code <= 4 ==> CellState::of_code(code).code() == code,
            code > 4 ==> CellState::of_code(code) == CellState::Void,
    {
    }
}

impl From<u8> for CellState {
    fn from(value: u8) -> (state: CellState) {
        match value {
            1 => CellState::Structure,
            2 => CellState::Compute,
            3 => CellState::Energy,
            4 => CellState::Sensor,
            _ => CellState::Void,
        }
    }
}

impl FromSpecImpl<u8> for CellState {
    open spec fn obeys_from_spec() -> bool {
        true
    }

    open spec fn from_spec(value: u8) -> CellState {
        CellState::of_code(value)
    }
}

impl From<CellState> for u8 {
    fn from(state: CellState) -> (code: u8) {
        match state {
            CellState::Void => 0,
            CellState::Structure => 1,
            CellState::Compute => 2,
            CellState::Energy => 3,
            CellState::Sensor => 4,
        }
    }
}

impl FromSpecImpl<CellState> for u8 {
    open spec fn obeys_from_spec() -> bool {
        true
    }

    open spec fn from_spec(state: CellState) -> u8 {
        state.code()
    }
}

} // verus!
