use uft_ca::CellState;

#[test]
fn test_cell_state_conversion() {
    assert_eq!(CellState::from(0), CellState::Void);
    assert_eq!(CellState::from(1), CellState::Structure);
    assert_eq!(u8::from(CellState::Compute), 2);
}

#[test]
fn every_state_survives_its_code() {
    let all = [
        CellState::Void,
        CellState::Structure,
        CellState::Compute,
        CellState::Energy,
        CellState::Sensor,
    ];
    for (code, state) in all.iter().enumerate() {
        assert_eq!(u8::from(*state), code as u8);
        assert_eq!(CellState::from(u8::from(*state)), *state);
    }
}

#[test]
fn canonical_codes_decode_in_order() {
    assert_eq!(CellState::from(2), CellState::Compute);
    assert_eq!(CellState::from(3), CellState::Energy);
    assert_eq!(CellState::from(4), CellState::Sensor);
    for code in 0u8..=4 {
        assert_eq!(u8::from(CellState::from(code)), code);
    }
}

#[test]
fn unknown_codes_decode_to_void() {
    assert_eq!(CellState::from(5), CellState::Void);
    assert_eq!(CellState::from(255), CellState::Void);
    for code in 5u8..=255 {
        assert_eq!(CellState::from(code), CellState::Void);
        assert_eq!(u8::from(CellState::from(code)), 0);
    }
}
