use game_of_life::Cell;

#[test]
fn cell_from_byte_maps_even_to_alive() {
    // The asymmetric direction of the random mapping: an even byte is Alive.
    assert_eq!(Cell::from_byte(0), Cell::Alive);
    assert_eq!(Cell::from_byte(2), Cell::Alive);
    assert_eq!(Cell::from_byte(254), Cell::Alive);
    assert_eq!(Cell::from_byte(1), Cell::Dead);
    assert_eq!(Cell::from_byte(3), Cell::Dead);
    assert_eq!(Cell::from_byte(255), Cell::Dead);
}

#[test]
fn cell_as_count_projects_to_zero_or_one() {
    assert_eq!(Cell::Alive.as_count(), 1);
    assert_eq!(Cell::Dead.as_count(), 0);
}
