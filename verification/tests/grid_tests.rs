use pixel_cascade::grid::round;

#[test]
fn test_round_snaps_up_to_next_grid_line() {
    assert_eq!(round(15), 20);
    assert_eq!(round(1), 10);
    assert_eq!(round(9), 10);
}

#[test]
fn test_round_on_a_grid_line_adds_a_full_cell() {
    assert_eq!(round(0), 10);
    assert_eq!(round(20), 30);
    assert_eq!(round(700), 710);
}
