use pocker::common::_move_within;

#[test]
fn test_shift_to_left() {
    let mut numbers = [0, 1, 2, 3, 4, 5, 6];
    _move_within(&mut numbers, 2, 6, 0);
    assert_eq!(numbers, [2, 3, 4, 5, 0, 1, 6]);
}

#[test]
fn test_shift_to_right() {
    let mut numbers = [0, 1, 2, 3, 4, 5, 6];
    _move_within(&mut numbers, 1, 5, 2);
    assert_eq!(numbers, [0, 5, 1, 2, 3, 4, 6]);
}

#[test]
fn displaced_elements_are_rotated() {
    // Three elements pass a gap of two: what made way comes out rotated by one.
    let mut numbers = [0, 1, 2, 3, 4, 5];
    _move_within(&mut numbers, 2, 5, 0);
    assert_eq!(numbers, [2, 3, 4, 1, 0, 5]);

    let mut numbers = [0, 1, 2, 3, 4, 5];
    _move_within(&mut numbers, 0, 3, 2);
    assert_eq!(numbers, [4, 3, 0, 1, 2, 5]);
}

#[test]
fn empty_range_and_same_place_change_nothing() {
    let mut numbers = [0, 1, 2];
    _move_within(&mut numbers, 2, 2, 0);
    _move_within(&mut numbers, 3, 3, 9);
    _move_within(&mut numbers, 1, 3, 1);
    assert_eq!(numbers, [0, 1, 2]);
}
