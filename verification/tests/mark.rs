use tictactoe::mark::Mark;

#[test]
fn other_swaps_the_marks() {
    assert_eq!(Mark::X.other(), Mark::O);
    assert_eq!(Mark::O.other(), Mark::X);
}

#[test]
fn other_twice_is_the_same_mark() {
    assert_eq!(Mark::X.other().other(), Mark::X);
    assert_eq!(Mark::O.other().other(), Mark::O);
}

#[test]
fn to_char_is_the_letter_of_the_mark() {
    assert_eq!(Mark::X.to_char(), 'X');
    assert_eq!(Mark::O.to_char(), 'O');
}

#[test]
fn to_value_is_plus_one_for_o_and_minus_one_for_x() {
    assert_eq!(Mark::O.to_value(), 1);
    assert_eq!(Mark::X.to_value(), -1);
}

#[test]
fn values_multiply_to_plus_one_for_equal_marks_only() {
    assert_eq!(Mark::X.to_value() * Mark::X.to_value(), 1);
    assert_eq!(Mark::O.to_value() * Mark::O.to_value(), 1);
    assert_eq!(Mark::X.to_value() * Mark::O.to_value(), -1);
    assert_eq!(Mark::O.to_value() * Mark::X.to_value(), -1);
}
