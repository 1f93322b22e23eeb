use stratego::game::Position;

fn at(x: u8, y: u8) -> Position {
    Position { x, y }
}

#[test]
fn steps_change_one_coordinate_by_one() {
    let p = at(4, 7);
    assert_eq!(p.up(), at(4, 6));
    assert_eq!(p.down(), at(4, 8));
    assert_eq!(p.left(), at(3, 7));
    assert_eq!(p.right(), at(5, 7));
}

#[test]
fn steps_off_the_board_leave_the_valid_positions() {
    assert_eq!(at(0, 0).up(), at(0, 255));
    assert_eq!(at(0, 0).left(), at(255, 0));
    assert_eq!(at(9, 9).down(), at(9, 10));
    assert_eq!(at(9, 9).right(), at(10, 9));
    assert!(!at(0, 0).up().is_valid_map_position());
    assert!(!at(0, 0).left().is_valid_map_position());
    assert!(!at(9, 9).down().is_valid_map_position());
    assert!(!at(9, 9).right().is_valid_map_position());
}

#[test]
fn steps_wrap_around_at_the_end_of_the_range() {
    assert_eq!(at(255, 255).right(), at(0, 255));
    assert_eq!(at(255, 255).down(), at(255, 0));
}

#[test]
fn neighbours_come_up_right_down_left() {
    assert_eq!(at(4, 7).neighbours(), [at(4, 6), at(5, 7), at(4, 8), at(3, 7)]);
}

#[test]
fn the_board_has_92_valid_positions() {
    let mut valid = 0;
    for x in 0..=255u8 {
        for y in 0..=255u8 {
            if at(x, y).is_valid_map_position() {
                assert!(x < 10 && y < 10);
                valid += 1;
            }
        }
    }
    assert_eq!(valid, 92);
}

#[test]
fn the_lakes_are_two_blocks_in_the_middle_rows() {
    for x in [2u8, 3, 6, 7] {
        for y in [4u8, 5] {
            assert!(!at(x, y).is_valid_map_position());
        }
    }
    for x in [0u8, 1, 4, 5, 8, 9] {
        for y in [4u8, 5] {
            assert!(at(x, y).is_valid_map_position());
        }
    }
    for x in 0..10u8 {
        assert!(at(x, 3).is_valid_map_position());
        assert!(at(x, 6).is_valid_map_position());
    }
    assert!(!at(10, 0).is_valid_map_position());
    assert!(!at(0, 10).is_valid_map_position());
}

#[test]
fn reversed_is_a_half_turn() {
    assert_eq!(at(0, 0).reversed(), at(9, 9));
    assert_eq!(at(9, 9).reversed(), at(0, 0));
    assert_eq!(at(2, 7).reversed(), at(7, 2));
}

#[test]
fn reversed_twice_is_the_same_position() {
    for x in 0..10u8 {
        for y in 0..10u8 {
            let p = at(x, y);
            assert_eq!(p.reversed().reversed(), p);
            assert_eq!(p.reversed().is_valid_map_position(), p.is_valid_map_position());
            assert_eq!(p.reversed().to_bit_index(), 99 - p.to_bit_index());
        }
    }
}

#[test]
fn bit_index_counts_row_by_row() {
    assert_eq!(at(0, 0).to_bit_index(), 0);
    assert_eq!(at(9, 0).to_bit_index(), 9);
    assert_eq!(at(0, 1).to_bit_index(), 10);
    assert_eq!(at(3, 4).to_bit_index(), 43);
    assert_eq!(at(9, 9).to_bit_index(), 99);
    assert_eq!(at(255, 255).to_bit_index(), 2805);
}

#[test]
fn manhattan_distance_adds_both_differences() {
    assert_eq!(at(1, 2).manhattan_distance(&at(1, 2)), 0);
    assert_eq!(at(1, 2).manhattan_distance(&at(4, 0)), 5);
    assert_eq!(at(4, 0).manhattan_distance(&at(1, 2)), 5);
    assert_eq!(at(0, 0).manhattan_distance(&at(9, 9)), 18);
    assert_eq!(at(0, 0).manhattan_distance(&at(255, 0)), 255);
}
