use stratego::boardbitmap::BoardBitmap;
use stratego::game::side::bitmap_of;
use stratego::game::side::find_piece;
use stratego::game::validate_action;
use stratego::game::Action;
use stratego::game::ActionError;
use stratego::game::Battle;
use stratego::game::Piece;
use stratego::game::Position;
use stratego::game::Rank;
use stratego::game::State;
use stratego::game::Turn;

fn at(x: u8, y: u8) -> Position {
    Position { x, y }
}

fn action(from: (u8, u8), to: (u8, u8)) -> Action {
    Action { from: at(from.0, from.1), to: at(to.0, to.1) }
}

fn state(side0: &[(Rank, Position)], side1: &[(Rank, Position)]) -> State {
    State::new_with_placements(&[side0, side1])
}

fn pieces(state: &State, id: usize) -> Vec<Piece> {
    state.pieces[id].as_slice().to_vec()
}

/// The bitmap of each player has a cell set exactly when a piece of its
/// list stands on the cell, and no two pieces of a player share a cell.
fn assert_consistent(state: &State) {
    for id in 0..2 {
        let list = pieces(state, id);
        for cell in 0..100 {
            let on_cell = list.iter().filter(|p| p.pos.to_bit_index() == cell).count();
            assert!(on_cell <= 1);
            assert_eq!(state.bitmaps[id].get(cell), on_cell == 1);
        }
        assert!(state.bitmaps[id] == bitmap_of(&list));
    }
}

fn moved(player_id: usize, from: (u8, u8), to: (u8, u8)) -> Turn {
    Turn { player_id, action: action(from, to), battle: None }
}

fn fought(
    player_id: usize,
    from: (u8, u8),
    to: (u8, u8),
    ranks: [Rank; 2],
    has_died: [bool; 2],
) -> Turn {
    Turn { player_id, action: action(from, to), battle: Some(Battle { ranks, has_died }) }
}

#[test]
fn placements_become_pieces_and_bits() {
    let s = state(
        &[(Rank::Miner, at(0, 3)), (Rank::Flag, at(5, 0))],
        &[(Rank::Scout, at(0, 6))],
    );
    assert_eq!(s.current_player_id, 0);
    assert_eq!(s.turn_count, 0);
    assert_eq!(
        pieces(&s, 0),
        vec![
            Piece { pos: at(0, 3), rank: Rank::Miner, has_moved: false, is_revealed: false },
            Piece { pos: at(5, 0), rank: Rank::Flag, has_moved: false, is_revealed: false },
        ]
    );
    assert_eq!(
        pieces(&s, 1),
        vec![Piece { pos: at(0, 6), rank: Rank::Scout, has_moved: false, is_revealed: false }]
    );
    for cell in 0..100 {
        assert_eq!(s.bitmaps[0].get(cell), cell == 30 || cell == 5);
        assert_eq!(s.bitmaps[1].get(cell), cell == 60);
    }
    assert_consistent(&s);
}

#[test]
fn default_piece_is_an_unknown_piece_in_the_corner() {
    assert_eq!(
        Piece::default(),
        Piece { pos: at(0, 0), rank: Rank::Unknown, has_moved: false, is_revealed: false }
    );
}

#[test]
fn find_piece_gives_the_first_index() {
    let list = [
        Piece { pos: at(1, 1), rank: Rank::Spy, has_moved: false, is_revealed: false },
        Piece { pos: at(2, 2), rank: Rank::Scout, has_moved: false, is_revealed: false },
        Piece { pos: at(2, 2), rank: Rank::Miner, has_moved: false, is_revealed: false },
    ];
    assert_eq!(find_piece(&list, &at(1, 1)), Some(0));
    assert_eq!(find_piece(&list, &at(2, 2)), Some(1));
    assert_eq!(find_piece(&list, &at(3, 3)), None);
    assert_eq!(find_piece(&[], &at(0, 0)), None);
}

#[test]
fn a_plain_move_moves_the_piece_and_its_bit() {
    let mut s = state(&[(Rank::Miner, at(0, 3)), (Rank::Flag, at(5, 0))], &[(Rank::Scout, at(0, 6))]);
    let turn = moved(0, (0, 3), (0, 4));
    assert!(s.accepts_turn(&turn));
    s.update_with_turn(&turn);
    assert_eq!(s.current_player_id, 1);
    assert_eq!(s.turn_count, 1);
    assert_eq!(
        pieces(&s, 0),
        vec![
            Piece { pos: at(0, 4), rank: Rank::Miner, has_moved: true, is_revealed: false },
            Piece { pos: at(5, 0), rank: Rank::Flag, has_moved: false, is_revealed: false },
        ]
    );
    assert!(!s.bitmaps[0].get(30));
    assert!(s.bitmaps[0].get(40));
    assert_eq!(pieces(&s, 1).len(), 1);
    assert_consistent(&s);
}

#[test]
fn a_won_capture_removes_the_enemy() {
    let mut s = state(&[(Rank::Miner, at(0, 3))], &[(Rank::Scout, at(0, 4)), (Rank::Flag, at(9, 9))]);
    let turn = fought(0, (0, 3), (0, 4), [Rank::Miner, Rank::Scout], [false, true]);
    assert!(s.accepts_turn(&turn));
    s.update_with_turn(&turn);
    // The mover stands at the destination and is revealed.
    assert!(s.bitmaps[0].get(40));
    assert!(!s.bitmaps[0].get(30));
    assert_eq!(
        pieces(&s, 0),
        vec![Piece { pos: at(0, 4), rank: Rank::Miner, has_moved: true, is_revealed: true }]
    );
    // The defeated enemy has left its list and its bitmap.
    assert!(!s.bitmaps[1].get(40));
    assert_eq!(
        pieces(&s, 1),
        vec![Piece { pos: at(9, 9), rank: Rank::Flag, has_moved: false, is_revealed: false }]
    );
    assert_eq!(s.current_player_id, 1);
    assert_eq!(s.turn_count, 1);
    assert_consistent(&s);
}

#[test]
fn a_lost_capture_removes_the_mover() {
    let mut s = state(&[(Rank::Miner, at(0, 3)), (Rank::Flag, at(0, 0))], &[(Rank::General, at(0, 4))]);
    let turn = fought(0, (0, 3), (0, 4), [Rank::Miner, Rank::General], [true, false]);
    s.update_with_turn(&turn);
    // The mover's bit at the destination is not set; its old bit is clear.
    assert!(!s.bitmaps[0].get(40));
    assert!(!s.bitmaps[0].get(30));
    assert_eq!(
        pieces(&s, 0),
        vec![Piece { pos: at(0, 0), rank: Rank::Flag, has_moved: false, is_revealed: false }]
    );
    // The defender stays where it is and is revealed.
    assert!(s.bitmaps[1].get(40));
    assert_eq!(
        pieces(&s, 1),
        vec![Piece { pos: at(0, 4), rank: Rank::General, has_moved: false, is_revealed: true }]
    );
    assert_consistent(&s);
}

#[test]
fn a_draw_removes_both() {
    let mut s = state(&[(Rank::Scout, at(0, 3))], &[(Rank::Scout, at(0, 5)), (Rank::Bomb, at(1, 9))]);
    let turn = fought(0, (0, 3), (0, 5), [Rank::Scout, Rank::Scout], [true, true]);
    s.update_with_turn(&turn);
    assert_eq!(pieces(&s, 0), vec![]);
    assert_eq!(
        pieces(&s, 1),
        vec![Piece { pos: at(1, 9), rank: Rank::Bomb, has_moved: false, is_revealed: false }]
    );
    assert!(s.bitmaps[0] == BoardBitmap::new());
    assert!(!s.bitmaps[1].get(50));
    assert!(s.bitmaps[1].get(91));
    assert_consistent(&s);
}

#[test]
fn the_last_piece_takes_the_place_of_a_removed_one() {
    let mut s = state(
        &[(Rank::Marshal, at(4, 3))],
        &[(Rank::Spy, at(1, 6)), (Rank::Scout, at(4, 4)), (Rank::Miner, at(5, 6)), (Rank::Flag, at(6, 6))],
    );
    let turn = fought(0, (4, 3), (4, 4), [Rank::Marshal, Rank::Scout], [false, true]);
    s.update_with_turn(&turn);
    let ranks: Vec<Rank> = pieces(&s, 1).iter().map(|p| p.rank).collect();
    assert_eq!(ranks, vec![Rank::Spy, Rank::Flag, Rank::Miner]);
    assert_consistent(&s);
}

#[test]
fn player_one_moves_too() {
    let mut s = state(&[(Rank::Miner, at(0, 3))], &[(Rank::Scout, at(0, 6)), (Rank::Flag, at(9, 9))]);
    s.update_with_turn(&moved(0, (0, 3), (1, 3)));
    let turn = moved(1, (0, 6), (0, 0));
    assert!(s.accepts_turn(&turn));
    s.update_with_turn(&turn);
    assert_eq!(s.current_player_id, 0);
    assert_eq!(s.turn_count, 2);
    assert!(s.bitmaps[1].get(0));
    assert!(!s.bitmaps[1].get(60));
    assert_eq!(pieces(&s, 1)[0], Piece { pos: at(0, 0), rank: Rank::Scout, has_moved: true, is_revealed: false });
    assert_consistent(&s);
}

#[test]
fn lists_and_bitmaps_agree_after_every_turn() {
    let mut s = state(
        &[(Rank::Scout, at(0, 3)), (Rank::Miner, at(1, 3)), (Rank::Marshal, at(4, 3)), (Rank::Flag, at(9, 0))],
        &[(Rank::Spy, at(4, 6)), (Rank::Scout, at(0, 6)), (Rank::Bomb, at(1, 6)), (Rank::Flag, at(0, 9))],
    );
    let turns = [
        fought(0, (0, 3), (0, 6), [Rank::Scout, Rank::Scout], [true, true]),
        moved(1, (4, 6), (4, 5)),
        moved(0, (4, 3), (4, 4)),
        fought(1, (4, 5), (4, 4), [Rank::Marshal, Rank::Spy], [true, false]),
        moved(0, (1, 3), (1, 4)),
        moved(1, (4, 4), (4, 3)),
        moved(0, (1, 4), (1, 5)),
        moved(1, (4, 3), (4, 2)),
        fought(0, (1, 5), (1, 6), [Rank::Miner, Rank::Bomb], [false, true]),
    ];
    assert_consistent(&s);
    for (n, turn) in turns.iter().enumerate() {
        assert!(s.accepts_turn(turn));
        s.update_with_turn(turn);
        assert_consistent(&s);
        assert_eq!(s.turn_count, n + 1);
        assert_eq!(s.current_player_id, (turn.player_id + 1) % 2);
    }
    let ranks0: Vec<Rank> = pieces(&s, 0).iter().map(|p| p.rank).collect();
    let ranks1: Vec<Rank> = pieces(&s, 1).iter().map(|p| p.rank).collect();
    assert_eq!(ranks0, vec![Rank::Flag, Rank::Miner]);
    assert_eq!(ranks1, vec![Rank::Spy, Rank::Flag]);
}

#[test]
fn turns_that_cannot_be_applied_are_not_accepted() {
    let mut s = state(&[(Rank::Miner, at(0, 3)), (Rank::Flag, at(0, 2))], &[(Rank::Scout, at(0, 6))]);
    assert!(s.accepts_turn(&moved(0, (0, 3), (0, 4))));
    assert!(s.accepts_turn(&moved(1, (0, 6), (0, 5))));
    // No such player.
    assert!(!s.accepts_turn(&moved(2, (0, 3), (0, 4))));
    // No piece at the start.
    assert!(!s.accepts_turn(&moved(0, (1, 3), (1, 4))));
    // The destination is off the board.
    assert!(!s.accepts_turn(&moved(0, (0, 3), (255, 3))));
    assert!(!s.accepts_turn(&moved(0, (0, 3), (0, 10))));
    // A piece of the same player stands at the destination.
    assert!(!s.accepts_turn(&moved(0, (0, 3), (0, 2))));
    assert!(!s.accepts_turn(&moved(0, (0, 3), (0, 3))));
    // A fight without an enemy at the destination.
    assert!(!s.accepts_turn(&fought(0, (0, 3), (0, 4), [Rank::Miner, Rank::Scout], [false, true])));
    assert!(s.accepts_turn(&fought(0, (0, 3), (0, 6), [Rank::Miner, Rank::Scout], [false, true])));
    // The count of turns is at its end.
    s.turn_count = usize::MAX;
    assert!(!s.accepts_turn(&moved(0, (0, 3), (0, 4))));
}

#[test]
fn reversed_state_swaps_the_players_and_turns_the_board() {
    let mut s = state(
        &[(Rank::Miner, at(0, 3)), (Rank::Flag, at(5, 0))],
        &[(Rank::Scout, at(0, 6))],
    );
    s.update_with_turn(&moved(0, (0, 3), (0, 4)));
    let r = s.reversed();
    assert_eq!(r.current_player_id, 1);
    assert_eq!(r.turn_count, 1);
    assert_eq!(
        pieces(&r, 0),
        vec![Piece { pos: at(9, 3), rank: Rank::Scout, has_moved: false, is_revealed: false }]
    );
    assert_eq!(
        pieces(&r, 1),
        vec![
            Piece { pos: at(9, 5), rank: Rank::Miner, has_moved: true, is_revealed: false },
            Piece { pos: at(4, 9), rank: Rank::Flag, has_moved: false, is_revealed: false },
        ]
    );
    assert!(r.bitmaps[0] == s.bitmaps[1].reversed());
    assert!(r.bitmaps[1] == s.bitmaps[0].reversed());
    assert_consistent(&r);
    let back = r.reversed();
    assert_eq!(pieces(&back, 0), pieces(&s, 0));
    assert_eq!(pieces(&back, 1), pieces(&s, 1));
    assert!(back.bitmaps[0] == s.bitmaps[0]);
    assert!(back.bitmaps[1] == s.bitmaps[1]);
}

fn validation_state() -> State {
    state(
        &[
            (Rank::Miner, at(0, 3)),
            (Rank::Scout, at(4, 3)),
            (Rank::Bomb, at(5, 3)),
            (Rank::Flag, at(0, 2)),
            (Rank::Marshal, at(1, 4)),
        ],
        &[(Rank::Scout, at(4, 6)), (Rank::Flag, at(0, 9))],
    )
}

#[test]
fn legal_actions_are_accepted() {
    let s = validation_state();
    assert_eq!(validate_action(&s, &action((0, 3), (0, 4))), Ok(()));
    assert_eq!(validate_action(&s, &action((0, 3), (1, 3))), Ok(()));
    assert_eq!(validate_action(&s, &action((4, 3), (4, 4))), Ok(()));
    assert_eq!(validate_action(&s, &action((4, 3), (4, 6))), Ok(()));
    assert_eq!(validate_action(&s, &action((4, 3), (1, 3))), Ok(()));
    assert_eq!(validate_action(&s, &action((4, 3), (4, 0))), Ok(()));
    assert_eq!(validate_action(&s, &action((1, 4), (0, 4))), Ok(()));
}

#[test]
fn an_action_needs_a_friendly_piece_at_its_start() {
    let s = validation_state();
    assert_eq!(
        validate_action(&s, &action((7, 7), (7, 8))),
        Err(ActionError::NoFriendlyPieceOnFromPosition)
    );
    // The piece of the opponent does not count.
    assert_eq!(
        validate_action(&s, &action((4, 6), (4, 5))),
        Err(ActionError::NoFriendlyPieceOnFromPosition)
    );
    // The first rule that is broken is reported.
    assert_eq!(
        validate_action(&s, &action((7, 7), (200, 200))),
        Err(ActionError::NoFriendlyPieceOnFromPosition)
    );
}

#[test]
fn bomb_and_flag_are_not_moveable() {
    let s = validation_state();
    assert_eq!(
        validate_action(&s, &action((5, 3), (6, 3))),
        Err(ActionError::FriendlyPieceIsNotMoveable)
    );
    assert_eq!(
        validate_action(&s, &action((0, 2), (0, 1))),
        Err(ActionError::FriendlyPieceIsNotMoveable)
    );
    assert_eq!(
        validate_action(&s, &action((0, 2), (0, 3))),
        Err(ActionError::FriendlyPieceIsNotMoveable)
    );
}

#[test]
fn the_destination_must_be_free_of_friends() {
    let s = validation_state();
    assert_eq!(
        validate_action(&s, &action((0, 3), (0, 2))),
        Err(ActionError::ToPositionOccpuiedByFriend)
    );
    assert_eq!(
        validate_action(&s, &action((4, 3), (5, 3))),
        Err(ActionError::ToPositionOccpuiedByFriend)
    );
    assert_eq!(
        validate_action(&s, &action((4, 3), (4, 3))),
        Err(ActionError::ToPositionOccpuiedByFriend)
    );
    // Not straight and too far as well, but the friend comes first.
    assert_eq!(
        validate_action(&s, &action((0, 3), (1, 4))),
        Err(ActionError::ToPositionOccpuiedByFriend)
    );
}

#[test]
fn the_destination_must_be_a_valid_map_position() {
    let s = validation_state();
    assert_eq!(
        validate_action(&s, &action((0, 3), (255, 3))),
        Err(ActionError::ToPositionIsAnInvalidMapPosition)
    );
    assert_eq!(
        validate_action(&s, &action((1, 4), (2, 4))),
        Err(ActionError::ToPositionIsAnInvalidMapPosition)
    );
    assert_eq!(
        validate_action(&s, &action((4, 3), (4, 10))),
        Err(ActionError::ToPositionIsAnInvalidMapPosition)
    );
    assert_eq!(
        validate_action(&s, &action((0, 3), (7, 5))),
        Err(ActionError::ToPositionIsAnInvalidMapPosition)
    );
}

#[test]
fn the_movement_must_be_straight() {
    let s = validation_state();
    assert_eq!(
        validate_action(&s, &action((0, 3), (1, 2))),
        Err(ActionError::MovementIsNotStraight)
    );
    assert_eq!(
        validate_action(&s, &action((4, 3), (5, 4))),
        Err(ActionError::MovementIsNotStraight)
    );
}

#[test]
fn the_distance_must_fit_the_piece() {
    let s = validation_state();
    // A miner takes one step.
    assert_eq!(
        validate_action(&s, &action((0, 3), (0, 5))),
        Err(ActionError::InvalidMovementDistance)
    );
    assert_eq!(
        validate_action(&s, &action((1, 4), (1, 6))),
        Err(ActionError::InvalidMovementDistance)
    );
    // A scout does not pass the first enemy, its own pieces or a lake.
    assert_eq!(
        validate_action(&s, &action((4, 3), (4, 7))),
        Err(ActionError::InvalidMovementDistance)
    );
    assert_eq!(
        validate_action(&s, &action((4, 3), (6, 3))),
        Err(ActionError::InvalidMovementDistance)
    );
    let s = state(&[(Rank::Scout, at(1, 4))], &[]);
    assert_eq!(
        validate_action(&s, &action((1, 4), (4, 4))),
        Err(ActionError::InvalidMovementDistance)
    );
    assert_eq!(validate_action(&s, &action((1, 4), (1, 9))), Ok(()));
}

#[test]
fn validation_is_for_the_player_to_move() {
    let mut s = validation_state();
    s.update_with_turn(&moved(0, (0, 3), (0, 4)));
    assert_eq!(validate_action(&s, &action((4, 6), (4, 4))), Ok(()));
    assert_eq!(validate_action(&s, &action((4, 6), (4, 3))), Ok(()));
    assert_eq!(
        validate_action(&s, &action((4, 6), (4, 2))),
        Err(ActionError::InvalidMovementDistance)
    );
    assert_eq!(
        validate_action(&s, &action((0, 4), (0, 5))),
        Err(ActionError::NoFriendlyPieceOnFromPosition)
    );
    assert_eq!(
        validate_action(&s, &action((0, 9), (0, 8))),
        Err(ActionError::FriendlyPieceIsNotMoveable)
    );
}

#[test]
fn errors_are_told_by_their_names() {
    assert_eq!(
        ActionError::NoFriendlyPieceOnFromPosition.to_string(),
        "NoFriendlyPieceOnFromPosition"
    );
    assert_eq!(ActionError::FriendlyPieceIsNotMoveable.to_string(), "FriendlyPieceIsNotMoveable");
    assert_eq!(ActionError::ToPositionOccpuiedByFriend.to_string(), "ToPositionOccpuiedByFriend");
    assert_eq!(
        ActionError::ToPositionIsAnInvalidMapPosition.to_string(),
        "ToPositionIsAnInvalidMapPosition"
    );
    assert_eq!(ActionError::MovementIsNotStraight.to_string(), "MovementIsNotStraight");
    assert_eq!(ActionError::InvalidMovementDistance.to_string(), "InvalidMovementDistance");
}

#[test]
fn well_formed_states_are_told_apart() {
    let mut s = state(&[(Rank::Miner, at(0, 3)), (Rank::Flag, at(0, 2))], &[(Rank::Scout, at(0, 6))]);
    assert!(s.is_well_formed());
    s.update_with_turn(&moved(0, (0, 3), (0, 4)));
    assert!(s.is_well_formed());
    // A bit without a piece.
    let mut broken = s;
    broken.bitmaps[0].set(99, true);
    assert!(!broken.is_well_formed());
    // A piece without a bit.
    let mut broken = s;
    broken.bitmaps[1].set(60, false);
    assert!(!broken.is_well_formed());
    // No such player.
    let mut broken = s;
    broken.current_player_id = 2;
    assert!(!broken.is_well_formed());
    // Two pieces on one cell.
    let twice = state(&[(Rank::Miner, at(0, 3)), (Rank::Flag, at(0, 3))], &[]);
    assert!(!twice.is_well_formed());
    // A piece off the board.
    let mut broken = s;
    broken.pieces[0][0].pos = at(10, 0);
    assert!(!broken.is_well_formed());
}
