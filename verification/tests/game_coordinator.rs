use std::cell::RefCell;
use std::rc::Rc;
use stratego::bot::AgressoBot;
use stratego::bot::Bot;
use stratego::bot::RandoBot;
use stratego::game::logic::has_a_possible_move;
use stratego::game::Action;
use stratego::game::Piece;
use stratego::game::Position;
use stratego::game::Rank;
use stratego::game::State;
use stratego::game_coordinator::obscure_state;
use stratego::game_coordinator::resolve_action;
use stratego::game_coordinator::GameCoordinator;
use stratego::game_coordinator::Outcome;
use stratego::game_coordinator::Resolution;

fn at(x: u8, y: u8) -> Position {
    Position { x, y }
}

fn ranks_of(placement: &[(Rank, Position)]) -> Vec<Rank> {
    placement.iter().map(|(rank, _)| *rank).collect()
}

fn action(from: (u8, u8), to: (u8, u8)) -> Action {
    Action { from: at(from.0, from.1), to: at(to.0, to.1) }
}

/// A policy that answers what it was told to answer, and keeps what it was
/// shown.
struct Scripted {
    placements: Vec<(Rank, Position)>,
    actions: Vec<Action>,
    seen: Rc<RefCell<Vec<State>>>,
}

impl Bot for Scripted {
    fn get_initial_placements(&mut self) -> Vec<(Rank, Position)> {
        self.placements.clone()
    }

    fn get_action(&mut self, state: State) -> Action {
        let mut seen = self.seen.borrow_mut();
        seen.push(state);
        self.actions[seen.len() - 1]
    }
}

fn scripted(placements: &[(Rank, Position)], actions: &[Action]) -> Box<dyn Bot> {
    watched(placements, actions).0
}

/// A scripted policy, and the states that it will have been shown.
fn watched(
    placements: &[(Rank, Position)],
    actions: &[Action],
) -> (Box<dyn Bot>, Rc<RefCell<Vec<State>>>) {
    let seen = Rc::new(RefCell::new(Vec::new()));
    let bot = Scripted {
        placements: placements.to_vec(),
        actions: actions.to_vec(),
        seen: Rc::clone(&seen),
    };
    (Box::new(bot), seen)
}

/// The starting set with its fighters in the front row, each in a column
/// without a lake.
fn attackers() -> Vec<(Rank, Position)> {
    vec![
        (Rank::Spy, at(8, 3)),
        (Rank::Scout, at(1, 3)),
        (Rank::Scout, at(9, 3)),
        (Rank::Miner, at(8, 2)),
        (Rank::General, at(0, 3)),
        (Rank::Marshal, at(4, 3)),
        (Rank::Bomb, at(5, 0)),
        (Rank::Flag, at(6, 0)),
    ]
}

/// The attack in which every fighter of `attackers` dies: each walks down
/// its column into a piece of `defenders` that it cannot beat.
fn doomed_attack() -> Vec<Action> {
    vec![
        // The scout slides into the miner.
        action((1, 3), (1, 6)),
        // The other scout slides into a scout; both die.
        action((9, 3), (9, 6)),
        // The general walks into the marshal.
        action((0, 3), (0, 4)),
        action((0, 4), (0, 5)),
        action((0, 5), (0, 6)),
        // The marshal walks into the bomb.
        action((4, 3), (4, 4)),
        action((4, 4), (4, 5)),
        action((4, 5), (4, 6)),
        // The spy walks into the general.
        action((8, 3), (8, 4)),
        action((8, 4), (8, 5)),
        action((8, 5), (8, 6)),
        // The miner follows the spy.
        action((8, 2), (8, 3)),
        action((8, 3), (8, 4)),
        action((8, 4), (8, 5)),
        action((8, 5), (8, 6)),
    ]
}

/// The starting set as it faces `attackers`: seen from the other side it
/// has the miner, the scout, the marshal, the bomb and the general in the
/// columns down which the attackers come.
fn defenders() -> Vec<(Rank, Position)> {
    vec![
        (Rank::Spy, at(4, 1)),
        (Rank::Scout, at(0, 3)),
        (Rank::Scout, at(7, 0)),
        (Rank::Miner, at(8, 3)),
        (Rank::General, at(1, 3)),
        (Rank::Marshal, at(9, 3)),
        (Rank::Bomb, at(5, 3)),
        (Rank::Flag, at(2, 0)),
    ]
}

/// `n` steps of the spy of `defenders`, there and back.
fn waiting(n: usize) -> Vec<Action> {
    (0..n)
        .map(|i| if i % 2 == 0 { action((4, 1), (4, 2)) } else { action((4, 2), (4, 1)) })
        .collect()
}

/// The starting set with a scout in the first column.
fn raiders() -> Vec<(Rank, Position)> {
    vec![
        (Rank::Spy, at(8, 3)),
        (Rank::Scout, at(0, 3)),
        (Rank::Scout, at(9, 3)),
        (Rank::Miner, at(8, 2)),
        (Rank::General, at(1, 3)),
        (Rank::Marshal, at(4, 3)),
        (Rank::Bomb, at(5, 0)),
        (Rank::Flag, at(6, 0)),
    ]
}

/// The starting set with the flag in the front row, where the scout of
/// `raiders` comes down.
fn open_flag() -> Vec<(Rank, Position)> {
    vec![
        (Rank::Spy, at(4, 1)),
        (Rank::Scout, at(0, 3)),
        (Rank::Scout, at(7, 0)),
        (Rank::Miner, at(8, 3)),
        (Rank::General, at(1, 3)),
        (Rank::Marshal, at(5, 2)),
        (Rank::Bomb, at(5, 3)),
        (Rank::Flag, at(9, 3)),
    ]
}

fn ranks(pieces: &[Piece]) -> Vec<Rank> {
    pieces.iter().map(|piece| piece.rank).collect()
}

fn resolved_turn(state: &State, action: &Action) -> stratego::game::Turn {
    match resolve_action(state, action) {
        Resolution::Turn(turn) => turn,
        Resolution::FlagCaptured => panic!("the flag was captured"),
    }
}

#[test]
fn a_side_without_a_move_loses_at_once() {
    // With a bomb and a flag only, a side has no move.
    let bomb_and_flag = [(Rank::Bomb, at(4, 1)), (Rank::Flag, at(5, 1))];
    let state = State::new_with_placements(&[&bomb_and_flag, &[(Rank::Miner, at(9, 9))]]);
    assert!(!has_a_possible_move(state.pieces[0].as_slice(), &state.bitmaps[0], &state.bitmaps[1]));

    // Player 0 loses its six fighters in 15 moves. When player 1 has
    // answered the last of them, 30 turns have been played, and player 0
    // is left with its bomb and its flag.
    let (attacker, shown) = watched(&attackers(), &doomed_attack());
    let mut game = GameCoordinator::new(attacker, scripted(&defenders(), &waiting(15)), 100);
    assert_eq!(game.play(), Outcome::Win { winner: 1, turn_count: 30 });

    // Before its last move player 0 had its miner, its bomb and its flag.
    let shown = shown.borrow();
    assert_eq!(shown.len(), 15);
    let mut left = ranks(shown[14].pieces[0].as_slice());
    left.sort_by_key(|rank| rank.strength_value());
    assert_eq!(left, vec![Rank::Miner, Rank::Bomb, Rank::Flag]);
}

#[test]
fn the_second_player_can_be_the_one_without_a_move() {
    // Player 1 makes the same attack, seen from its side. Player 0 moves
    // first and once more after the last fighter has died.
    let mut game = GameCoordinator::new(
        scripted(&defenders(), &waiting(16)),
        scripted(&attackers(), &doomed_attack()),
        100,
    );
    assert_eq!(game.play(), Outcome::Win { winner: 0, turn_count: 31 });
}

#[test]
fn capturing_the_flag_wins_at_once() {
    // The flag of player 1 stands at (0, 6) on the board, which is (9, 3)
    // as its policy sees the board. The scout slides onto it.
    let mut game = GameCoordinator::new(
        scripted(&raiders(), &[action((0, 3), (0, 6))]),
        scripted(&open_flag(), &[]),
        100,
    );
    assert_eq!(game.play(), Outcome::Win { winner: 0, turn_count: 1 });
}

#[test]
fn the_second_player_can_capture_the_flag() {
    // Player 0 waits one turn; player 1 slides onto the flag, which it
    // sees at (0, 6).
    let mut game = GameCoordinator::new(
        scripted(&open_flag(), &waiting(1)),
        scripted(&raiders(), &[action((0, 3), (0, 6))]),
        100,
    );
    assert_eq!(game.play(), Outcome::Win { winner: 1, turn_count: 2 });
}

#[test]
fn the_game_is_given_up_at_the_limit() {
    let mut game = GameCoordinator::new(
        scripted(&defenders(), &waiting(4)),
        scripted(&defenders(), &waiting(3)),
        7,
    );
    assert_eq!(game.play(), Outcome::ReachedMaxTurnCount(7));
    let mut game =
        GameCoordinator::new(scripted(&defenders(), &[]), scripted(&defenders(), &[]), 0);
    assert_eq!(game.play(), Outcome::ReachedMaxTurnCount(0));
    // The limit comes before the end of the attack.
    let mut game = GameCoordinator::new(
        scripted(&attackers(), &doomed_attack()),
        scripted(&defenders(), &waiting(15)),
        29,
    );
    assert_eq!(game.play(), Outcome::ReachedMaxTurnCount(29));
}

#[test]
fn battles_are_fought_when_the_turn_is_applied() {
    let (attacker, _) = watched(&attackers(), &doomed_attack());
    let (defender, shown) = watched(&defenders(), &waiting(2));
    let mut game = GameCoordinator::new(attacker, defender, 4);
    assert_eq!(game.play(), Outcome::ReachedMaxTurnCount(4));

    // Player 1 sees the board from its side: its own pieces are those of
    // side 0, where it placed them.
    let shown = shown.borrow();
    assert_eq!(shown.len(), 2);

    // After the first attack the scout of player 0 is gone, and the miner
    // that it ran into stands revealed in its place.
    let own = shown[0].pieces[0].as_slice();
    assert_eq!(own.len(), 8);
    assert_eq!(
        own[3],
        Piece { pos: at(8, 3), rank: Rank::Miner, has_moved: false, is_revealed: true }
    );
    assert_eq!(shown[0].pieces[1].len(), 7);
    assert!(!shown[0].bitmaps[1].get(at(8, 3).to_bit_index()));
    assert!(shown[0].bitmaps[0].get(at(8, 3).to_bit_index()));

    // After the second attack both scouts are gone.
    let own = shown[1].pieces[0].as_slice();
    assert_eq!(own.len(), 7);
    assert!(!shown[1].bitmaps[0].get(at(0, 3).to_bit_index()));
    assert!(!shown[1].bitmaps[1].get(at(0, 3).to_bit_index()));
    assert_eq!(shown[1].pieces[1].len(), 6);
    let mut ranks = ranks(own);
    ranks.sort_by_key(|rank| rank.strength_value());
    assert_eq!(
        ranks,
        vec![
            Rank::Spy,
            Rank::Scout,
            Rank::Miner,
            Rank::General,
            Rank::Marshal,
            Rank::Bomb,
            Rank::Flag,
        ]
    );
}

#[test]
fn policies_see_only_revealed_ranks() {
    let (attacker, shown_to_attacker) = watched(&attackers(), &doomed_attack());
    let (defender, shown_to_defender) = watched(&defenders(), &waiting(1));
    let mut game = GameCoordinator::new(attacker, defender, 3);
    assert_eq!(game.play(), Outcome::ReachedMaxTurnCount(3));

    // At the start nothing is known of the enemy.
    let shown = shown_to_attacker.borrow();
    assert_eq!(shown.len(), 2);
    assert_eq!(ranks(shown[0].pieces[1].as_slice()), vec![Rank::Unknown; 8]);
    assert_eq!(ranks(shown[0].pieces[0].as_slice()), ranks_of(&attackers()));
    // The enemy stands where it placed its pieces, seen from this side.
    for (piece, (_, pos)) in shown[0].pieces[1].as_slice().iter().zip(defenders()) {
        assert_eq!(piece.pos, pos.reversed());
    }

    // The miner that killed the scout is known from then on.
    let mut known = vec![Rank::Unknown; 8];
    known[3] = Rank::Miner;
    assert_eq!(ranks(shown[1].pieces[1].as_slice()), known);

    // Player 1 knows its own pieces, and none of the seven of the enemy.
    let shown = shown_to_defender.borrow();
    assert_eq!(shown.len(), 1);
    assert_eq!(ranks(shown[0].pieces[0].as_slice()), ranks_of(&defenders()));
    assert_eq!(ranks(shown[0].pieces[1].as_slice()), vec![Rank::Unknown; 7]);
}

#[test]
fn a_game_starts_with_the_pieces_of_both_policies() {
    let (first, shown) = watched(&attackers(), &doomed_attack());
    let mut game = GameCoordinator::new(first, scripted(&defenders(), &[]), 1);
    assert_eq!(game.play(), Outcome::ReachedMaxTurnCount(1));
    let shown = shown.borrow();
    let state = shown[0];
    assert_eq!(state.current_player_id, 0);
    assert_eq!(state.turn_count, 0);
    assert_eq!(state.pieces[0].len(), 8);
    assert_eq!(state.pieces[1].len(), 8);
    for (piece, (rank, pos)) in state.pieces[0].as_slice().iter().zip(attackers()) {
        assert_eq!(*piece, Piece { pos, rank, has_moved: false, is_revealed: false });
    }
    for cell in 0..100 {
        assert_eq!(state.bitmaps[0].get(cell), attackers().iter().any(|p| p.1.to_bit_index() == cell));
        assert_eq!(
            state.bitmaps[1].get(cell),
            defenders().iter().any(|p| p.1.reversed().to_bit_index() == cell)
        );
    }
}

#[test]
fn obscured_state_hides_unrevealed_ranks_of_one_player() {
    let mut state = State::new_with_placements(&[
        &[(Rank::Miner, at(0, 3)), (Rank::Flag, at(5, 0))],
        &[(Rank::General, at(0, 4)), (Rank::Spy, at(3, 7)), (Rank::Flag, at(9, 9))],
    ]);
    let turn = resolved_turn(&state, &action((0, 3), (0, 4)));
    state.update_with_turn(&turn);

    let seen = obscure_state(&state, 1);
    assert_eq!(
        seen.pieces[1].as_slice(),
        &[
            Piece { pos: at(0, 4), rank: Rank::General, has_moved: false, is_revealed: true },
            Piece { pos: at(3, 7), rank: Rank::Unknown, has_moved: false, is_revealed: false },
            Piece { pos: at(9, 9), rank: Rank::Unknown, has_moved: false, is_revealed: false },
        ]
    );
    assert_eq!(seen.pieces[0].as_slice(), state.pieces[0].as_slice());
    assert!(seen.bitmaps[0] == state.bitmaps[0]);
    assert!(seen.bitmaps[1] == state.bitmaps[1]);
    assert_eq!(seen.current_player_id, state.current_player_id);
    assert_eq!(seen.turn_count, state.turn_count);

    let seen = obscure_state(&state, 0);
    assert_eq!(
        seen.pieces[0].as_slice(),
        &[Piece { pos: at(5, 0), rank: Rank::Unknown, has_moved: false, is_revealed: false }]
    );
    assert_eq!(seen.pieces[1].as_slice(), state.pieces[1].as_slice());
}

#[test]
fn resolving_a_plain_move_gives_a_turn_without_a_battle() {
    let state = State::new_with_placements(&[
        &[(Rank::Miner, at(0, 3))],
        &[(Rank::Scout, at(0, 6))],
    ]);
    let turn = resolved_turn(&state, &action((0, 3), (0, 4)));
    assert_eq!(turn.player_id, 0);
    assert_eq!(turn.action, action((0, 3), (0, 4)));
    assert!(turn.battle.is_none());
}

#[test]
fn resolving_a_capture_gives_the_battle_by_player() {
    let mut state = State::new_with_placements(&[
        &[(Rank::Miner, at(0, 3)), (Rank::Marshal, at(5, 3))],
        &[(Rank::Scout, at(0, 4)), (Rank::Spy, at(5, 5)), (Rank::Bomb, at(9, 9))],
    ]);
    let turn = resolved_turn(&state, &action((0, 3), (0, 4)));
    let battle = turn.battle.unwrap();
    assert_eq!(battle.ranks, [Rank::Miner, Rank::Scout]);
    assert_eq!(battle.has_died, [false, true]);

    // After a step of the marshal, the spy of player 1 attacks it.
    state.update_with_turn(&resolved_turn(&state, &action((5, 3), (5, 4))));
    let turn = resolved_turn(&state, &action((5, 5), (5, 4)));
    assert_eq!(turn.player_id, 1);
    let battle = turn.battle.unwrap();
    assert_eq!(battle.ranks, [Rank::Marshal, Rank::Spy]);
    assert_eq!(battle.has_died, [true, false]);
    state.update_with_turn(&turn);
    assert_eq!(state.pieces[0].len(), 1);
    assert_eq!(
        state.pieces[1].as_slice()[1],
        Piece { pos: at(5, 4), rank: Rank::Spy, has_moved: true, is_revealed: true }
    );
}

#[test]
fn resolving_a_move_onto_the_flag_captures_it() {
    let state = State::new_with_placements(&[
        &[(Rank::Miner, at(0, 3))],
        &[(Rank::Flag, at(0, 4))],
    ]);
    assert!(matches!(resolve_action(&state, &action((0, 3), (0, 4))), Resolution::FlagCaptured));
}

#[test]
fn real_policies_play_a_game_to_its_end() {
    for seed in 0..20u64 {
        let limit = 300;
        let mut game = GameCoordinator::new(
            Box::new(AgressoBot::new(seed)),
            Box::new(RandoBot::new(seed + 100)),
            limit,
        );
        match game.play() {
            Outcome::ReachedMaxTurnCount(turn_count) => assert_eq!(turn_count, limit),
            Outcome::Win { winner, turn_count } => {
                assert!(winner < 2);
                assert!(turn_count <= limit);
            }
        }
    }
}

#[test]
fn seeds_decide_the_game() {
    let play = |seed: u64| {
        GameCoordinator::new(Box::new(RandoBot::new(seed)), Box::new(AgressoBot::new(seed + 1)), 500)
            .play()
    };
    for seed in 0..5 {
        assert_eq!(play(seed), play(seed));
    }
}
