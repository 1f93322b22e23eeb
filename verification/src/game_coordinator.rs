//! The course of a game between two policies.

use vstd::prelude::*;
use crate::bot::has_starting_ranks;
use crate::bot::is_placement_in_rows;
use crate::bot::Bot;
use crate::bot::BotOrienter;
use crate::game::legality::is_legal;
use crate::game::logic::battle_casualties;
use crate::game::logic::has_a_possible_move;
use crate::game::logic::spec_battle_casualties;
use crate::game::logic::spec_has_a_possible_move;
use crate::game::pieces::pieces_as_slice;
use crate::game::pieces::set_piece;
use crate::game::side::cells_of;
use crate::game::side::find_piece;
use crate::game::side::first_piece_at;
use crate::game::side::has_piece_at;
use crate::game::side::lemma_first_piece_exists;
use crate::game::side::lemma_piece_at_is_occupied_cell;
use crate::game::side::occupied_cell;
use crate::game::state::placed;
use crate::game::state::turns_applied;
use crate::game::Action;
use crate::game::Battle;
use crate::game::Piece;
use crate::game::Position;
use crate::game::Rank;
use crate::game::State;
use crate::game::StateView;
use crate::game::Turn;

verus! {

/// How a game ended.
#[derive(Debug, Clone, Copy, PartialEq, Eq, Structural)]
pub enum Outcome {
    /// Nobody had won when the given number of turns had been played.
    ReachedMaxTurnCount(usize),
    /// A player won, after the given number of turns.
    Win { winner: usize, turn_count: usize },
}

/// The pieces as the opponent sees them: the rank of a piece that has not
/// been revealed is unknown.
pub open spec fn hidden(pieces: Seq<Piece>) -> Seq<Piece> {
    Seq::new(
        pieces.len(),
        |i: int|
            Piece {
                pos: pieces[i].pos,
                rank: if pieces[i].is_revealed {
                    pieces[i].rank
                } else {
                    Rank::Unknown
                },
                has_moved: pieces[i].has_moved,
                is_revealed: pieces[i].is_revealed,
            },
    )
}

/// Hiding ranks moves no piece.
pub proof fn lemma_hidden_cells(pieces: Seq<Piece>)
    ensures
        cells_of(hidden(pieces)) == cells_of(pieces),
{
    let h = hidden(pieces);
    assert forall|c: int| 0 <= c < 100 implies cells_of(h)[c] == cells_of(pieces)[c] by {
        if occupied_cell(h, c) {
            let i = choose|i: int|
                0 <= i < h.len() && (#[trigger] h[i]).pos.spec_to_bit_index() == c;
            assert(pieces[i].pos.spec_to_bit_index() == c);
        }
        if occupied_cell(pieces, c) {
            let i = choose|i: int|
                0 <= i < pieces.len() && (#[trigger] pieces[i]).pos.spec_to_bit_index() == c;
            assert(h[i].pos.spec_to_bit_index() == c);
        }
    }
    assert(cells_of(h) =~= cells_of(pieces));
}

impl StateView {
    /// The state as the opponent of player `id` is allowed to see it: the
    /// ranks of the pieces of player `id` that have not been revealed are
    /// hidden.
    pub open spec fn obscured(self, id: int) -> StateView {
        StateView {
            current_player_id: self.current_player_id,
            turn_count: self.turn_count,
            pieces: self.pieces.update(id, hidden(self.pieces[id])),
            cells: self.cells,
        }
    }
}

/// What a policy is shown is enough to tell its legal moves: hiding the
/// ranks of the other player changes nothing about the rules that an action
/// of the player breaks.
pub proof fn lemma_hiding_changes_no_rule(state: StateView, id: int, action: Action)
    requires
        state.pieces.len() == 2,
        0 <= id < 2,
    ensures
        state.obscured(1 - id).action_error_of(id, action) == state.action_error_of(id, action),
{
}

/// A copy of the state in which the ranks of the pieces of player
/// `other_player_id` are hidden, unless they have been revealed.
pub fn obscure_state(state: &State, other_player_id: usize) -> (obscured: State)
    requires
        other_player_id < 2,
    ensures
        obscured@ == state@.obscured(other_player_id as int),
        state.wf() ==> obscured.wf(),
{
    let mut obscured = *state;
    let count: usize = pieces_as_slice(&obscured.pieces[other_player_id]).len();
    let ghost pieces = state@.pieces[other_player_id as int];
    let mut i: usize = 0;
    while i < count
        invariant
            other_player_id < 2,
            i <= count == pieces.len(),
            pieces == state@.pieces[other_player_id as int],
            obscured@.current_player_id == state@.current_player_id,
            obscured@.turn_count == state@.turn_count,
            obscured@.cells == state@.cells,
            obscured@.pieces[1 - other_player_id] == state@.pieces[1 - other_player_id],
            obscured@.pieces[other_player_id as int].len() == count,
            forall|j: int|
                0 <= j < i ==> (#[trigger] obscured@.pieces[other_player_id as int][j]) == hidden(
                    pieces,
                )[j],
            forall|j: int|
                i <= j < count ==> (#[trigger] obscured@.pieces[other_player_id as int][j])
                    == pieces[j],
        decreases count - i,
    {
        let mut piece = pieces_as_slice(&obscured.pieces[other_player_id])[i];
        if !piece.is_revealed {
            piece.rank = Rank::Unknown;
        }
        set_piece(&mut obscured.pieces[other_player_id], i, piece);
        i += 1;
    }
    proof {
        let goal = state@.obscured(other_player_id as int);
        assert(obscured@.pieces[other_player_id as int] =~= hidden(pieces));
        assert(obscured@.pieces =~= goal.pieces);
        if state.wf() {
            lemma_hidden_cells(pieces);
        }
    }
    obscured
}

/// What an action leads to: the capture of the enemy's flag, which ends the
/// game, or a turn to apply to the state.
#[derive(Clone, Copy, Debug)]
pub enum Resolution {
    FlagCaptured,
    Turn(Turn),
}

impl StateView {
    /// The piece of player `id` that stands at `pos`.
    pub open spec fn piece_at(self, id: int, pos: Position) -> Piece {
        self.pieces[id][first_piece_at(self.pieces[id], pos)]
    }

    /// The player to move has a piece of a rank that moves at the start of
    /// the action, and the destination is on the board.
    pub open spec fn can_resolve(self, action: Action) -> bool {
        let id = self.current_player_id as int;
        &&& has_piece_at(self.pieces[id], action.from)
        &&& self.piece_at(id, action.from).rank.spec_is_moveable()
        &&& action.to.in_bounds()
    }

    /// `resolution` is what `action` of the player to move leads to. An
    /// action onto the enemy's flag captures it. Any other action gives a
    /// turn of that player: without a fight where no enemy stands at the
    /// destination, and else with the fight between the two pieces, in
    /// which the enemy's piece defends.
    pub open spec fn resolves_to(self, action: Action, resolution: Resolution) -> bool {
        let id = self.current_player_id as int;
        let friend = self.piece_at(id, action.from);
        let enemy = self.piece_at(1 - id, action.to);
        let met = has_piece_at(self.pieces[1 - id], action.to);
        match resolution {
            Resolution::FlagCaptured => met && enemy.rank == Rank::Flag,
            Resolution::Turn(turn) => {
                &&& !(met && enemy.rank == Rank::Flag)
                &&& turn.player_id == id
                &&& turn.action == action
                &&& turn.battle is Some <==> met
                &&& turn.battle matches Some(battle) ==> {
                    &&& battle.ranks[id] == friend.rank
                    &&& battle.ranks[1 - id] == enemy.rank
                    &&& battle.has_died[id] == spec_battle_casualties(enemy.rank, friend.rank).1
                    &&& battle.has_died[1 - id] == spec_battle_casualties(
                        enemy.rank,
                        friend.rank,
                    ).0
                }
            },
        }
    }
}

/// Finds out what an action of the player to move leads to.
pub fn resolve_action(state: &State, action: &Action) -> (resolution: Resolution)
    requires
        state.wf(),
        state@.can_resolve(*action),
    ensures
        state@.resolves_to(*action, resolution),
        resolution matches Resolution::Turn(turn) ==> state@.is_sound_turn(turn),
{
    let current_player_id: usize = state.current_player_id;
    let other_player_id: usize = (current_player_id + 1) % 2;
    proof {
        lemma_piece_at_is_occupied_cell(state@.pieces[other_player_id as int], action.to);
    }
    let has_enemy_at_destination = state.bitmaps[other_player_id].get(action.to.to_bit_index());

    let battle = if has_enemy_at_destination {
        // Find the piece that is on the destination square.
        let enemies = pieces_as_slice(&state.pieces[other_player_id]);
        let enemy_rank = enemies[find_piece(enemies, &action.to).unwrap()].rank;

        // If the enemy piece is the flag, the game is over.
        if enemy_rank == Rank::Flag {
            return Resolution::FlagCaptured;
        }
        // Find the piece we are trying to move to the destination square.

        let friends = pieces_as_slice(&state.pieces[current_player_id]);
        let friend_rank = friends[find_piece(friends, &action.from).unwrap()].rank;

        let (enemy_died, friend_died) = battle_casualties(&enemy_rank, &friend_rank);

        // The rank of player 0 is at index 0.
        if current_player_id == 0 {
            Some(Battle { ranks: [friend_rank, enemy_rank], has_died: [friend_died, enemy_died] })
        } else {
            Some(Battle { ranks: [enemy_rank, friend_rank], has_died: [enemy_died, friend_died] })
        }
    } else {
        None
    };
    Resolution::Turn(Turn { player_id: current_player_id, action: *action, battle })
}

/// `turn` is a turn of a game that is played by the rules: the player to
/// move makes an action that is legal for it, and the turn is what the
/// action leads to.
pub open spec fn is_game_turn(state: StateView, turn: Turn) -> bool {
    let id = state.current_player_id as int;
    &&& is_legal(state.pieces[id], state.cells[id], state.cells[1 - id], turn.action)
    &&& state.resolves_to(turn.action, Resolution::Turn(turn))
}

/// `turns` are the turns of a game that is played by the rules from `state`
/// on.
pub open spec fn is_game(state: StateView, turns: Seq<Turn>) -> bool {
    forall|n: int|
        0 <= n < turns.len() ==> is_game_turn(
            #[trigger] turns_applied(state, turns.take(n)),
            turns[n],
        )
}

/// One more turn by the rules makes a longer game.
pub proof fn lemma_game_goes_on(state: StateView, turns: Seq<Turn>, turn: Turn)
    requires
        is_game(state, turns),
        is_game_turn(turns_applied(state, turns), turn),
    ensures
        is_game(state, turns.push(turn)),
        turns_applied(state, turns.push(turn)) == turns_applied(state, turns).turn_applied(turn),
{
    let more = turns.push(turn);
    assert(more.drop_last() =~= turns);
    assert forall|n: int| 0 <= n < more.len() implies is_game_turn(
        #[trigger] turns_applied(state, more.take(n)),
        more[n],
    ) by {
        if n < turns.len() {
            assert(more.take(n) =~= turns.take(n));
        } else {
            assert(more.take(n) =~= turns);
        }
    }
}

/// A turn of a game that is played by the rules can be applied, and leaves
/// no cell to both players.
pub proof fn lemma_game_turn_is_accepted(state: StateView, turn: Turn)
    requires
        state.wf(),
        state.turn_count < usize::MAX,
        is_game_turn(state, turn),
    ensures
        state.accepts(turn),
        state.is_sound_turn(turn),
{
    let id = state.current_player_id as int;
    lemma_first_piece_exists(state.pieces[id], turn.action.from);
}

/// Pieces that are placed in rows 0 to 3 and pieces that are placed in rows
/// 6 to 9 share no cell.
pub proof fn lemma_rows_are_apart(
    placement0: Seq<(Rank, Position)>,
    placement1: Seq<(Rank, Position)>,
)
    requires
        is_placement_in_rows(placement0, 0),
        is_placement_in_rows(placement1, 6),
    ensures
        StateView::initial(placed(placement0), placed(placement1)).sides_apart(),
{
    let pieces0 = placed(placement0);
    let pieces1 = placed(placement1);
    assert forall|cell: int| 0 <= cell < 100 implies !(cells_of(pieces0)[cell] && cells_of(
        pieces1,
    )[cell]) by {
        if occupied_cell(pieces0, cell) && occupied_cell(pieces1, cell) {
            let i = choose|i: int|
                0 <= i < pieces0.len() && (#[trigger] pieces0[i]).pos.spec_to_bit_index() == cell;
            let j = choose|j: int|
                0 <= j < pieces1.len() && (#[trigger] pieces1[j]).pos.spec_to_bit_index() == cell;
            assert(pieces0[i].pos == placement0[i].1);
            assert(pieces1[j].pos == placement1[j].1);
        }
    }
}

/// Runs a game between two policies.
pub struct GameCoordinator {
    bots: [BotOrienter; 2],
    max_turn_count: usize,
    state: State,
}

impl GameCoordinator {
    /// The state of the game.
    pub closed spec fn state(&self) -> State {
        self.state
    }

    /// The number of turns after which the game is given up.
    pub closed spec fn max_turn_count(&self) -> usize {
        self.max_turn_count
    }

    /// The player for whom the policy at place `i` plays.
    pub closed spec fn player_of_bot(&self, i: int) -> usize {
        self.bots[i].player()
    }

    /// The state is in order, no cell is held by both players, and each
    /// policy plays for the player at whose place it stands.
    pub open spec fn wf(&self) -> bool {
        &&& self.state().wf()
        &&& self.state()@.sides_apart()
        &&& self.player_of_bot(0) == 0
        &&& self.player_of_bot(1) == 1
    }

    /// A game between policy `bot0` as player 0 and policy `bot1` as player 1,
    /// with the pieces where the policies place them: each player has the
    /// starting set, player 0 in rows 0 to 3 and player 1 in rows 6 to 9.
    pub fn new(bot0: Box<dyn Bot>, bot1: Box<dyn Bot>, max_turn_count: usize) -> (r: GameCoordinator)
        ensures
            r.wf(),
            r.max_turn_count() == max_turn_count,
            r.state()@.current_player_id == 0,
            r.state()@.turn_count == 0,
            exists|placement0: Seq<(Rank, Position)>, placement1: Seq<(Rank, Position)>|
                #![trigger placed(placement0), placed(placement1)]
                is_placement_in_rows(placement0, 0) && is_placement_in_rows(placement1, 6)
                    && has_starting_ranks(placement0) && has_starting_ranks(placement1)
                    && r.state()@ == StateView::initial(placed(placement0), placed(placement1)),
    {
        let mut bot0 = BotOrienter::new(bot0, 0);
        let mut bot1 = BotOrienter::new(bot1, 1);

        let placements0 = bot0.get_initial_placements();
        let placements1 = bot1.get_initial_placements();
        let state = State::new_with_placements(&[placements0.as_slice(), placements1.as_slice()]);
        proof {
            assert(is_placement_in_rows(placements0@, 0));
            assert(is_placement_in_rows(placements1@, 6));
            assert(state@ == StateView::initial(placed(placements0@), placed(placements1@)));
            lemma_rows_are_apart(placements0@, placements1@);
        }
        GameCoordinator { bots: [bot0, bot1], max_turn_count, state }
    }

    /// Plays the game to its end. In each turn the player to move loses if
    /// it has no move. Else its policy is shown the state, with the ranks
    /// of the enemy's unrevealed pieces hidden, and chooses an action. The
    /// player wins if the action captures the flag; else the turn is
    /// applied. The game is given up when the number of turns reaches the
    /// limit.
    pub fn play(&mut self) -> (outcome: Outcome)
        requires
            old(self).wf(),
        ensures
            final(self).wf(),
            final(self).max_turn_count() == old(self).max_turn_count(),
            is_outcome_of(final(self).state()@, final(self).max_turn_count(), outcome),
            exists|turns: Seq<Turn>|
                is_game(old(self).state()@, turns) && final(self).state()@
                    == #[trigger] turns_applied(old(self).state()@, turns),
    {
        let ghost mut turns: Seq<Turn> = Seq::empty();
        while self.state.turn_count < self.max_turn_count
            invariant
                self.wf(),
                self.max_turn_count == old(self).max_turn_count,
                is_game(old(self).state@, turns),
                self.state@ == turns_applied(old(self).state@, turns),
            decreases self.max_turn_count - self.state.turn_count,
        {
            let current_player_id: usize = self.state.current_player_id;
            let other_player_id: usize = (current_player_id + 1) % 2;

            // If the current player has no possible moves, then they immediately lose.
            let player_can_move = has_a_possible_move(
                pieces_as_slice(&self.state.pieces[current_player_id]),
                &self.state.bitmaps[current_player_id],
                &self.state.bitmaps[other_player_id],
            );

            if !player_can_move {
                assert(self.state()@ == turns_applied(old(self).state()@, turns));
                return Outcome::Win { winner: other_player_id, turn_count: self.state.turn_count };
            }
            // The policy sees the ranks of the opponent's pieces only where
            // they have been revealed.

            let obscured_state = obscure_state(&self.state, other_player_id);
            let action = self.bots[current_player_id].get_action(obscured_state);
            proof {
                lemma_first_piece_exists(
                    self.state@.pieces[current_player_id as int],
                    action.from,
                );
            }

            match resolve_action(&self.state, &action) {
                Resolution::FlagCaptured => {
                    assert(self.state()@ == turns_applied(old(self).state()@, turns));
                    return Outcome::Win {
                        winner: current_player_id,
                        turn_count: self.state.turn_count + 1,
                    };
                },
                Resolution::Turn(turn) => {
                    proof {
                        lemma_game_goes_on(old(self).state@, turns, turn);
                        turns = turns.push(turn);
                    }
                    self.state.update_with_turn(&turn);
                },
            }
        }
        Outcome::ReachedMaxTurnCount(self.max_turn_count)
    }
}

/// `outcome` is a way in which a game can end in `state` with the given
/// limit on the number of turns.
///
/// The game is given up when the limit is reached. A player wins after the
/// turns that were played when the other is to move and has no move. And a
/// player wins with its next turn when it is to move and an action that is
/// legal for it leads onto the enemy's flag.
pub open spec fn is_outcome_of(state: StateView, max_turn_count: usize, outcome: Outcome) -> bool {
    let id = state.current_player_id as int;
    match outcome {
        Outcome::ReachedMaxTurnCount(turn_count) => turn_count == max_turn_count
            && state.turn_count >= max_turn_count,
        Outcome::Win { winner, turn_count } => {
            &&& state.turn_count < max_turn_count
            &&& {
                ||| {
                    &&& winner == 1 - id
                    &&& turn_count == state.turn_count
                    &&& !spec_has_a_possible_move(state.pieces[id], state.cells[id])
                }
                ||| {
                    &&& winner == id
                    &&& turn_count == state.turn_count + 1
                    &&& exists|action: Action|
                        #![trigger state.piece_at(1 - id, action.to)]
                        is_legal(state.pieces[id], state.cells[id], state.cells[1 - id], action)
                            && has_piece_at(state.pieces[1 - id], action.to) && state.piece_at(
                            1 - id,
                            action.to,
                        ).rank == Rank::Flag
                }
            }
        },
    }
}

} // verus!
