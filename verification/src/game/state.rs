//! The state of a game and the turns that change it.

use vstd::prelude::*;
use tinyvec::ArrayVec;
use crate::boardbitmap::BoardBitmap;
use crate::game::logic::scout_max_steps_with_stepper;
use crate::game::logic::spec_scout_max_steps;
use crate::game::pieces::new_piece_list;
use crate::game::pieces::piece_list;
use crate::game::pieces::pieces_as_slice;
use crate::game::pieces::push_piece;
use crate::game::pieces::set_piece;
use crate::game::pieces::swap_remove_piece;
use crate::game::side::all_apart;
use crate::game::side::all_in_bounds;
use crate::game::side::all_stem_from;
use crate::game::side::bitmap_of;
use crate::game::side::cells_of;
use crate::game::side::find_piece;
use crate::game::side::first_piece_at;
use crate::game::side::has_origin;
use crate::game::side::has_piece_at;
use crate::game::side::lemma_battle_hides_nothing;
use crate::game::side::lemma_battle_keeps_side_wf;
use crate::game::side::lemma_move_hides_nothing;
use crate::game::side::lemma_move_keeps_side_wf;
use crate::game::side::lemma_piece_at_is_occupied_cell;
use crate::game::side::lemma_stems_from_is_transitive;
use crate::game::side::lemma_turned_keeps_side_wf;
use crate::game::side::lemma_turned_twice;
use crate::game::side::occupied_cell;
use crate::game::side::side_is_well_formed;
use crate::game::side::side_wf;
use crate::game::side::stems_from;
use crate::game::side::turned;
use crate::game::side::with_battle_outcome;
use crate::game::side::with_piece_moved;
use crate::game::Action;
use crate::game::Position;
use crate::game::Rank;

verus! {

/// A piece on the board.
#[derive(Clone, Copy, Debug, PartialEq, Eq, Structural)]
pub struct Piece {
    pub pos: Position,
    pub rank: Rank,
    pub has_moved: bool,
    pub is_revealed: bool,
}

impl Default for Piece {
    fn default() -> (r: Piece)
        ensures
            r == (Piece {
                pos: Position { x: 0, y: 0 },
                rank: Rank::Unknown,
                has_moved: false,
                is_revealed: false,
            }),
    {
        Piece {
            pos: Position { x: 0, y: 0 },
            rank: Rank::Unknown,
            has_moved: false,
            is_revealed: false,
        }
    }
}

/// Why an action is not legal. The first rule that an action breaks, in the
/// order of the variants, is the one reported.
#[derive(Clone, Copy, Debug, PartialEq, Eq, Structural)]
pub enum ActionError {
    NoFriendlyPieceOnFromPosition,
    FriendlyPieceIsNotMoveable,
    ToPositionOccpuiedByFriend,
    ToPositionIsAnInvalidMapPosition,
    MovementIsNotStraight,
    InvalidMovementDistance,
}

impl ActionError {
    /// The name of the error.
    pub open spec fn spec_name(self) -> Seq<char> {
        match self {
            ActionError::NoFriendlyPieceOnFromPosition => "NoFriendlyPieceOnFromPosition"@,
            ActionError::FriendlyPieceIsNotMoveable => "FriendlyPieceIsNotMoveable"@,
            ActionError::ToPositionOccpuiedByFriend => "ToPositionOccpuiedByFriend"@,
            ActionError::ToPositionIsAnInvalidMapPosition => "ToPositionIsAnInvalidMapPosition"@,
            ActionError::MovementIsNotStraight => "MovementIsNotStraight"@,
            ActionError::InvalidMovementDistance => "InvalidMovementDistance"@,
        }
    }

    /// The error as text: its name.
    pub fn to_string(&self) -> (r: String)
        ensures
            r@ == self.spec_name(),
    {
        let name = match self {
            ActionError::NoFriendlyPieceOnFromPosition => "NoFriendlyPieceOnFromPosition",
            ActionError::FriendlyPieceIsNotMoveable => "FriendlyPieceIsNotMoveable",
            ActionError::ToPositionOccpuiedByFriend => "ToPositionOccpuiedByFriend",
            ActionError::ToPositionIsAnInvalidMapPosition => "ToPositionIsAnInvalidMapPosition",
            ActionError::MovementIsNotStraight => "MovementIsNotStraight",
            ActionError::InvalidMovementDistance => "InvalidMovementDistance",
        };
        name.to_owned()
    }
}

/// The outcome of a fight. Both arrays are indexed by player: `ranks[p]` is
/// the rank of the piece of player `p`, `has_died[p]` says whether it died.
#[derive(Clone, Copy, Debug)]
pub struct Battle {
    pub ranks: [Rank; 2],
    pub has_died: [bool; 2],
}

/// One move of one player, with the fight that it led to, if any.
#[derive(Clone, Copy, Debug)]
pub struct Turn {
    pub player_id: usize,
    pub action: Action,
    pub battle: Option<Battle>,
}

/// The state of a game as a value of mathematics: whose turn it is, how many
/// turns were played, and for each of the two players the list of its
/// pieces and the occupancy of the 100 cells.
pub struct StateView {
    pub current_player_id: usize,
    pub turn_count: usize,
    pub pieces: Seq<Seq<Piece>>,
    pub cells: Seq<Seq<bool>>,
}

/// The state of a game. Each player has a list of pieces and a bitmap of
/// the cells that they stand on; the two always agree.
#[derive(Clone, Copy, Debug)]
pub struct State {
    pub current_player_id: usize,
    pub turn_count: usize,
    pub pieces: [ArrayVec<[Piece; 8]>; 2],
    pub bitmaps: [BoardBitmap; 2],
}

impl View for State {
    type V = StateView;

    open spec fn view(&self) -> StateView {
        StateView {
            current_player_id: self.current_player_id,
            turn_count: self.turn_count,
            pieces: seq![piece_list(self.pieces[0]), piece_list(self.pieces[1])],
            cells: seq![self.bitmaps[0]@, self.bitmaps[1]@],
        }
    }
}

/// The pieces of a starting placement: none has moved, none is revealed.
pub open spec fn placed(placement: Seq<(Rank, Position)>) -> Seq<Piece> {
    Seq::new(
        placement.len(),
        |i: int|
            Piece {
                pos: placement[i].1,
                rank: placement[i].0,
                has_moved: false,
                is_revealed: false,
            },
    )
}

/// The first rule that `action` breaks for the side with the pieces
/// `friends`, whose bitmap is `friend` and whose opponent's is `enemy`, or
/// `None` for a legal action. In this order: a piece of the side stands at
/// the start; it is of a rank that moves; no piece of the side stands at the
/// destination; the destination is a valid map position; the move is
/// straight; and it goes one step, or for a scout no further than the scout
/// can slide in its direction.
pub open spec fn action_error(
    friends: Seq<Piece>,
    friend: Seq<bool>,
    enemy: Seq<bool>,
    action: Action,
) -> Option<ActionError> {
    let mover = friends[first_piece_at(friends, action.from)];
    if !has_piece_at(friends, action.from) {
        Some(ActionError::NoFriendlyPieceOnFromPosition)
    } else if !mover.rank.spec_is_moveable() {
        Some(ActionError::FriendlyPieceIsNotMoveable)
    } else if has_piece_at(friends, action.to) {
        Some(ActionError::ToPositionOccpuiedByFriend)
    } else if !action.to.spec_is_valid_map_position() {
        Some(ActionError::ToPositionIsAnInvalidMapPosition)
    } else if !action.is_straight() {
        Some(ActionError::MovementIsNotStraight)
    } else if (if mover.rank == Rank::Scout {
        action.spec_distance() > spec_scout_max_steps(
            action.from,
            action.spec_direction(),
            friend,
            enemy,
        )
    } else {
        action.spec_distance() != 1
    }) {
        Some(ActionError::InvalidMovementDistance)
    } else {
        None
    }
}

impl StateView {
    /// The invariant of a game: it is the turn of player 0 or 1, and for
    /// each player the pieces and the bitmap agree as `side_wf` says.
    pub open spec fn wf(self) -> bool {
        &&& self.current_player_id < 2
        &&& self.pieces.len() == 2
        &&& self.cells.len() == 2
        &&& side_wf(self.pieces[0], self.cells[0])
        &&& side_wf(self.pieces[1], self.cells[1])
    }

    /// The state before the first turn, with the given pieces.
    pub open spec fn initial(pieces0: Seq<Piece>, pieces1: Seq<Piece>) -> StateView {
        StateView {
            current_player_id: 0,
            turn_count: 0,
            pieces: seq![pieces0, pieces1],
            cells: seq![cells_of(pieces0), cells_of(pieces1)],
        }
    }
}

impl State {
    /// The invariant of a game holds of this state.
    pub open spec fn wf(&self) -> bool {
        self@.wf()
    }

    /// Whether the invariant of a game holds of this state.
    pub fn is_well_formed(&self) -> (r: bool)
        ensures
            r == self.wf(),
    {
        self.current_player_id < 2 && side_is_well_formed(
            pieces_as_slice(&self.pieces[0]),
            &self.bitmaps[0],
        ) && side_is_well_formed(pieces_as_slice(&self.pieces[1]), &self.bitmaps[1])
    }

    /// The state before the first turn, with the pieces of each player
    /// where its placement puts them.
    pub fn new_with_placements(placements: &[&[(Rank, Position)]; 2]) -> (state: State)
        requires
            forall|id: int|
                0 <= id < 2 ==> (#[trigger] placements[id])@.len() <= 8 && all_in_bounds(
                    placed(placements[id]@),
                ),
        ensures
            state@ == StateView::initial(placed(placements[0]@), placed(placements[1]@)),
            state.wf() <==> all_apart(placed(placements[0]@)) && all_apart(
                placed(placements[1]@),
            ),
    {
        let pieces0 = State::place(placements[0]);
        let pieces1 = State::place(placements[1]);
        let bitmap0 = bitmap_of(pieces_as_slice(&pieces0));
        let bitmap1 = bitmap_of(pieces_as_slice(&pieces1));
        let state = State {
            current_player_id: 0,
            turn_count: 0,
            pieces: [pieces0, pieces1],
            bitmaps: [bitmap0, bitmap1],
        };
        assert(state@.pieces =~= seq![placed(placements[0]@), placed(placements[1]@)]);
        assert(state@.cells =~= seq![
            cells_of(placed(placements[0]@)),
            cells_of(placed(placements[1]@)),
        ]);
        state
    }

    /// The list of the pieces of one placement.
    fn place(placement: &[(Rank, Position)]) -> (list: ArrayVec<[Piece; 8]>)
        requires
            placement@.len() <= 8,
        ensures
            piece_list(list) == placed(placement@),
    {
        let mut list = new_piece_list();
        let mut i: usize = 0;
        while i < placement.len()
            invariant
                i <= placement.len() <= 8,
                piece_list(list) == placed(placement@).take(i as int),
            decreases placement.len() - i,
        {
            let (rank, pos) = placement[i];
            push_piece(&mut list, Piece { pos, rank, has_moved: false, is_revealed: false });
            assert(piece_list(list) =~= placed(placement@).take(i + 1));
            i += 1;
        }
        assert(placed(placement@).take(i as int) =~= placed(placement@));
        list
    }
}

impl StateView {
    /// The state after the piece of player `id` at `from` has gone to `to`.
    pub open spec fn piece_moved(self, id: int, from: Position, to: Position) -> StateView {
        StateView {
            current_player_id: self.current_player_id,
            turn_count: self.turn_count,
            pieces: self.pieces.update(id, with_piece_moved(self.pieces[id], from, to)),
            cells: self.cells.update(
                id,
                self.cells[id].update(from.spec_to_bit_index(), false).update(
                    to.spec_to_bit_index(),
                    true,
                ),
            ),
        }
    }

    /// The state after the piece of player `id` at `at` has fought.
    pub open spec fn battle_settled(self, id: int, at: Position, died: bool) -> StateView {
        StateView {
            current_player_id: self.current_player_id,
            turn_count: self.turn_count,
            pieces: self.pieces.update(id, with_battle_outcome(self.pieces[id], at, died)),
            cells: self.cells.update(id, self.cells[id].update(at.spec_to_bit_index(), !died)),
        }
    }

    /// A turn can be applied to the state: the player is 0 or 1 and has a
    /// piece at the start of the move; the destination is on the board and
    /// free of the player's own pieces; where a fight is attached, a piece
    /// of the other player stands at the destination; and the count of
    /// turns can still grow.
    pub open spec fn accepts(self, turn: Turn) -> bool {
        let id = turn.player_id as int;
        &&& turn.player_id < 2
        &&& self.turn_count < usize::MAX
        &&& has_piece_at(self.pieces[id], turn.action.from)
        &&& turn.action.to.in_bounds()
        &&& !has_piece_at(self.pieces[id], turn.action.to)
        &&& turn.battle is Some ==> has_piece_at(self.pieces[1 - id], turn.action.to)
    }

    /// No cell is held by both players.
    pub open spec fn sides_apart(self) -> bool {
        forall|cell: int|
            0 <= cell < 100 ==> !(self.cells[0][cell] && (#[trigger] self.cells[1][cell]))
    }

    /// The turn is one that the rules lead to: a fight is attached exactly
    /// when a piece of the other player stands at the destination, and no
    /// fight leaves both pieces alive.
    pub open spec fn is_sound_turn(self, turn: Turn) -> bool {
        &&& turn.battle is Some <==> has_piece_at(
            self.pieces[1 - turn.player_id],
            turn.action.to,
        )
        &&& turn.battle matches Some(battle) ==> battle.has_died[0] || battle.has_died[1]
    }

    /// The state after a turn. The piece goes to its destination. Where a
    /// fight is attached, the pieces of both players at the destination are
    /// revealed, and each that died is taken from its list and its bitmap.
    /// Then the count of turns grows by one and the other player is to move.
    pub open spec fn turn_applied(self, turn: Turn) -> StateView {
        let to = turn.action.to;
        let moved = self.piece_moved(turn.player_id as int, turn.action.from, to);
        let fought = match turn.battle {
            Some(battle) => moved.battle_settled(0, to, battle.has_died[0]).battle_settled(
                1,
                to,
                battle.has_died[1],
            ),
            None => moved,
        };
        StateView {
            current_player_id: ((turn.player_id + 1) % 2) as usize,
            turn_count: (self.turn_count + 1) as usize,
            pieces: fought.pieces,
            cells: fought.cells,
        }
    }

    /// The state seen from the opposite side of the board: the players
    /// change places, and every piece and every cell goes where a half turn
    /// of the board takes it.
    pub open spec fn spec_reversed(self) -> StateView {
        StateView {
            current_player_id: self.current_player_id,
            turn_count: self.turn_count,
            pieces: seq![turned(self.pieces[1]), turned(self.pieces[0])],
            cells: seq![self.cells[1].reverse(), self.cells[0].reverse()],
        }
    }

    /// The first rule that `action` breaks for player `id`, if any.
    pub open spec fn action_error_of(self, id: int, action: Action) -> Option<ActionError> {
        action_error(self.pieces[id], self.cells[id], self.cells[1 - id], action)
    }

    /// The first rule that `action` breaks for the player whose turn it is.
    pub open spec fn spec_validate_action(self, action: Action) -> Option<ActionError> {
        self.action_error_of(self.current_player_id as int, action)
    }
}

/// Every turn that a state accepts leads from a state in which the pieces
/// and the bitmaps agree to another such state.
pub proof fn lemma_turn_keeps_wf(state: StateView, turn: Turn)
    requires
        state.wf(),
        state.accepts(turn),
    ensures
        state.turn_applied(turn).wf(),
{
    let id = turn.player_id as int;
    let to = turn.action.to;
    lemma_move_keeps_side_wf(state.pieces[id], state.cells[id], turn.action.from, to);
    let moved = state.piece_moved(id, turn.action.from, to);
    assert(moved.wf());
    match turn.battle {
        Some(battle) => {
            assert(has_piece_at(moved.pieces[0], to));
            lemma_battle_keeps_side_wf(moved.pieces[0], moved.cells[0], to, battle.has_died[0]);
            let first = moved.battle_settled(0, to, battle.has_died[0]);
            assert(first.wf());
            assert(first.pieces[1] == moved.pieces[1]);
            lemma_battle_keeps_side_wf(first.pieces[1], first.cells[1], to, battle.has_died[1]);
        },
        None => {},
    }
}

/// A turn brings no new piece and hides none: every piece on the board
/// after the turn was there before it with the same rank, revealed if it
/// was revealed. And what has fought is revealed for good: after a turn
/// with a fight, the pieces at the destination are revealed.
pub proof fn lemma_turn_never_hides(state: StateView, turn: Turn, id: int)
    requires
        state.wf(),
        state.accepts(turn),
        0 <= id < 2,
    ensures
        all_stem_from(state.turn_applied(turn).pieces[id], state.pieces[id]),
        turn.battle is Some ==> forall|i: int|
            0 <= i < state.turn_applied(turn).pieces[id].len() && (
            #[trigger] state.turn_applied(turn).pieces[id][i]).pos == turn.action.to
                ==> state.turn_applied(turn).pieces[id][i].is_revealed,
{
    let mover = turn.player_id as int;
    let from = turn.action.from;
    let to = turn.action.to;
    let before = state.pieces[id];
    let moved = state.piece_moved(mover, from, to);
    lemma_move_keeps_side_wf(state.pieces[mover], state.cells[mover], from, to);
    if id == mover {
        lemma_move_hides_nothing(before, from, to);
    } else {
        assert forall|i: int| 0 <= i < before.len() implies has_origin(
            #[trigger] before[i],
            before,
        ) by {
            assert(stems_from(before[i], before[i]));
        }
    }
    assert(all_stem_from(moved.pieces[id], before));
    match turn.battle {
        Some(battle) => {
            lemma_battle_keeps_side_wf(moved.pieces[0], moved.cells[0], to, battle.has_died[0]);
            let first = moved.battle_settled(0, to, battle.has_died[0]);
            assert(first.pieces[1] == moved.pieces[1]);
            lemma_battle_hides_nothing(moved.pieces[id], to, battle.has_died[id]);
            let after = state.turn_applied(turn).pieces[id];
            assert(after == with_battle_outcome(moved.pieces[id], to, battle.has_died[id]));
            lemma_stems_from_is_transitive(after, moved.pieces[id], before);
        },
        None => {},
    }
}

/// Seen from the other side and back again, the state is the same.
pub proof fn lemma_reversed_twice(state: StateView)
    requires
        state.wf(),
    ensures
        state.spec_reversed().spec_reversed() == state,
{
    lemma_turned_twice(state.pieces[0]);
    lemma_turned_twice(state.pieces[1]);
    let back = state.spec_reversed().spec_reversed();
    assert(state.cells[0].reverse().reverse() =~= state.cells[0]);
    assert(state.cells[1].reverse().reverse() =~= state.cells[1]);
    assert(back.pieces =~= state.pieces);
    assert(back.cells =~= state.cells);
}

/// A turn that the rules lead to never leaves two pieces on one cell.
pub proof fn lemma_turn_keeps_sides_apart(state: StateView, turn: Turn)
    requires
        state.wf(),
        state.accepts(turn),
        state.sides_apart(),
        state.is_sound_turn(turn),
    ensures
        state.turn_applied(turn).sides_apart(),
{
    let id = turn.player_id as int;
    let to = turn.action.to;
    let after = state.turn_applied(turn);
    lemma_piece_at_is_occupied_cell(state.pieces[1 - id], to);
    assert forall|cell: int| 0 <= cell < 100 implies !(after.cells[0][cell] && (
    #[trigger] after.cells[1][cell])) by {
        assert(!(state.cells[0][cell] && state.cells[1][cell]));
    }
}

/// The state after each turn of a sequence, applied in order.
pub open spec fn turns_applied(state: StateView, turns: Seq<Turn>) -> StateView
    decreases turns.len(),
{
    if turns.len() == 0 {
        state
    } else {
        turns_applied(state, turns.drop_last()).turn_applied(turns.last())
    }
}

/// Each turn of a sequence is accepted by the state that the turns before
/// it lead to.
pub open spec fn turns_accepted(state: StateView, turns: Seq<Turn>) -> bool {
    forall|n: int|
        0 <= n < turns.len() ==> (#[trigger] turns_applied(state, turns.take(n))).accepts(turns[n])
}

/// After any sequence of turns, the bitmap of each player has a cell set
/// exactly when a piece of its list stands on that cell.
pub proof fn lemma_turns_keep_wf(state: StateView, turns: Seq<Turn>)
    requires
        state.wf(),
        turns_accepted(state, turns),
    ensures
        turns_applied(state, turns).wf(),
        forall|id: int, cell: int|
            0 <= id < 2 && 0 <= cell < 100 ==> turns_applied(state, turns).cells[id][cell]
                == occupied_cell(turns_applied(state, turns).pieces[id], cell),
    decreases turns.len(),
{
    if turns.len() > 0 {
        let before = turns.drop_last();
        assert forall|n: int| 0 <= n < before.len() implies (#[trigger] turns_applied(
            state,
            before.take(n),
        )).accepts(before[n]) by {
            assert(before.take(n) =~= turns.take(n));
        }
        lemma_turns_keep_wf(state, before);
        assert(turns.take(turns.len() - 1) =~= before);
        lemma_turn_keeps_wf(turns_applied(state, before), turns.last());
    }
}

impl State {
    /// The list of one player's pieces after a half turn of the board.
    fn turn_pieces(pieces: &[Piece]) -> (list: ArrayVec<[Piece; 8]>)
        requires
            pieces@.len() <= 8,
            all_in_bounds(pieces@),
        ensures
            piece_list(list) == turned(pieces@),
    {
        let mut list = new_piece_list();
        let mut i: usize = 0;
        while i < pieces.len()
            invariant
                i <= pieces.len() <= 8,
                all_in_bounds(pieces@),
                piece_list(list) == turned(pieces@).take(i as int),
            decreases pieces.len() - i,
        {
            let piece = pieces[i];
            push_piece(
                &mut list,
                Piece {
                    pos: piece.pos.reversed(),
                    rank: piece.rank,
                    has_moved: piece.has_moved,
                    is_revealed: piece.is_revealed,
                },
            );
            assert(piece_list(list) =~= turned(pieces@).take(i + 1));
            i += 1;
        }
        assert(turned(pieces@).take(i as int) =~= turned(pieces@));
        list
    }

    /// The state seen from the opposite side of the board.
    pub fn reversed(&self) -> (r: State)
        requires
            all_in_bounds(self@.pieces[0]),
            all_in_bounds(self@.pieces[1]),
        ensures
            r@ == self@.spec_reversed(),
            self.wf() ==> r.wf(),
    {
        let r = State {
            current_player_id: self.current_player_id,
            turn_count: self.turn_count,
            pieces: [
                State::turn_pieces(pieces_as_slice(&self.pieces[1])),
                State::turn_pieces(pieces_as_slice(&self.pieces[0])),
            ],
            bitmaps: [self.bitmaps[1].reversed(), self.bitmaps[0].reversed()],
        };
        proof {
            assert(r@.pieces =~= self@.spec_reversed().pieces);
            assert(r@.cells =~= self@.spec_reversed().cells);
            if self.wf() {
                lemma_turned_keeps_side_wf(self@.pieces[0], self@.cells[0]);
                lemma_turned_keeps_side_wf(self@.pieces[1], self@.cells[1]);
            }
        }
        r
    }

    /// Whether `turn` can be applied to this state.
    pub fn accepts_turn(&self, turn: &Turn) -> (r: bool)
        ensures
            r == self@.accepts(*turn),
    {
        if turn.player_id >= 2 || self.turn_count == usize::MAX {
            return false;
        }
        let id: usize = turn.player_id;
        let own = pieces_as_slice(&self.pieces[id]);
        if find_piece(own, &turn.action.from).is_none() {
            return false;
        }
        if turn.action.to.x > 9 || turn.action.to.y > 9 {
            return false;
        }
        if find_piece(own, &turn.action.to).is_some() {
            return false;
        }
        if turn.battle.is_some() {
            let others = pieces_as_slice(&self.pieces[1 - id]);
            if find_piece(others, &turn.action.to).is_none() {
                return false;
            }
        }
        true
    }

    /// Settles a fight for the piece of player `id` at `at`: the piece is
    /// revealed, and taken from the board where it died.
    fn settle_battle(&mut self, id: usize, at: &Position, died: bool)
        requires
            id < 2,
            all_in_bounds(old(self)@.pieces[id as int]),
            has_piece_at(old(self)@.pieces[id as int], *at),
        ensures
            final(self)@ == old(self)@.battle_settled(id as int, *at, died),
    {
        let index: usize = find_piece(pieces_as_slice(&self.pieces[id]), at).unwrap();
        let mut piece = pieces_as_slice(&self.pieces[id])[index];
        piece.is_revealed = true;
        set_piece(&mut self.pieces[id], index, piece);
        self.bitmaps[id].set(at.to_bit_index(), !died);
        if died {
            swap_remove_piece(&mut self.pieces[id], index);
        }
        proof {
            let goal = old(self)@.battle_settled(id as int, *at, died);
            assert(self@.pieces =~= goal.pieces);
            assert(self@.cells =~= goal.cells);
        }
    }

    /// Applies a turn: moves the piece, settles the fight if there is one,
    /// counts the turn and hands the move to the other player.
    pub fn update_with_turn(&mut self, turn: &Turn)
        requires
            old(self).wf(),
            old(self)@.accepts(*turn),
        ensures
            final(self)@ == old(self)@.turn_applied(*turn),
            final(self).wf(),
            old(self)@.sides_apart() && old(self)@.is_sound_turn(*turn)
                ==> final(self)@.sides_apart(),
    {
        let id: usize = turn.player_id;
        let from = turn.action.from;
        let to = turn.action.to;
        proof {
            lemma_turn_keeps_wf(old(self)@, *turn);
            if old(self)@.sides_apart() && old(self)@.is_sound_turn(*turn) {
                lemma_turn_keeps_sides_apart(old(self)@, *turn);
            }
            lemma_move_keeps_side_wf(
                old(self)@.pieces[id as int],
                old(self)@.cells[id as int],
                from,
                to,
            );
        }
        self.bitmaps[id].set(from.to_bit_index(), false);
        self.bitmaps[id].set(to.to_bit_index(), true);

        let index: usize = find_piece(pieces_as_slice(&self.pieces[id]), &from).unwrap();
        let mut piece = pieces_as_slice(&self.pieces[id])[index];
        piece.pos = to;
        piece.has_moved = true;
        set_piece(&mut self.pieces[id], index, piece);
        let ghost moved = old(self)@.piece_moved(id as int, from, to);
        proof {
            assert(self@.pieces =~= moved.pieces);
            assert(self@.cells =~= moved.cells);
        }

        if let Some(battle) = turn.battle {
            proof {
                lemma_battle_keeps_side_wf(
                    moved.pieces[0],
                    moved.cells[0],
                    to,
                    battle.has_died[0],
                );
            }
            self.settle_battle(0, &to, battle.has_died[0]);
            self.settle_battle(1, &to, battle.has_died[1]);
        }
        self.turn_count += 1;
        self.current_player_id = (turn.player_id + 1) % 2;
    }
}

/// Checks `action` against the rules for the player whose turn it is, and
/// reports the first rule that it breaks.
pub fn validate_action(state: &State, action: &Action) -> (r: Result<(), ActionError>)
    requires
        state.current_player_id < 2,
    ensures
        r == match state@.spec_validate_action(*action) {
            Some(error) => Err::<(), ActionError>(error),
            None => Ok::<(), ActionError>(()),
        },
{
    let id: usize = state.current_player_id;
    let friends = pieces_as_slice(&state.pieces[id]);
    let friend = match find_piece(friends, &action.from) {
        Some(index) => friends[index],
        None => {
            return Err(ActionError::NoFriendlyPieceOnFromPosition);
        },
    };
    if !friend.rank.is_moveable() {
        return Err(ActionError::FriendlyPieceIsNotMoveable);
    }
    if find_piece(friends, &action.to).is_some() {
        return Err(ActionError::ToPositionOccpuiedByFriend);
    }
    if !action.to.is_valid_map_position() {
        return Err(ActionError::ToPositionIsAnInvalidMapPosition);
    }
    if !(action.from.x == action.to.x || action.from.y == action.to.y) {
        return Err(ActionError::MovementIsNotStraight);
    }
    let is_valid_movement_distance = if friend.rank == Rank::Scout {
        action.distance() <= scout_max_steps_with_stepper(
            action.direction().to_stepper(),
            &action.from,
            &state.bitmaps[id],
            &state.bitmaps[(id + 1) % 2],
        )
    } else {
        action.distance() == 1
    };
    if !is_valid_movement_distance {
        return Err(ActionError::InvalidMovementDistance);
    }
    Ok(())
}

} // verus!
