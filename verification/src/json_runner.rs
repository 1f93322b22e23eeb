//! The messages that a judge and a policy exchange, as plain data, and what
//! they mean for the state of the game. Reading and writing them as JSON is
//! left to the program that talks to the judge.

use vstd::prelude::*;
use vstd::std_specs::convert::FromSpecImpl;
use tinyvec::ArrayVec;
use crate::game::pieces::new_piece_list;
use crate::game::pieces::piece_list;
use crate::game::pieces::pieces_as_slice;
use crate::game::pieces::push_piece;
use crate::game::side::all_apart;
use crate::game::side::all_in_bounds;
use crate::game::side::bitmap_of;
use crate::game::Action;
use crate::game::Battle;
use crate::game::Piece;
use crate::game::Position;
use crate::game::Rank;
use crate::game::State;
use crate::game::StateView;
use crate::game::Turn;

verus! {

/// The first message of the judge: which player this side is.
pub struct PartialGameInitJson {
    pub you: usize,
}

/// A coordinate on the wire.
#[derive(Copy, Clone, Debug, PartialEq, Eq, Structural)]
pub struct PositionJson {
    pub x: u8,
    pub y: u8,
}

impl From<Position> for PositionJson {
    fn from(pos: Position) -> (r: Self) {
        Self { x: pos.x, y: pos.y }
    }
}

impl FromSpecImpl<Position> for PositionJson {
    open spec fn obeys_from_spec() -> bool {
        true
    }

    open spec fn from_spec(pos: Position) -> Self {
        PositionJson { x: pos.x, y: pos.y }
    }
}

impl From<PositionJson> for Position {
    fn from(pos: PositionJson) -> (r: Self) {
        Position { x: pos.x, y: pos.y }
    }
}

impl FromSpecImpl<PositionJson> for Position {
    open spec fn obeys_from_spec() -> bool {
        true
    }

    open spec fn from_spec(pos: PositionJson) -> Self {
        Position { x: pos.x, y: pos.y }
    }
}

/// A move on the wire.
#[derive(Clone, Copy, Debug, PartialEq, Eq, Structural)]
pub struct MoveCommandJson {
    pub from: PositionJson,
    pub to: PositionJson,
}

impl From<Action> for MoveCommandJson {
    fn from(action: Action) -> (r: Self) {
        MoveCommandJson { from: PositionJson::from(action.from), to: PositionJson::from(action.to) }
    }
}

impl FromSpecImpl<Action> for MoveCommandJson {
    open spec fn obeys_from_spec() -> bool {
        true
    }

    open spec fn from_spec(action: Action) -> Self {
        MoveCommandJson {
            from: PositionJson { x: action.from.x, y: action.from.y },
            to: PositionJson { x: action.to.x, y: action.to.y },
        }
    }
}

impl From<MoveCommandJson> for Action {
    fn from(mov: MoveCommandJson) -> (r: Self) {
        Action { from: Position::from(mov.from), to: Position::from(mov.to) }
    }
}

impl FromSpecImpl<MoveCommandJson> for Action {
    open spec fn obeys_from_spec() -> bool {
        true
    }

    open spec fn from_spec(mov: MoveCommandJson) -> Self {
        Action {
            from: Position { x: mov.from.x, y: mov.from.y },
            to: Position { x: mov.to.x, y: mov.to.y },
        }
    }
}

/// One of the two pieces of a fight on the wire.
#[derive(Clone, Copy, Debug)]
pub struct AttackerJson {
    pub player: usize,
    pub rank: Rank,
}

/// A fight on the wire: who attacked, who defended, where, and which player
/// won; no winner means that both pieces died.
#[derive(Clone, Copy, Debug)]
pub struct BattleResultJson {
    pub winner: Option<usize>,
    pub attacker: AttackerJson,
    pub defender: AttackerJson,
    pub position: PositionJson,
}

/// A cell of the board on the wire, with the piece on it, if any. The rank
/// is missing for a piece whose rank is hidden.
#[derive(Debug)]
pub struct TileJson {
    pub rank: Option<String>,
    pub owner: Option<usize>,
    pub is_water: bool,
    pub coordinate: PositionJson,
}

/// A snapshot of the game on the wire: the board, the player to move, and
/// the last move with the fight that it led to.
#[derive(Debug)]
pub struct GameStateJson {
    pub active_player: usize,
    pub turn_number: usize,
    pub board: Vec<TileJson>,
    pub last_move: Option<MoveCommandJson>,
    pub battle_result: Option<BattleResultJson>,
}

/// A starting piece on the wire.
#[derive(Clone, Copy, Debug)]
pub struct PlacementJson {
    pub rank: Rank,
    pub position: PositionJson,
}

/// The starting placement of a side on the wire.
#[derive(Debug)]
pub struct SetupBoardCommandJson {
    pub pieces: Vec<PlacementJson>,
}

impl SetupBoardCommandJson {
    /// The pieces on the wire are those of the placement, in their order.
    pub open spec fn describes(self, placement: Seq<(Rank, Position)>) -> bool {
        &&& self.pieces@.len() == placement.len()
        &&& forall|i: int|
            0 <= i < placement.len() ==> (#[trigger] self.pieces@[i]).rank == placement[i].0
                && self.pieces@[i].position == (PositionJson {
                x: placement[i].1.x,
                y: placement[i].1.y,
            })
    }
}

impl SetupBoardCommandJson {
    /// The placement as it goes over the wire.
    pub fn from(placement: Vec<(Rank, Position)>) -> (r: Self)
        ensures
            r.describes(placement@),
    {
        let mut pieces: Vec<PlacementJson> = Vec::new();
        let mut i: usize = 0;
        while i < placement.len()
            invariant
                i <= placement.len(),
                pieces@.len() == i,
                forall|j: int|
                    0 <= j < i ==> (#[trigger] pieces@[j]).rank == placement@[j].0
                        && pieces@[j].position == (PositionJson {
                        x: placement@[j].1.x,
                        y: placement@[j].1.y,
                    }),
            decreases placement.len() - i,
        {
            let (rank, pos) = placement[i];
            pieces.push(PlacementJson { rank, position: PositionJson::from(pos) });
            i += 1;
        }
        Self { pieces }
    }
}

impl BattleResultJson {
    /// The attacker is player 0 or 1, and so is the winner, if there is one.
    pub open spec fn spec_is_well_formed(&self) -> bool {
        &&& self.attacker.player < 2
        &&& self.winner matches Some(winner) ==> winner < 2
    }

    #[verifier::when_used_as_spec(spec_is_well_formed)]
    pub fn is_well_formed(&self) -> (r: bool)
        ensures
            r == self.spec_is_well_formed(),
    {
        self.attacker.player < 2 && match self.winner {
            Some(winner) => winner < 2,
            None => true,
        }
    }
}

impl Battle {
    /// `self` is the fight that the result on the wire describes: the
    /// attacker's rank stands at the attacker's player, the defender's rank
    /// at the other, and every piece has died but that of the winner.
    pub open spec fn is_from(self, battle: BattleResultJson) -> bool {
        let attacker = battle.attacker.player as int;
        &&& self.ranks[attacker] == battle.attacker.rank
        &&& self.ranks[1 - attacker] == battle.defender.rank
        &&& self.has_died[0] == (battle.winner != Some(0usize))
        &&& self.has_died[1] == (battle.winner != Some(1usize))
    }

    /// The fight that a result on the wire describes.
    pub fn from(battle: BattleResultJson) -> (r: Battle)
        requires
            battle.spec_is_well_formed(),
        ensures
            r.is_from(battle),
    {
        let ranks = if battle.attacker.player == 0 {
            [battle.attacker.rank, battle.defender.rank]
        } else {
            [battle.defender.rank, battle.attacker.rank]
        };
        let has_died = match battle.winner {
            None => [true, true],
            Some(winner) => if winner == 0 {
                [false, true]
            } else {
                [true, false]
            },
        };
        Battle { ranks, has_died }
    }
}

/// The piece that a tile of a snapshot shows: of the rank that the tile
/// names, or of unknown rank where it names none, and revealed where the
/// rank is known.
pub open spec fn tile_piece(tile: TileJson) -> Piece {
    let rank = match tile.rank {
        Some(name) => match Rank::spec_from_str(name@) {
            Some(rank) => rank,
            None => Rank::Unknown,
        },
        None => Rank::Unknown,
    };
    Piece {
        pos: Position { x: tile.coordinate.x, y: tile.coordinate.y },
        rank,
        has_moved: false,
        is_revealed: rank != Rank::Unknown,
    }
}

/// The pieces of player `id` that a board on the wire shows, in the order
/// of its tiles.
pub open spec fn tile_pieces(board: Seq<TileJson>, id: usize) -> Seq<Piece>
    decreases board.len(),
{
    if board.len() == 0 {
        Seq::empty()
    } else if board.last().owner == Some(id) {
        tile_pieces(board.drop_last(), id).push(tile_piece(board.last()))
    } else {
        tile_pieces(board.drop_last(), id)
    }
}

/// A board on the wire can be taken over: every piece belongs to player 0
/// or 1 and stands on the board, and no player has more than 8 pieces.
pub open spec fn board_fits(board: Seq<TileJson>) -> bool {
    &&& forall|i: int|
        0 <= i < board.len() ==> ((#[trigger] board[i]).owner matches Some(id) ==> id < 2
            && board[i].coordinate.x <= 9 && board[i].coordinate.y <= 9)
    &&& tile_pieces(board, 0).len() <= 8
    &&& tile_pieces(board, 1).len() <= 8
}

/// The pieces that a board shows grow with the board.
proof fn lemma_tile_pieces_grow(board: Seq<TileJson>, n: int, id: usize)
    requires
        0 <= n <= board.len(),
    ensures
        tile_pieces(board.take(n), id).len() <= tile_pieces(board, id).len(),
    decreases board.len() - n,
{
    if n < board.len() {
        lemma_tile_pieces_grow(board, n + 1, id);
        assert(board.take(n + 1).drop_last() =~= board.take(n));
    } else {
        assert(board.take(n) =~= board);
    }
}

/// The pieces that a board shows stand on the board where its tiles do.
proof fn lemma_tile_pieces_in_bounds(board: Seq<TileJson>, id: usize)
    requires
        forall|i: int|
            0 <= i < board.len() ==> ((#[trigger] board[i]).owner matches Some(id) ==> id < 2
                && board[i].coordinate.x <= 9 && board[i].coordinate.y <= 9),
    ensures
        all_in_bounds(tile_pieces(board, id)),
    decreases board.len(),
{
    if board.len() > 0 {
        let rest = board.drop_last();
        assert forall|i: int| 0 <= i < rest.len() implies ((#[trigger] rest[i]).owner matches Some(
            id,
        ) ==> id < 2 && rest[i].coordinate.x <= 9 && rest[i].coordinate.y <= 9) by {
            assert(rest[i] == board[i]);
        }
        lemma_tile_pieces_in_bounds(rest, id);
        assert(board.last() == board[board.len() - 1]);
    }
}

impl GameStateJson {
    /// The board of the snapshot can be taken over as a state.
    pub fn fits_the_board(&self) -> (r: bool)
        ensures
            r == board_fits(self.board@),
    {
        let mut counts: [usize; 2] = [0, 0];
        let mut i: usize = 0;
        assert(self.board@.take(0) =~= Seq::<TileJson>::empty());
        while i < self.board.len()
            invariant
                i <= self.board@.len(),
                counts[0] == tile_pieces(self.board@.take(i as int), 0).len(),
                counts[1] == tile_pieces(self.board@.take(i as int), 1).len(),
                counts[0] <= 8,
                counts[1] <= 8,
                forall|j: int|
                    0 <= j < i ==> ((#[trigger] self.board@[j]).owner matches Some(id) ==> id < 2
                        && self.board@[j].coordinate.x <= 9 && self.board@[j].coordinate.y <= 9),
            decreases self.board@.len() - i,
        {
            let tile = &self.board[i];
            proof {
                let next = self.board@.take(i + 1);
                assert(next.drop_last() =~= self.board@.take(i as int));
                assert(next.last() == *tile);
                lemma_tile_pieces_grow(self.board@, i + 1, 0);
                lemma_tile_pieces_grow(self.board@, i + 1, 1);
            }
            if let Some(id) = tile.owner {
                if id >= 2 || tile.coordinate.x > 9 || tile.coordinate.y > 9 {
                    return false;
                }
                if counts[id] == 8 {
                    return false;
                }
                counts[id] = counts[id] + 1;
            }
            i += 1;
        }
        assert(self.board@.take(i as int) =~= self.board@);
        true
    }

    /// The snapshot tells of a turn that was played: it has a last move, a
    /// fight that is well formed if it has one, and a player to move whose
    /// number can be counted on from.
    pub open spec fn spec_describes_turn(&self) -> bool {
        &&& self.last_move is Some
        &&& self.active_player < usize::MAX
        &&& self.battle_result matches Some(battle) ==> battle.spec_is_well_formed()
    }

    #[verifier::when_used_as_spec(spec_describes_turn)]
    pub fn describes_turn(&self) -> (r: bool)
        ensures
            r == self.spec_describes_turn(),
    {
        self.last_move.is_some() && self.active_player < usize::MAX && match self.battle_result {
            Some(battle) => battle.is_well_formed(),
            None => true,
        }
    }
}

impl Turn {
    /// `self` is the turn that led to the snapshot: the move is the last
    /// move, made by the player who is not to move now, with the fight of
    /// the snapshot.
    pub open spec fn is_from(self, state: GameStateJson) -> bool {
        &&& state.last_move matches Some(last_move)
        &&& self.player_id == (state.active_player + 1) % 2
        &&& self.action == (Action {
            from: Position { x: last_move.from.x, y: last_move.from.y },
            to: Position { x: last_move.to.x, y: last_move.to.y },
        })
        &&& self.battle is Some <==> state.battle_result is Some
        &&& self.battle matches Some(battle) ==> battle.is_from(state.battle_result->0)
    }

    /// The turn that led to a snapshot.
    pub fn from(state: GameStateJson) -> (r: Turn)
        requires
            state.spec_describes_turn(),
        ensures
            r.is_from(state),
    {
        let last_move = state.last_move.unwrap();

        let last_player_id: usize = (state.active_player + 1) % 2;

        Turn {
            player_id: last_player_id,
            action: Action::from(last_move),
            battle: match state.battle_result {
                Some(battle) => Some(Battle::from(battle)),
                None => None,
            },
        }
    }
}

impl State {
    /// The list of the pieces of player `id` on a board on the wire.
    fn pieces_from_tiles(board: &Vec<TileJson>, id: usize) -> (list: ArrayVec<[Piece; 8]>)
        requires
            tile_pieces(board@, id).len() <= 8,
        ensures
            piece_list(list) == tile_pieces(board@, id),
    {
        let mut list = new_piece_list();
        let mut i: usize = 0;
        assert(board@.take(0) =~= Seq::<TileJson>::empty());
        while i < board.len()
            invariant
                i <= board@.len(),
                tile_pieces(board@, id).len() <= 8,
                piece_list(list) == tile_pieces(board@.take(i as int), id),
            decreases board@.len() - i,
        {
            let tile = &board[i];
            proof {
                let next = board@.take(i + 1);
                assert(next.drop_last() =~= board@.take(i as int));
                assert(next.last() == *tile);
                lemma_tile_pieces_grow(board@, i + 1, id);
            }
            let owned = match tile.owner {
                Some(owner) => owner == id,
                None => false,
            };
            if owned {
                let named = match &tile.rank {
                    Some(name) => Rank::from_str(name.as_str()),
                    None => None,
                };
                let rank = match named {
                    Some(rank) => rank,
                    None => Rank::Unknown,
                };
                push_piece(
                    &mut list,
                    Piece {
                        pos: Position::from(tile.coordinate),
                        rank,
                        has_moved: false,
                        is_revealed: rank != Rank::Unknown,
                    },
                );
            }
            i += 1;
        }
        assert(board@.take(i as int) =~= board@);
        list
    }

    /// The state that a snapshot shows, taken as the start of a game: the
    /// pieces of each player stand where the tiles of the board show them,
    /// in the order of the tiles; no turn has been counted and player 0 is
    /// to move.
    pub fn new_from_json_state(state: &GameStateJson) -> (res: State)
        requires
            board_fits(state.board@),
        ensures
            res@ == StateView::initial(
                tile_pieces(state.board@, 0),
                tile_pieces(state.board@, 1),
            ),
            res.wf() <==> all_apart(tile_pieces(state.board@, 0)) && all_apart(
                tile_pieces(state.board@, 1),
            ),
    {
        let pieces0 = State::pieces_from_tiles(&state.board, 0);
        let pieces1 = State::pieces_from_tiles(&state.board, 1);
        proof {
            lemma_tile_pieces_in_bounds(state.board@, 0);
            lemma_tile_pieces_in_bounds(state.board@, 1);
        }
        let bitmap0 = bitmap_of(pieces_as_slice(&pieces0));
        let bitmap1 = bitmap_of(pieces_as_slice(&pieces1));
        let res = State {
            current_player_id: 0,
            turn_count: 0,
            pieces: [pieces0, pieces1],
            bitmaps: [bitmap0, bitmap1],
        };
        proof {
            let goal = StateView::initial(
                tile_pieces(state.board@, 0),
                tile_pieces(state.board@, 1),
            );
            assert(res@.pieces =~= goal.pieces);
            assert(res@.cells =~= goal.cells);
        }
        res
    }
}

} // verus!
