//! Policies that choose the moves of a player, and the adapter that lets a
//! policy play from either side of the board.

use vstd::prelude::*;
use vstd::std_specs::vec::axiom_spec_into_iter;
use rand_xoshiro::Xoshiro256StarStar;
use crate::game::legality::is_legal;
use crate::game::legality::lemma_generated_iff_legal;
use crate::game::legality::lemma_has_move_iff_some_legal;
use crate::game::logic::all_possible_moves;
use crate::game::logic::spec_all_possible_moves;
use crate::game::logic::spec_has_a_possible_move;
use crate::game::pieces::pieces_as_slice;
use crate::game::position::lemma_reversed_is_involutive;
use crate::game::side::all_in_bounds;
use crate::game::side::first_piece_at;
use crate::game::side::lemma_first_piece_exists;
use crate::game::side::lemma_turned_keeps_side_wf;
use crate::game::symmetry::lemma_action_error_turns;
use crate::game::symmetry::lemma_has_move_turns;
use crate::game::Action;
use crate::game::Piece;
use crate::game::Position;
use crate::game::Rank;
use crate::game::State;
use crate::game::STARTING_RANKS;
use crate::reservoir_sample::generator_seeded_with;
use crate::reservoir_sample::is_selection;
use crate::reservoir_sample::random_below;
use crate::reservoir_sample::reservoir_sample;
use crate::reservoir_sample::seeded_generator;

verus! {

/// A placement of at most 8 pieces on different cells of the rows from
/// `first_row` to `first_row + 3`.
pub open spec fn is_placement_in_rows(placement: Seq<(Rank, Position)>, first_row: int) -> bool {
    &&& placement.len() <= 8
    &&& forall|i: int|
        0 <= i < placement.len() ==> (#[trigger] placement[i]).1.x <= 9 && first_row
            <= placement[i].1.y <= first_row + 3
    &&& forall|i: int, j: int|
        0 <= i < j < placement.len() ==> (#[trigger] placement[i]).1 != (#[trigger] placement[j]).1
}

/// A placement on the four rows nearest to the player who places: rows 0 to
/// 3, as every policy sees the board.
pub open spec fn is_home_placement(placement: Seq<(Rank, Position)>) -> bool {
    is_placement_in_rows(placement, 0)
}

/// The ranks of the pieces of a placement, in its order.
pub open spec fn ranks_of(placement: Seq<(Rank, Position)>) -> Seq<Rank> {
    Seq::new(placement.len(), |i: int| placement[i].0)
}

/// The pieces of the placement are exactly the pieces that a side starts
/// with: each starting rank as often as the starting set has it, in any
/// order.
pub open spec fn has_starting_ranks(placement: Seq<(Rank, Position)>) -> bool {
    ranks_of(placement).to_multiset() == STARTING_RANKS@.to_multiset()
}

/// A placement of the starting set has 8 pieces.
pub proof fn lemma_starting_ranks_are_eight(placement: Seq<(Rank, Position)>)
    requires
        has_starting_ranks(placement),
    ensures
        placement.len() == 8,
{
    ranks_of(placement).to_multiset_ensures();
    STARTING_RANKS@.to_multiset_ensures();
}

/// The placement as it stands on the board for a player: turned to the
/// other side of the board for player 1, as it is for any other.
pub open spec fn spec_orient_placements(
    placement: Seq<(Rank, Position)>,
    player_id: usize,
) -> Seq<(Rank, Position)> {
    if player_id == 1 {
        Seq::new(placement.len(), |i: int| (placement[i].0, placement[i].1.spec_reversed()))
    } else {
        placement
    }
}

/// Turning a home placement puts the same pieces on different cells of the
/// rows 6 to 9.
pub proof fn lemma_oriented_placement(placement: Seq<(Rank, Position)>, player_id: usize)
    requires
        is_home_placement(placement),
    ensures
        is_placement_in_rows(
            spec_orient_placements(placement, player_id),
            if player_id == 1 {
                6
            } else {
                0
            },
        ),
        ranks_of(spec_orient_placements(placement, player_id)) == ranks_of(placement),
{
    let turned = spec_orient_placements(placement, player_id);
    assert(ranks_of(turned) =~= ranks_of(placement));
    if player_id == 1 {
        assert forall|a: int, b: int| 0 <= a < b < turned.len() implies (#[trigger] turned[a]).1
            != (#[trigger] turned[b]).1 by {
            assert(placement[a].1 != placement[b].1);
            lemma_reversed_is_involutive(placement[a].1);
            lemma_reversed_is_involutive(placement[b].1);
        }
        assert forall|i: int| 0 <= i < turned.len() implies (#[trigger] turned[i]).1.x <= 9 && 6
            <= turned[i].1.y <= 9 by {
            assert(placement[i].1.y <= 3);
        }
    }
}

/// The placement of a policy as it stands on the board for a player: each
/// piece goes to the cell that a half turn of the board takes it to for
/// player 1, and stays where it is for any other.
pub fn orient_placements(placements: Vec<(Rank, Position)>, player_id: usize) -> (oriented: Vec<
    (Rank, Position),
>)
    requires
        player_id == 1 ==> forall|i: int|
            0 <= i < placements@.len() ==> (#[trigger] placements@[i]).1.in_bounds(),
    ensures
        oriented@ == spec_orient_placements(placements@, player_id),
{
    if player_id == 1 {
        let mut turned: Vec<(Rank, Position)> = Vec::new();
        let mut i: usize = 0;
        while i < placements.len()
            invariant
                i <= placements.len(),
                forall|j: int|
                    0 <= j < placements@.len() ==> (#[trigger] placements@[j]).1.in_bounds(),
                turned@.len() == i,
                forall|j: int|
                    0 <= j < i ==> (#[trigger] turned@[j]) == (
                        placements@[j].0,
                        placements@[j].1.spec_reversed(),
                    ),
            decreases placements.len() - i,
        {
            let (rank, pos) = placements[i];
            turned.push((rank, pos.reversed()));
            i += 1;
        }
        assert(turned@ =~= spec_orient_placements(placements@, player_id));
        return turned;
    }
    placements
}

/// A policy that plays one side of the game. It sees the board from its own
/// side: its pieces are those of player 0 in every state that it is shown,
/// and its rows are the rows 0 to 3.
pub trait Bot {
    /// The pieces to start with: exactly the starting set, each piece on a
    /// cell of its own in the policy's four rows.
    fn get_initial_placements(&mut self) -> (placements: Vec<(Rank, Position)>)
        ensures
            is_home_placement(placements@),
            has_starting_ranks(placements@),
    ;

    /// The next move in `state`, in which the policy has a move: an action
    /// that is legal for player 0.
    fn get_action(&mut self, state: State) -> (action: Action)
        requires
            state.wf(),
            spec_has_a_possible_move(state@.pieces[0], state@.cells[0]),
        ensures
            is_legal(state@.pieces[0], state@.cells[0], state@.cells[1], action),
    ;
}

/// Lets a policy play as either player: for player 1 it shows the policy
/// the board from the other side and turns what the policy answers back.
pub struct BotOrienter {
    player_id: usize,
    bot: Box<dyn Bot>,
}

impl BotOrienter {
    /// The player for whom the policy plays.
    pub closed spec fn player(&self) -> usize {
        self.player_id
    }

    /// The side of the board on which the policy's pieces stand: that of
    /// player 1 for player 1, and that of player 0 for any other.
    pub open spec fn side(&self) -> int {
        if self.player() == 1 {
            1
        } else {
            0
        }
    }

    /// Lets `bot` play for player `player_id`.
    pub fn new(bot: Box<dyn Bot>, player_id: usize) -> (r: Self)
        ensures
            r.player() == player_id,
    {
        BotOrienter { player_id, bot }
    }

    /// The policy's starting pieces where they stand on the board: what the
    /// policy places in its own rows, turned to the rows 6 to 9 for player
    /// 1. They are the starting set, each piece on a cell of its own.
    pub fn get_initial_placements(&mut self) -> (placements: Vec<(Rank, Position)>)
        ensures
            final(self).player() == old(self).player(),
            is_placement_in_rows(placements@, 6 * old(self).side()),
            has_starting_ranks(placements@),
            exists|placed: Seq<(Rank, Position)>|
                is_home_placement(placed) && has_starting_ranks(placed) && placements@
                    == #[trigger] spec_orient_placements(placed, old(self).player()),
    {
        let placements = self.bot.get_initial_placements();
        proof {
            lemma_oriented_placement(placements@, self.player_id);
        }
        orient_placements(placements, self.player_id)
    }

    /// The policy's next move in `state`, in which its player has a move:
    /// an action that is legal for that player.
    pub fn get_action(&mut self, state: State) -> (action: Action)
        requires
            state.wf(),
            spec_has_a_possible_move(
                state@.pieces[old(self).side()],
                state@.cells[old(self).side()],
            ),
        ensures
            final(self).player() == old(self).player(),
            is_legal(
                state@.pieces[old(self).side()],
                state@.cells[old(self).side()],
                state@.cells[1 - old(self).side()],
                action,
            ),
    {
        if self.player_id == 1 {
            let turned = state.reversed();
            proof {
                lemma_has_move_turns(state@.pieces[1], state@.cells[1]);
                lemma_turned_keeps_side_wf(state@.pieces[1], state@.cells[1]);
            }
            let action = self.bot.get_action(turned);
            proof {
                lemma_first_piece_exists(turned@.pieces[0], action.from);
                let i = first_piece_at(turned@.pieces[0], action.from);
                assert(turned@.pieces[0][i].pos.in_bounds());
                lemma_action_error_turns(
                    state@.pieces[1],
                    state@.cells[1],
                    state@.cells[0],
                    action,
                );
            }
            action.reversed()
        } else {
            self.bot.get_action(state)
        }
    }
}

/// One of the items of `elems`, chosen at random.
pub fn pick_randomly<'a, T>(rng: &mut Xoshiro256StarStar, elems: &'a [T]) -> (r: &'a T)
    requires
        elems@.len() > 0,
    ensures
        elems@.contains(*r),
{
    let idx: usize = random_below(rng, elems.len());
    &elems[idx]
}

/// The cell at place `i` of the four home rows, taken column by column.
pub open spec fn home_position(i: int) -> Position {
    Position { x: (i / 4) as u8, y: (i % 4) as u8 }
}

/// The 40 cells of the four home rows, column by column.
pub fn home_positions() -> (all: Vec<Position>)
    ensures
        all@.len() == 40,
        forall|i: int| 0 <= i < 40 ==> #[trigger] all@[i] == home_position(i),
{
    let mut all: Vec<Position> = Vec::new();
    let mut x: u8 = 0;
    while x < 10
        invariant
            x <= 10,
            all@.len() == 4 * x,
            forall|i: int| 0 <= i < all@.len() ==> #[trigger] all@[i] == home_position(i),
        decreases 10 - x,
    {
        let mut y: u8 = 0;
        while y < 4
            invariant
                x < 10,
                y <= 4,
                all@.len() == 4 * x + y,
                forall|i: int| 0 <= i < all@.len() ==> #[trigger] all@[i] == home_position(i),
            decreases 4 - y,
        {
            all.push(Position { x, y });
            y += 1;
        }
        x += 1;
    }
    all
}

/// A random placement of pieces of the given ranks, in their order, on
/// different cells of the four home rows. There is a cell for each of the
/// first 40 ranks.
pub fn random_placement(rng: &mut Xoshiro256StarStar, ranks: &[Rank]) -> (placements: Vec<
    (Rank, Position),
>)
    ensures
        placements@.len() == if ranks@.len() < 40 {
            ranks@.len()
        } else {
            40
        },
        forall|i: int| 0 <= i < placements@.len() ==> (#[trigger] placements@[i]).0 == ranks@[i],
        forall|i: int|
            0 <= i < placements@.len() ==> (#[trigger] placements@[i]).1.x <= 9
                && placements@[i].1.y <= 3,
        forall|i: int, j: int|
            0 <= i < j < placements@.len() ==> (#[trigger] placements@[i]).1 != (
            #[trigger] placements@[j]).1,
{
    broadcast use axiom_spec_into_iter;

    let all_positions = home_positions();
    let ghost all = all_positions@;
    // No more than all 40 cells can be chosen.
    let wanted: usize = if ranks.len() < 40 {
        ranks.len()
    } else {
        40
    };
    let chosen_positions = reservoir_sample(rng, all_positions.into_iter(), wanted);
    let ghost picks = choose|picks: Seq<int>| is_selection(chosen_positions@, all, picks);

    let mut placements: Vec<(Rank, Position)> = Vec::new();
    let mut i: usize = 0;
    while i < chosen_positions.len()
        invariant
            i <= chosen_positions.len() <= ranks.len(),
            placements@.len() == i,
            forall|j: int|
                0 <= j < i ==> (#[trigger] placements@[j]) == (ranks@[j], chosen_positions@[j]),
        decreases chosen_positions.len() - i,
    {
        placements.push((ranks[i], chosen_positions[i]));
        i += 1;
    }
    proof {
        assert forall|a: int| 0 <= a < placements@.len() implies (#[trigger] placements@[a]).1.x
            <= 9 && placements@[a].1.y <= 3 by {
            assert(chosen_positions@[a] == all[picks[a]]);
        }
        assert forall|a: int, b: int| 0 <= a < b < placements@.len() implies (
        #[trigger] placements@[a]).1 != (#[trigger] placements@[b]).1 by {
            assert(chosen_positions@[a] == all[picks[a]]);
            assert(chosen_positions@[b] == all[picks[b]]);
            assert(picks[a] != picks[b]);
        }
    }
    placements
}

/// A random legal move for player 0 of `state`. `action_buffer` is used to
/// hold the moves to choose from.
pub fn random_action(
    rng: &mut Xoshiro256StarStar,
    state: State,
    action_buffer: &mut Vec<Action>,
) -> (action: Action)
    requires
        state.wf(),
        spec_has_a_possible_move(state@.pieces[0], state@.cells[0]),
    ensures
        is_legal(state@.pieces[0], state@.cells[0], state@.cells[1], action),
        final(action_buffer)@ == spec_all_possible_moves(
            state@.pieces[0],
            state@.cells[0],
            state@.cells[1],
        ),
{
    action_buffer.clear();

    all_possible_moves(
        pieces_as_slice(&state.pieces[0]),
        &state.bitmaps[0],
        &state.bitmaps[1],
        action_buffer,
    );
    proof {
        assert(action_buffer@ =~= spec_all_possible_moves(
            state@.pieces[0],
            state@.cells[0],
            state@.cells[1],
        ));
        lemma_has_move_iff_some_legal(state@.pieces[0], state@.cells[0], state@.cells[1]);
    }
    let action = *pick_randomly(rng, action_buffer.as_slice());
    proof {
        lemma_generated_iff_legal(state@.pieces[0], state@.cells[0], state@.cells[1], action);
    }
    action
}

/// A placement of the starting pieces, in their order.
pub open spec fn is_starting_placement(placement: Seq<(Rank, Position)>) -> bool {
    &&& placement.len() == 8
    &&& forall|i: int| 0 <= i < 8 ==> (#[trigger] placement[i]).0 == STARTING_RANKS[i]
}

/// The starting pieces in their order are the starting set.
pub proof fn lemma_starting_placement(placement: Seq<(Rank, Position)>)
    requires
        is_starting_placement(placement),
    ensures
        has_starting_ranks(placement),
{
    assert(ranks_of(placement) =~= STARTING_RANKS@);
}

/// A policy that places its pieces at random and makes random legal moves.
pub struct RandoBot {
    rng: Xoshiro256StarStar,
    move_buffer: Vec<Action>,
}

impl RandoBot {
    /// The generator from which the policy draws its choices.
    pub closed spec fn generator(&self) -> Xoshiro256StarStar {
        self.rng
    }

    /// The moves that the policy keeps from its last choice.
    pub closed spec fn buffer(&self) -> Seq<Action> {
        self.move_buffer@
    }

    /// A policy whose choices follow from `seed`: it draws them from the
    /// generator that the seed gives, and has no moves kept.
    pub fn new(seed: u64) -> (r: RandoBot)
        ensures
            r.generator() == generator_seeded_with(seed),
            r.buffer() == Seq::<Action>::empty(),
    {
        RandoBot::with_generator(seeded_generator(seed))
    }

    /// A policy that draws its choices from `rng`, with no moves kept.
    pub fn with_generator(rng: Xoshiro256StarStar) -> (r: RandoBot)
        ensures
            r.generator() == rng,
            r.buffer() == Seq::<Action>::empty(),
    {
        RandoBot { rng, move_buffer: Vec::new() }
    }
}

impl Bot for RandoBot {
    fn get_initial_placements(&mut self) -> (placements: Vec<(Rank, Position)>)
        ensures
            is_starting_placement(placements@),
    {
        let placements = random_placement(&mut self.rng, STARTING_RANKS.as_slice());
        proof {
            lemma_starting_placement(placements@);
        }
        placements
    }

    fn get_action(&mut self, state: State) -> (action: Action) {
        // There is at least one possible move: the caller checks for one
        // before it asks for an action.
        random_action(&mut self.rng, state, &mut self.move_buffer)
    }
}

/// The sum of the distances from `pos` to each of the pieces.
pub open spec fn total_distance(pos: Position, pieces: Seq<Piece>) -> int
    decreases pieces.len(),
{
    if pieces.len() == 0 {
        0
    } else {
        total_distance(pos, pieces.drop_last()) + pos.spec_manhattan_distance(pieces.last().pos)
    }
}

/// By how much an action changes the sum of the distances between the
/// moving piece and the pieces of the enemy; negative for an approach.
pub open spec fn approach(action: Action, enemies: Seq<Piece>) -> int {
    total_distance(action.to, enemies) - total_distance(action.from, enemies)
}

/// The sum of the distances from `pos` to each of the pieces.
pub fn total_distance_to(pos: &Position, pieces: &[Piece]) -> (total: i32)
    requires
        pos.in_bounds(),
        all_in_bounds(pieces@),
        pieces@.len() <= 8,
    ensures
        total == total_distance(*pos, pieces@),
        0 <= total <= 18 * pieces@.len(),
{
    let mut total: i32 = 0;
    let mut i: usize = 0;
    assert(pieces@.take(0) =~= Seq::<Piece>::empty());
    while i < pieces.len()
        invariant
            i <= pieces.len() <= 8,
            pos.in_bounds(),
            all_in_bounds(pieces@),
            total == total_distance(*pos, pieces@.take(i as int)),
            0 <= total <= 18 * i,
        decreases pieces.len() - i,
    {
        let piece = pieces[i];
        assert(piece.pos.in_bounds());
        let distance: u8 = pos.manhattan_distance(&piece.pos);
        proof {
            let next = pieces@.take(i + 1);
            assert(next.drop_last() =~= pieces@.take(i as int));
            assert(next.last() == piece);
        }
        total = total + distance as i32;
        i += 1;
    }
    assert(pieces@.take(i as int) =~= pieces@);
    total
}

/// The least approach of any of the actions; zero where there is none.
pub open spec fn least_approach(actions: Seq<Action>, enemies: Seq<Piece>) -> int
    decreases actions.len(),
{
    if actions.len() == 0 {
        0
    } else if actions.len() == 1 {
        approach(actions[0], enemies)
    } else {
        let before = least_approach(actions.drop_last(), enemies);
        let last = approach(actions.last(), enemies);
        if last < before {
            last
        } else {
            before
        }
    }
}

/// The actions whose approach is `score`, in their order.
pub open spec fn with_approach(actions: Seq<Action>, enemies: Seq<Piece>, score: int) -> Seq<
    Action,
>
    decreases actions.len(),
{
    if actions.len() == 0 {
        Seq::empty()
    } else if approach(actions.last(), enemies) == score {
        with_approach(actions.drop_last(), enemies, score).push(actions.last())
    } else {
        with_approach(actions.drop_last(), enemies, score)
    }
}

/// The actions that bring the mover nearest to the enemy: those of least
/// approach, in their order.
pub open spec fn spec_best_approaches(actions: Seq<Action>, enemies: Seq<Piece>) -> Seq<Action> {
    with_approach(actions, enemies, least_approach(actions, enemies))
}

/// No action has less than the least approach.
pub proof fn lemma_least_approach_is_least(actions: Seq<Action>, enemies: Seq<Piece>, j: int)
    requires
        0 <= j < actions.len(),
    ensures
        least_approach(actions, enemies) <= approach(actions[j], enemies),
    decreases actions.len(),
{
    if actions.len() > 1 && j < actions.len() - 1 {
        lemma_least_approach_is_least(actions.drop_last(), enemies, j);
    }
}

/// The actions with a given approach are the actions of the sequence that
/// have it.
pub proof fn lemma_with_approach(
    actions: Seq<Action>,
    enemies: Seq<Piece>,
    score: int,
    action: Action,
)
    ensures
        with_approach(actions, enemies, score).contains(action) <==> actions.contains(action)
            && approach(action, enemies) == score,
    decreases actions.len(),
{
    if actions.len() > 0 {
        let before = actions.drop_last();
        let last = actions.last();
        lemma_with_approach(before, enemies, score, action);
        let kept = with_approach(before, enemies, score);
        if before.contains(action) {
            let i = choose|i: int| 0 <= i < before.len() && before[i] == action;
            assert(actions[i] == action);
        }
        if actions.contains(action) && action != last {
            let i = choose|i: int| 0 <= i < actions.len() && actions[i] == action;
            assert(before[i] == action);
        }
        if last == action {
            assert(actions[actions.len() - 1] == action);
        }
        if approach(last, enemies) == score {
            let all = kept.push(last);
            assert(all[kept.len() as int] == last);
            if kept.contains(action) {
                let i = choose|i: int| 0 <= i < kept.len() && kept[i] == action;
                assert(all[i] == action);
            }
            if all.contains(action) {
                let i = choose|i: int| 0 <= i < all.len() && all[i] == action;
                if i < kept.len() {
                    assert(kept[i] == action);
                }
            }
        }
    }
}

/// Some action has the least approach.
pub proof fn lemma_best_approaches_exist(actions: Seq<Action>, enemies: Seq<Piece>)
    requires
        actions.len() > 0,
    ensures
        spec_best_approaches(actions, enemies).len() > 0,
    decreases actions.len(),
{
    let least = least_approach(actions, enemies);
    let last = actions.last();
    if approach(last, enemies) != least {
        let before = actions.drop_last();
        lemma_best_approaches_exist(before, enemies);
        let best = spec_best_approaches(before, enemies)[0];
        assert(spec_best_approaches(before, enemies).contains(best));
        lemma_with_approach(before, enemies, least, best);
        let i = choose|i: int| 0 <= i < before.len() && before[i] == best;
        assert(actions[i] == best);
        lemma_with_approach(actions, enemies, least, best);
    }
}

/// The actions that bring the mover nearest to the enemy's pieces.
pub fn best_approaches(actions: &[Action], enemies: &[Piece]) -> (best: Vec<Action>)
    requires
        forall|i: int|
            0 <= i < actions@.len() ==> (#[trigger] actions@[i]).from.in_bounds()
                && actions@[i].to.in_bounds(),
        all_in_bounds(enemies@),
        enemies@.len() <= 8,
    ensures
        best@ == spec_best_approaches(actions@, enemies@),
{
    // The score of each action: by how much it changes the distances.
    let mut scores: Vec<i32> = Vec::new();
    let mut i: usize = 0;
    while i < actions.len()
        invariant
            i <= actions@.len(),
            forall|k: int|
                0 <= k < actions@.len() ==> (#[trigger] actions@[k]).from.in_bounds()
                    && actions@[k].to.in_bounds(),
            all_in_bounds(enemies@),
            enemies@.len() <= 8,
            scores@.len() == i,
            forall|k: int| 0 <= k < i ==> #[trigger] scores@[k] == approach(actions@[k], enemies@),
        decreases actions@.len() - i,
    {
        let action = actions[i];
        let current_score: i32 = total_distance_to(&action.from, enemies);
        let new_score: i32 = total_distance_to(&action.to, enemies);
        scores.push(new_score - current_score);
        i += 1;
    }

    // The best score is the least.
    let mut best_score: i32 = 0;
    let mut i: usize = 0;
    assert(actions@.take(0) =~= Seq::<Action>::empty());
    while i < actions.len()
        invariant
            i <= actions@.len() == scores@.len(),
            forall|k: int|
                0 <= k < scores@.len() ==> #[trigger] scores@[k] == approach(
                    actions@[k],
                    enemies@,
                ),
            best_score == least_approach(actions@.take(i as int), enemies@),
        decreases actions@.len() - i,
    {
        proof {
            let next = actions@.take(i + 1);
            assert(next.drop_last() =~= actions@.take(i as int));
            assert(next.last() == actions@[i as int]);
        }
        if i == 0 || scores[i] < best_score {
            best_score = scores[i];
        }
        i += 1;
    }
    assert(actions@.take(i as int) =~= actions@);

    // The best actions are those with the best score.
    let mut best: Vec<Action> = Vec::new();
    let mut i: usize = 0;
    while i < actions.len()
        invariant
            i <= actions@.len() == scores@.len(),
            forall|k: int|
                0 <= k < scores@.len() ==> #[trigger] scores@[k] == approach(
                    actions@[k],
                    enemies@,
                ),
            best@ == with_approach(actions@.take(i as int), enemies@, best_score as int),
        decreases actions@.len() - i,
    {
        proof {
            let next = actions@.take(i + 1);
            assert(next.drop_last() =~= actions@.take(i as int));
            assert(next.last() == actions@[i as int]);
        }
        if scores[i] == best_score {
            best.push(actions[i]);
        }
        i += 1;
    }
    assert(actions@.take(i as int) =~= actions@);
    best
}

/// A policy that places its pieces at random and moves towards the enemy:
/// among the legal moves it makes one, chosen at random, of those that
/// reduce the sum of the distances to the enemy's pieces the most.
pub struct AgressoBot {
    rng: Xoshiro256StarStar,
    action_buffer: Vec<Action>,
}

impl AgressoBot {
    /// The generator from which the policy draws its choices.
    pub closed spec fn generator(&self) -> Xoshiro256StarStar {
        self.rng
    }

    /// The moves that the policy keeps from its last choice.
    pub closed spec fn buffer(&self) -> Seq<Action> {
        self.action_buffer@
    }

    /// A policy whose choices follow from `seed`: it draws them from the
    /// generator that the seed gives, and has no moves kept.
    pub fn new(seed: u64) -> (r: AgressoBot)
        ensures
            r.generator() == generator_seeded_with(seed),
            r.buffer() == Seq::<Action>::empty(),
    {
        AgressoBot::with_generator(seeded_generator(seed))
    }

    /// A policy that draws its choices from `rng`, with no moves kept.
    pub fn with_generator(rng: Xoshiro256StarStar) -> (r: AgressoBot)
        ensures
            r.generator() == rng,
            r.buffer() == Seq::<Action>::empty(),
    {
        AgressoBot { rng, action_buffer: Vec::new() }
    }
}

impl Bot for AgressoBot {
    fn get_initial_placements(&mut self) -> (placements: Vec<(Rank, Position)>)
        ensures
            is_starting_placement(placements@),
    {
        let placements = random_placement(&mut self.rng, STARTING_RANKS.as_slice());
        proof {
            lemma_starting_placement(placements@);
        }
        placements
    }

    fn get_action(&mut self, state: State) -> (action: Action)
        ensures
            spec_best_approaches(
                spec_all_possible_moves(state@.pieces[0], state@.cells[0], state@.cells[1]),
                state@.pieces[1],
            ).contains(action),
            forall|other: Action|
                is_legal(state@.pieces[0], state@.cells[0], state@.cells[1], other) ==> approach(
                    action,
                    state@.pieces[1],
                ) <= approach(other, state@.pieces[1]),
    {
        let ghost friends = state@.pieces[0];
        let ghost friend = state@.cells[0];
        let ghost enemy = state@.cells[1];
        let ghost enemies = state@.pieces[1];
        self.action_buffer.clear();
        all_possible_moves(
            pieces_as_slice(&state.pieces[0]),
            &state.bitmaps[0],
            &state.bitmaps[1],
            &mut self.action_buffer,
        );
        let ghost moves = self.action_buffer@;
        proof {
            assert(moves =~= spec_all_possible_moves(friends, friend, enemy));
            lemma_has_move_iff_some_legal(friends, friend, enemy);
            assert forall|i: int| 0 <= i < moves.len() implies (#[trigger] moves[i]).from.in_bounds()
                && moves[i].to.in_bounds() by {
                assert(moves.contains(moves[i]));
                lemma_generated_iff_legal(friends, friend, enemy, moves[i]);
                lemma_first_piece_exists(friends, moves[i].from);
                let k = first_piece_at(friends, moves[i].from);
                assert(friends[k].pos.in_bounds());
            }
            lemma_best_approaches_exist(moves, enemies);
        }
        let best = best_approaches(
            self.action_buffer.as_slice(),
            pieces_as_slice(&state.pieces[1]),
        );
        let action = *pick_randomly(&mut self.rng, best.as_slice());
        proof {
            let least = least_approach(moves, enemies);
            lemma_with_approach(moves, enemies, least, action);
            lemma_generated_iff_legal(friends, friend, enemy, action);
            assert forall|other: Action| is_legal(friends, friend, enemy, other) implies approach(
                action,
                enemies,
            ) <= approach(other, enemies) by {
                lemma_generated_iff_legal(friends, friend, enemy, other);
                let j = choose|j: int| 0 <= j < moves.len() && moves[j] == other;
                lemma_least_approach_is_least(moves, enemies, j);
            }
        }
        action
    }
}

} // verus!
