//! What the move generator and the validator have to do with each other:
//! the moves that are generated for a side are exactly the actions that the
//! validator accepts.

use vstd::prelude::*;
use crate::game::logic::can_enter;
use crate::game::logic::direction_at;
use crate::game::logic::lemma_direction_at_covers;
use crate::game::logic::moves_in_direction;
use crate::game::logic::moves_in_directions;
use crate::game::logic::piece_can_move;
use crate::game::logic::piece_moves;
use crate::game::logic::spec_all_possible_moves;
use crate::game::logic::spec_has_a_possible_move;
use crate::game::logic::spec_scout_max_steps;
use crate::game::state::action_error;
use crate::game::side::all_apart;
use crate::game::side::first_piece_at;
use crate::game::side::has_piece_at;
use crate::game::side::is_first_piece_at;
use crate::game::side::lemma_first_piece_at;
use crate::game::side::lemma_first_piece_exists;
use crate::game::side::lemma_piece_at_is_occupied_cell;
use crate::game::side::side_wf;
use crate::game::Action;
use crate::game::Direction;
use crate::game::Piece;
use crate::game::Position;
use crate::game::Rank;

verus! {

/// An action is legal for a side when it breaks none of the rules.
pub open spec fn is_legal(
    friends: Seq<Piece>,
    friend: Seq<bool>,
    enemy: Seq<bool>,
    action: Action,
) -> bool {
    action_error(friends, friend, enemy, action) is None
}

/// The `x` coordinate `n` cells from `pos` in direction `d`, as an integer.
pub open spec fn shifted_x(pos: Position, d: Direction, n: int) -> int {
    match d {
        Direction::Right => pos.x + n,
        Direction::Left => pos.x - n,
        _ => pos.x as int,
    }
}

/// The `y` coordinate `n` cells from `pos` in direction `d`, as an integer.
pub open spec fn shifted_y(pos: Position, d: Direction, n: int) -> int {
    match d {
        Direction::Down => pos.y + n,
        Direction::Up => pos.y - n,
        _ => pos.y as int,
    }
}

/// Steps that stay on the board add up: after `n` of them the coordinate
/// that the direction changes has changed by `n`.
pub proof fn lemma_steps_on_board(pos: Position, d: Direction, n: nat)
    requires
        pos.in_bounds(),
        forall|j: nat| 1 <= j <= n ==> (#[trigger] d.spec_steps(pos, j)).in_bounds(),
    ensures
        d.spec_steps(pos, n).x == shifted_x(pos, d, n as int),
        d.spec_steps(pos, n).y == shifted_y(pos, d, n as int),
    decreases n,
{
    if n > 0 {
        let before = (n - 1) as nat;
        lemma_steps_on_board(pos, d, before);
        let prev = d.spec_steps(pos, before);
        assert(prev.in_bounds());
        assert(d.spec_steps(pos, n) == d.spec_step(prev));
        assert(d.spec_step(prev).in_bounds());
    }
}

/// A cell of the board that lies `n` cells from `pos` in direction `d` is
/// reached by `n` steps.
pub proof fn lemma_steps_reach(pos: Position, d: Direction, n: nat)
    requires
        pos.in_bounds(),
        0 <= shifted_x(pos, d, n as int) <= 9,
        0 <= shifted_y(pos, d, n as int) <= 9,
    ensures
        d.spec_steps(pos, n).x == shifted_x(pos, d, n as int),
        d.spec_steps(pos, n).y == shifted_y(pos, d, n as int),
    decreases n,
{
    if n > 0 {
        lemma_steps_reach(pos, d, (n - 1) as nat);
    }
}

/// Taking a step first and `n` steps then is taking `n + 1` steps.
pub proof fn lemma_steps_shift(pos: Position, d: Direction, n: nat)
    ensures
        d.spec_steps(d.spec_step(pos), n) == d.spec_steps(pos, n + 1),
    decreases n,
{
    if n > 0 {
        lemma_steps_shift(pos, d, (n - 1) as nat);
    } else {
        assert(d.spec_steps(pos, 1) == d.spec_step(d.spec_steps(pos, 0)));
    }
}

/// A scout may enter every cell within its reach.
pub proof fn lemma_slide_cells(
    pos: Position,
    d: Direction,
    friend: Seq<bool>,
    enemy: Seq<bool>,
    j: nat,
)
    requires
        1 <= j <= spec_scout_max_steps(pos, d, friend, enemy),
    ensures
        can_enter(d.spec_steps(pos, j), friend),
    decreases j,
{
    lemma_steps_shift(pos, d, 0);
    if j > 1 {
        lemma_slide_cells(d.spec_step(pos), d, friend, enemy, (j - 1) as nat);
        lemma_steps_shift(pos, d, (j - 1) as nat);
    }
}

/// How far a scout gets, told by the cells on its way: where it may enter
/// the next `n` cells and meets no enemy on them, it takes `n` steps if it
/// may not enter the cell after them, and `n + 1` steps if an enemy stands
/// there.
pub proof fn lemma_scout_reach(
    pos: Position,
    d: Direction,
    friend: Seq<bool>,
    enemy: Seq<bool>,
    n: nat,
)
    requires
        forall|j: nat|
            1 <= j <= n ==> can_enter(#[trigger] d.spec_steps(pos, j), friend)
                && !enemy[d.spec_steps(pos, j).spec_to_bit_index()],
        !can_enter(d.spec_steps(pos, n + 1), friend) || enemy[d.spec_steps(
            pos,
            n + 1,
        ).spec_to_bit_index()],
    ensures
        spec_scout_max_steps(pos, d, friend, enemy) == if can_enter(
            d.spec_steps(pos, n + 1),
            friend,
        ) {
            n + 1
        } else {
            n
        },
    decreases n,
{
    lemma_steps_shift(pos, d, 0);
    if n > 0 {
        let next = d.spec_step(pos);
        assert(next == d.spec_steps(pos, 1));
        assert forall|j: nat| 1 <= j <= n - 1 implies can_enter(
            #[trigger] d.spec_steps(next, j),
            friend,
        ) && !enemy[d.spec_steps(next, j).spec_to_bit_index()] by {
            lemma_steps_shift(pos, d, j);
            assert(can_enter(d.spec_steps(pos, j + 1), friend));
        }
        lemma_steps_shift(pos, d, n);
        lemma_scout_reach(next, d, friend, enemy, (n - 1) as nat);
    }
}

/// On a row without pieces and without a lake, a scout gets to the edge of
/// the board.
pub proof fn lemma_scout_crosses_free_row(pos: Position, friend: Seq<bool>, enemy: Seq<bool>)
    requires
        pos.in_bounds(),
        pos.y != 4 && pos.y != 5,
        forall|to: Position|
            to.y == pos.y && pos.x < to.x <= 9 ==> !friend[#[trigger] to.spec_to_bit_index()]
                && !enemy[to.spec_to_bit_index()],
    ensures
        spec_scout_max_steps(pos, Direction::Right, friend, enemy) == 9 - pos.x,
{
    let d = Direction::Right;
    let n = (9 - pos.x) as nat;
    assert forall|j: nat| 1 <= j <= n + 1 implies (#[trigger] d.spec_steps(pos, j)).x == pos.x + j
        && d.spec_steps(pos, j).y == pos.y by {
        lemma_steps_reach(pos, d, (j - 1) as nat);
    }
    assert forall|j: nat| 1 <= j <= n implies can_enter(#[trigger] d.spec_steps(pos, j), friend)
        && !enemy[d.spec_steps(pos, j).spec_to_bit_index()] by {
        let to = d.spec_steps(pos, j);
        assert(!friend[to.spec_to_bit_index()] && !enemy[to.spec_to_bit_index()]);
    }
    lemma_scout_reach(pos, d, friend, enemy, n);
}

/// Where no two pieces share a cell, the piece at a position is the first
/// one there.
pub proof fn lemma_only_piece_at(pieces: Seq<Piece>, i: int)
    requires
        all_apart(pieces),
        0 <= i < pieces.len(),
    ensures
        first_piece_at(pieces, pieces[i].pos) == i,
        has_piece_at(pieces, pieces[i].pos),
{
    assert forall|j: int| 0 <= j < i implies (#[trigger] pieces[j]).pos != pieces[i].pos by {}
    assert(is_first_piece_at(pieces, i, pieces[i].pos));
    lemma_first_piece_at(pieces, i, pieces[i].pos);
}

/// Every move that is generated for a piece in a direction is legal.
pub proof fn lemma_direction_moves_are_legal(
    friends: Seq<Piece>,
    friend: Seq<bool>,
    enemy: Seq<bool>,
    i: int,
    d: Direction,
    k: int,
)
    requires
        side_wf(friends, friend),
        0 <= i < friends.len(),
        friends[i].rank.spec_is_moveable(),
        0 <= k < moves_in_direction(friends[i], d, friend, enemy).len(),
    ensures
        is_legal(friends, friend, enemy, moves_in_direction(friends[i], d, friend, enemy)[k]),
{
    let piece = friends[i];
    let pos = piece.pos;
    let n = (k + 1) as nat;
    let action = moves_in_direction(piece, d, friend, enemy)[k];
    assert(action == Action { from: pos, to: d.spec_steps(pos, n) });
    lemma_only_piece_at(friends, i);
    assert(pos.in_bounds());
    lemma_steps_shift(pos, d, 0);
    assert forall|j: nat| 1 <= j <= n implies (#[trigger] d.spec_steps(pos, j)).in_bounds()
        && can_enter(d.spec_steps(pos, j), friend) by {
        if piece.rank == Rank::Scout {
            lemma_slide_cells(pos, d, friend, enemy, j);
        }
    }
    lemma_steps_on_board(pos, d, n);
    assert(can_enter(action.to, friend));
    lemma_piece_at_is_occupied_cell(friends, action.to);
    assert(action.is_straight());
    assert(action.spec_direction() == d);
    assert(action.spec_distance() == n);
}

/// Every legal action is the move of a piece in a direction: the piece that
/// stands at its start, the direction in which it goes, and as many steps as
/// it is long.
pub proof fn lemma_legal_action_is_direction_move(
    friends: Seq<Piece>,
    friend: Seq<bool>,
    enemy: Seq<bool>,
    action: Action,
)
    requires
        side_wf(friends, friend),
        is_legal(friends, friend, enemy, action),
    ensures
        ({
            let i = first_piece_at(friends, action.from);
            let moves = moves_in_direction(friends[i], action.spec_direction(), friend, enemy);
            &&& 0 <= i < friends.len()
            &&& friends[i].rank.spec_is_moveable()
            &&& 1 <= action.spec_distance() <= moves.len()
            &&& moves[action.spec_distance() - 1] == action
        }),
{
    let i = first_piece_at(friends, action.from);
    lemma_first_piece_exists(friends, action.from);
    let piece = friends[i];
    let d = action.spec_direction();
    let n = action.spec_distance();
    assert(action.from.in_bounds());
    assert(action.from != action.to) by {
        if action.from == action.to {
            assert(friends[i].pos == action.to);
        }
    }
    assert(n >= 1);
    lemma_steps_reach(action.from, d, n as nat);
    assert(d.spec_steps(action.from, n as nat) == action.to);
    lemma_piece_at_is_occupied_cell(friends, action.to);
    if piece.rank != Rank::Scout {
        lemma_steps_shift(action.from, d, 0);
        assert(d.spec_step(action.from) == action.to);
    }
}

/// A sequence that is put after another holds what either holds.
pub proof fn lemma_contains_in_sum(a: Seq<Action>, b: Seq<Action>, x: Action)
    ensures
        (a + b).contains(x) <==> a.contains(x) || b.contains(x),
{
    if a.contains(x) {
        let i = choose|i: int| 0 <= i < a.len() && a[i] == x;
        assert((a + b)[i] == x);
    }
    if b.contains(x) {
        let i = choose|i: int| 0 <= i < b.len() && b[i] == x;
        assert((a + b)[a.len() + i] == x);
    }
    if (a + b).contains(x) {
        let i = choose|i: int| 0 <= i < (a + b).len() && (a + b)[i] == x;
        if i < a.len() {
            assert(a[i] == x);
        } else {
            assert(b[i - a.len()] == x);
        }
    }
}

/// The moves in the first `k` directions are those in each of them.
pub proof fn lemma_moves_in_directions(
    piece: Piece,
    k: nat,
    friend: Seq<bool>,
    enemy: Seq<bool>,
    action: Action,
)
    requires
        k <= 4,
    ensures
        moves_in_directions(piece, k, friend, enemy).contains(action) <==> exists|m: int|
            0 <= m < k && (#[trigger] moves_in_direction(
                piece,
                direction_at(m),
                friend,
                enemy,
            )).contains(action),
    decreases k,
{
    if k > 0 {
        let before = (k - 1) as nat;
        lemma_moves_in_directions(piece, before, friend, enemy, action);
        lemma_contains_in_sum(
            moves_in_directions(piece, before, friend, enemy),
            moves_in_direction(piece, direction_at(k - 1), friend, enemy),
            action,
        );
        if moves_in_directions(piece, before, friend, enemy).contains(action) {
            let m = choose|m: int|
                0 <= m < before && (#[trigger] moves_in_direction(
                    piece,
                    direction_at(m),
                    friend,
                    enemy,
                )).contains(action);
            assert(0 <= m < k);
        }
    }
}

/// The moves of a side are those of each of its pieces.
pub proof fn lemma_all_moves(
    friends: Seq<Piece>,
    friend: Seq<bool>,
    enemy: Seq<bool>,
    action: Action,
)
    ensures
        spec_all_possible_moves(friends, friend, enemy).contains(action) <==> exists|i: int|
            0 <= i < friends.len() && (#[trigger] piece_moves(friends[i], friend, enemy)).contains(
                action,
            ),
    decreases friends.len(),
{
    if friends.len() > 0 {
        let before = friends.drop_last();
        lemma_all_moves(before, friend, enemy, action);
        lemma_contains_in_sum(
            spec_all_possible_moves(before, friend, enemy),
            piece_moves(friends.last(), friend, enemy),
            action,
        );
        if spec_all_possible_moves(before, friend, enemy).contains(action) {
            let i = choose|i: int|
                0 <= i < before.len() && (#[trigger] piece_moves(before[i], friend, enemy)).contains(
                    action,
                );
            assert(piece_moves(friends[i], friend, enemy).contains(action));
        }
        if exists|i: int|
            0 <= i < friends.len() && (#[trigger] piece_moves(friends[i], friend, enemy)).contains(
                action,
            ) {
            let i = choose|i: int|
                0 <= i < friends.len() && (#[trigger] piece_moves(
                    friends[i],
                    friend,
                    enemy,
                )).contains(action);
            if i < before.len() {
                assert(piece_moves(before[i], friend, enemy).contains(action));
            }
        }
    }
}

/// The move generator and the validator agree: where the pieces of a side
/// and its bitmap agree, the moves that are generated for the side are the
/// actions that break no rule, all of them and no others.
pub proof fn lemma_generated_iff_legal(
    friends: Seq<Piece>,
    friend: Seq<bool>,
    enemy: Seq<bool>,
    action: Action,
)
    requires
        side_wf(friends, friend),
    ensures
        spec_all_possible_moves(friends, friend, enemy).contains(action) <==> is_legal(
            friends,
            friend,
            enemy,
            action,
        ),
{
    lemma_all_moves(friends, friend, enemy, action);
    if spec_all_possible_moves(friends, friend, enemy).contains(action) {
        let i = choose|i: int|
            0 <= i < friends.len() && (#[trigger] piece_moves(friends[i], friend, enemy)).contains(
                action,
            );
        let piece = friends[i];
        lemma_moves_in_directions(piece, 4, friend, enemy, action);
        let m = choose|m: int|
            0 <= m < 4 && (#[trigger] moves_in_direction(
                piece,
                direction_at(m),
                friend,
                enemy,
            )).contains(action);
        let moves = moves_in_direction(piece, direction_at(m), friend, enemy);
        let k = choose|k: int| 0 <= k < moves.len() && moves[k] == action;
        lemma_direction_moves_are_legal(friends, friend, enemy, i, direction_at(m), k);
    }
    if is_legal(friends, friend, enemy, action) {
        lemma_legal_action_is_direction_move(friends, friend, enemy, action);
        let i = first_piece_at(friends, action.from);
        let d = action.spec_direction();
        let moves = moves_in_direction(friends[i], d, friend, enemy);
        assert(moves[action.spec_distance() - 1] == action);
        assert(moves.contains(action));
        lemma_direction_at_covers(d);
        let m = choose|m: int| 0 <= m < 4 && direction_at(m) == d;
        assert(moves_in_direction(friends[i], direction_at(m), friend, enemy).contains(action));
        lemma_moves_in_directions(friends[i], 4, friend, enemy, action);
        assert(piece_moves(friends[i], friend, enemy).contains(action));
    }
}

/// A side has a move exactly when some action is legal for it, which is
/// exactly when the move generator finds one.
pub proof fn lemma_has_move_iff_some_legal(
    friends: Seq<Piece>,
    friend: Seq<bool>,
    enemy: Seq<bool>,
)
    requires
        side_wf(friends, friend),
    ensures
        spec_has_a_possible_move(friends, friend) <==> spec_all_possible_moves(
            friends,
            friend,
            enemy,
        ).len() > 0,
        spec_has_a_possible_move(friends, friend) <==> exists|action: Action|
            is_legal(friends, friend, enemy, action),
{
    let all = spec_all_possible_moves(friends, friend, enemy);
    if spec_has_a_possible_move(friends, friend) {
        let i = choose|i: int|
            0 <= i < friends.len() && piece_can_move(#[trigger] friends[i], friend);
        let piece = friends[i];
        let m = choose|m: int|
            0 <= m < 4 && can_enter(#[trigger] direction_at(m).spec_step(piece.pos), friend);
        let moves = moves_in_direction(piece, direction_at(m), friend, enemy);
        assert(moves.len() > 0);
        let action = moves[0];
        assert(moves.contains(action));
        lemma_moves_in_directions(piece, 4, friend, enemy, action);
        assert(piece_moves(friends[i], friend, enemy).contains(action));
        lemma_all_moves(friends, friend, enemy, action);
        assert(all.contains(action));
        lemma_generated_iff_legal(friends, friend, enemy, action);
    }
    if all.len() > 0 {
        assert(all.contains(all[0]));
        lemma_generated_iff_legal(friends, friend, enemy, all[0]);
    }
    if exists|action: Action| is_legal(friends, friend, enemy, action) {
        let action = choose|action: Action| is_legal(friends, friend, enemy, action);
        lemma_generated_iff_legal(friends, friend, enemy, action);
        assert(all.len() > 0);
        lemma_all_moves(friends, friend, enemy, action);
        let i = choose|i: int|
            0 <= i < friends.len() && (#[trigger] piece_moves(friends[i], friend, enemy)).contains(
                action,
            );
        let piece = friends[i];
        lemma_moves_in_directions(piece, 4, friend, enemy, action);
        let m = choose|m: int|
            0 <= m < 4 && (#[trigger] moves_in_direction(
                piece,
                direction_at(m),
                friend,
                enemy,
            )).contains(action);
        assert(moves_in_direction(piece, direction_at(m), friend, enemy).len() > 0);
        assert(can_enter(direction_at(m).spec_step(piece.pos), friend));
        assert(piece_can_move(friends[i], friend));
    }
}

} // verus!
