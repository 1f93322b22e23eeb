//! The rules seen from the other side of the board. A half turn of the
//! board changes nothing about what is legal, which is why a policy can
//! always play as if it were the first player.

use vstd::prelude::*;
use crate::game::legality::is_legal;
use crate::game::legality::lemma_has_move_iff_some_legal;
use crate::game::logic::can_enter;
use crate::game::logic::room;
use crate::game::logic::spec_has_a_possible_move;
use crate::game::logic::spec_scout_max_steps;
use crate::game::position::lemma_reversed_bit_index;
use crate::game::position::lemma_reversed_is_involutive;
use crate::game::position::lemma_reversed_preserves_validity;
use crate::game::state::action_error;
use crate::game::side::first_piece_at;
use crate::game::side::has_piece_at;
use crate::game::side::is_first_piece_at;
use crate::game::side::lemma_first_piece_at;
use crate::game::side::lemma_first_piece_exists;
use crate::game::side::lemma_turned_keeps_side_wf;
use crate::game::side::side_wf;
use crate::game::side::turned;
use crate::game::Action;
use crate::game::Direction;
use crate::game::Piece;
use crate::game::Position;

verus! {

/// A step seen from the opposite side of the board is a step in the
/// opposite direction: both stay on the board or both leave it, and where
/// they stay they lead to the same cell.
pub proof fn lemma_step_turns(pos: Position, d: Direction)
    requires
        pos.in_bounds(),
    ensures
        d.spec_step(pos.spec_reversed()).in_bounds() == d.spec_opposite().spec_step(
            pos,
        ).in_bounds(),
        d.spec_opposite().spec_step(pos).in_bounds() ==> d.spec_step(pos.spec_reversed())
            == d.spec_opposite().spec_step(pos).spec_reversed(),
{
}

/// A scout gets as far on the turned board as it gets on the board in the
/// opposite direction.
pub proof fn lemma_slide_turns(pos: Position, d: Direction, friend: Seq<bool>, enemy: Seq<bool>)
    requires
        pos.in_bounds(),
        friend.len() == 100,
        enemy.len() == 100,
    ensures
        spec_scout_max_steps(pos.spec_reversed(), d, friend.reverse(), enemy.reverse())
            == spec_scout_max_steps(pos, d.spec_opposite(), friend, enemy),
    decreases room(d.spec_opposite().spec_step(pos), d.spec_opposite()),
{
    let a = d.spec_step(pos.spec_reversed());
    let b = d.spec_opposite().spec_step(pos);
    lemma_step_turns(pos, d);
    if b.in_bounds() {
        lemma_reversed_preserves_validity(b);
        lemma_reversed_bit_index(b);
        lemma_reversed_is_involutive(b);
        let i = a.spec_to_bit_index();
        assert(friend.reverse()[i] == friend[b.spec_to_bit_index()]);
        assert(enemy.reverse()[i] == enemy[b.spec_to_bit_index()]);
        if can_enter(b, friend) && !enemy[b.spec_to_bit_index()] {
            lemma_slide_turns(b, d, friend, enemy);
        }
    }
}

/// A piece stands at a cell of the turned board exactly when it stands at
/// the cell that turns into it, and it is the same piece of the list.
pub proof fn lemma_piece_at_turns(pieces: Seq<Piece>, pos: Position)
    requires
        forall|i: int| 0 <= i < pieces.len() ==> (#[trigger] pieces[i]).pos.in_bounds(),
        pos.in_bounds(),
    ensures
        has_piece_at(turned(pieces), pos) == has_piece_at(pieces, pos.spec_reversed()),
        has_piece_at(pieces, pos.spec_reversed()) ==> first_piece_at(turned(pieces), pos)
            == first_piece_at(pieces, pos.spec_reversed()),
{
    let t = turned(pieces);
    let back = pos.spec_reversed();
    lemma_reversed_is_involutive(pos);
    assert forall|i: int| 0 <= i < pieces.len() implies ((#[trigger] t[i]).pos == pos) == (
    pieces[i].pos == back) by {
        lemma_reversed_is_involutive(pieces[i].pos);
    }
    if has_piece_at(t, pos) {
        let i = choose|i: int| 0 <= i < t.len() && (#[trigger] t[i]).pos == pos;
        assert(pieces[i].pos == back);
    }
    if has_piece_at(pieces, back) {
        let i = first_piece_at(pieces, back);
        lemma_first_piece_exists(pieces, back);
        assert(t[i].pos == pos);
        assert forall|j: int| 0 <= j < i implies (#[trigger] t[j]).pos != pos by {
            assert(pieces[j].pos != back);
        }
        assert(is_first_piece_at(t, i, pos));
        lemma_first_piece_at(t, i, pos);
    }
}

/// The rules do not tell the two sides of the board apart: an action breaks
/// a rule on the turned board exactly when the turned action breaks it on
/// the board.
pub proof fn lemma_action_error_turns(
    friends: Seq<Piece>,
    friend: Seq<bool>,
    enemy: Seq<bool>,
    action: Action,
)
    requires
        side_wf(friends, friend),
        enemy.len() == 100,
        action.from.in_bounds(),
        action.to.in_bounds(),
    ensures
        action_error(turned(friends), friend.reverse(), enemy.reverse(), action) == action_error(
            friends,
            friend,
            enemy,
            action.spec_reversed(),
        ),
{
    let back = action.spec_reversed();
    lemma_piece_at_turns(friends, action.from);
    lemma_piece_at_turns(friends, action.to);
    lemma_reversed_preserves_validity(action.to);
    lemma_reversed_is_involutive(action.from);
    lemma_reversed_is_involutive(action.to);
    if has_piece_at(friends, back.from) && !has_piece_at(friends, back.to) && action.is_straight() {
        let i = first_piece_at(friends, back.from);
        lemma_first_piece_exists(friends, back.from);
        assert(turned(friends)[i].rank == friends[i].rank);
        assert(action.from != action.to) by {
            if action.from == action.to {
                assert(friends[i].pos == back.to);
            }
        }
        assert(action.spec_direction() == back.spec_direction().spec_opposite());
        lemma_slide_turns(back.from, action.spec_direction(), friend, enemy);
    } else if has_piece_at(friends, back.from) {
        let i = first_piece_at(friends, back.from);
        lemma_first_piece_exists(friends, back.from);
        assert(turned(friends)[i].rank == friends[i].rank);
    }
}

/// A side has a move on the turned board exactly when it has one on the
/// board.
pub proof fn lemma_has_move_turns(friends: Seq<Piece>, friend: Seq<bool>)
    requires
        side_wf(friends, friend),
    ensures
        spec_has_a_possible_move(turned(friends), friend.reverse()) == spec_has_a_possible_move(
            friends,
            friend,
        ),
{
    let enemy = Seq::new(100, |i: int| false);
    lemma_turned_keeps_side_wf(friends, friend);
    lemma_has_move_iff_some_legal(friends, friend, enemy);
    lemma_has_move_iff_some_legal(turned(friends), friend.reverse(), enemy.reverse());
    if exists|action: Action| is_legal(friends, friend, enemy, action) {
        let action = choose|action: Action| is_legal(friends, friend, enemy, action);
        lemma_first_piece_exists(friends, action.from);
        let i = first_piece_at(friends, action.from);
        assert(friends[i].pos.in_bounds());
        lemma_reversed_is_involutive(action.from);
        lemma_reversed_is_involutive(action.to);
        lemma_action_error_turns(friends, friend, enemy, action.spec_reversed());
        assert(action.spec_reversed().spec_reversed() == action);
        assert(is_legal(turned(friends), friend.reverse(), enemy.reverse(), action.spec_reversed()));
    }
    if exists|action: Action|
        is_legal(turned(friends), friend.reverse(), enemy.reverse(), action) {
        let action = choose|action: Action|
            is_legal(turned(friends), friend.reverse(), enemy.reverse(), action);
        lemma_first_piece_exists(turned(friends), action.from);
        let i = first_piece_at(turned(friends), action.from);
        assert(turned(friends)[i].pos.in_bounds());
        lemma_action_error_turns(friends, friend, enemy, action);
        assert(is_legal(friends, friend, enemy, action.spec_reversed()));
    }
}

} // verus!
