//! The rules of movement and of fights: how far a scout slides, which moves
//! a side has, and who dies when two pieces meet.

use vstd::prelude::*;
use crate::boardbitmap::BoardBitmap;
use crate::game::steps_like;
use crate::game::Action;
use crate::game::Direction;
use crate::game::Piece;
use crate::game::Position;
use crate::game::Rank;
use crate::game::ALL_DIRECTIONS;

verus! {

/// Who dies when `attacker` moves onto `defender`: the first component says
/// whether the defender dies, the second whether the attacker does.
///
/// A spy that attacks the marshal kills it, and a miner that attacks a bomb
/// clears it. Anything else that attacks a bomb dies and leaves the bomb in
/// place. In every other fight a piece dies when the other is at least as
/// strong, so that equal ranks die together.
pub open spec fn spec_battle_casualties(defender: Rank, attacker: Rank) -> (bool, bool) {
    if (defender == Rank::Marshal && attacker == Rank::Spy) || (defender == Rank::Bomb
        && attacker == Rank::Miner) {
        (true, false)
    } else if defender == Rank::Bomb {
        (false, true)
    } else {
        (attacker.strength() >= defender.strength(), defender.strength() >= attacker.strength())
    }
}

/// The ranks between which a fight can take place: the flag is captured, not
/// fought, and neither a bomb nor a flag can attack.
pub open spec fn can_fight(defender: Rank, attacker: Rank) -> bool {
    defender != Rank::Flag && attacker != Rank::Bomb && attacker != Rank::Flag
}

/// Resolves the fight of `attacker` against `defender`: whether the
/// defender dies, and whether the attacker dies.
pub fn battle_casualties(defender: &Rank, attacker: &Rank) -> (r: (bool, bool))
    requires
        can_fight(*defender, *attacker),
    ensures
        r == spec_battle_casualties(*defender, *attacker),
{
    match (*defender, *attacker) {
        (Rank::Marshal, Rank::Spy) | (Rank::Bomb, Rank::Miner) => (true, false),
        (Rank::Bomb, _) => (false, true),
        (defender, attacker) => {
            let def: u8 = defender.strength_value();
            let atk: u8 = attacker.strength_value();
            (atk >= def, def >= atk)
        },
    }
}

/// No fight leaves both pieces alive.
pub proof fn lemma_battle_never_spares_both(defender: Rank, attacker: Rank)
    requires
        can_fight(defender, attacker),
    ensures
        spec_battle_casualties(defender, attacker).0 || spec_battle_casualties(
            defender,
            attacker,
        ).1,
{
}

/// Two pieces of the same rank die together.
pub proof fn lemma_battle_of_equals_kills_both(rank: Rank)
    requires
        can_fight(rank, rank),
    ensures
        spec_battle_casualties(rank, rank) == (true, true),
{
}

/// The two exceptions to the order of strength hold for the attacker only:
/// the spy and the miner win as attackers and lose as defenders.
pub proof fn lemma_battle_exceptions_are_one_sided()
    ensures
        spec_battle_casualties(Rank::Marshal, Rank::Spy) == (true, false),
        spec_battle_casualties(Rank::Spy, Rank::Marshal) == (true, false),
        spec_battle_casualties(Rank::Bomb, Rank::Miner) == (true, false),
        forall|attacker: Rank|
            can_fight(Rank::Bomb, attacker) && attacker != Rank::Miner
                ==> #[trigger] spec_battle_casualties(Rank::Bomb, attacker) == (false, true),
{
}

/// Whether a piece may enter the cell `to`: it is a valid map position that
/// no piece of its own side holds.
pub open spec fn can_enter(to: Position, friend: Seq<bool>) -> bool {
    to.spec_is_valid_map_position() && !friend[to.spec_to_bit_index()]
}

/// The number of cells between `pos` and the edge of the board that lies in
/// direction `d`, the cell of `pos` included; zero off the board.
pub open spec fn room(pos: Position, d: Direction) -> nat {
    if !pos.in_bounds() {
        0
    } else {
        match d {
            Direction::Up => (pos.y + 1) as nat,
            Direction::Right => (10 - pos.x) as nat,
            Direction::Down => (10 - pos.y) as nat,
            Direction::Left => (pos.x + 1) as nat,
        }
    }
}

/// How far a sliding piece gets in direction `d` when `to` is the next cell
/// in its way: it stops before a cell that it may not enter, and on the
/// first cell that an enemy holds.
pub open spec fn slide_from(to: Position, d: Direction, friend: Seq<bool>, enemy: Seq<bool>) -> nat
    decreases room(to, d),
{
    if !can_enter(to, friend) {
        0
    } else if enemy[to.spec_to_bit_index()] {
        1
    } else {
        1 + slide_from(d.spec_step(to), d, friend, enemy)
    }
}

/// The largest number of steps that a scout at `pos` can take in direction
/// `d`.
pub open spec fn spec_scout_max_steps(
    pos: Position,
    d: Direction,
    friend: Seq<bool>,
    enemy: Seq<bool>,
) -> nat {
    slide_from(d.spec_step(pos), d, friend, enemy)
}

/// A slide never leaves the board.
pub proof fn lemma_slide_is_bounded(
    to: Position,
    d: Direction,
    friend: Seq<bool>,
    enemy: Seq<bool>,
)
    ensures
        slide_from(to, d, friend, enemy) <= room(to, d) <= 10,
    decreases room(to, d),
{
    if can_enter(to, friend) && !enemy[to.spec_to_bit_index()] {
        lemma_slide_is_bounded(d.spec_step(to), d, friend, enemy);
    }
}

/// The steps in the four directions lead to four different cells.
pub proof fn lemma_steps_differ(pos: Position, d1: Direction, d2: Direction)
    requires
        d1.spec_step(pos) == d2.spec_step(pos),
    ensures
        d1 == d2,
{
}

/// The largest number of steps that a scout at `pos` can take with
/// `stepper`, which is the step in one of the four directions.
pub fn scout_max_steps_with_stepper<F: Fn(&Position) -> Position>(
    stepper: F,
    pos: &Position,
    friend_bitmap: &BoardBitmap,
    enemy_bitmap: &BoardBitmap,
) -> (steps: usize)
    requires
        exists|d: Direction| steps_like(stepper, d),
    ensures
        forall|d: Direction|
            steps_like(stepper, d) ==> steps == spec_scout_max_steps(
                *pos,
                d,
                friend_bitmap@,
                enemy_bitmap@,
            ),
        steps <= 10,
{
    let ghost d = choose|d: Direction| steps_like(stepper, d);
    let mut steps: usize = 0;
    let mut to = stepper(pos);
    proof {
        assert forall|d2: Direction| steps_like(stepper, d2) implies d2 == d by {
            lemma_steps_differ(*pos, d, d2);
        }
        lemma_slide_is_bounded(to, d, friend_bitmap@, enemy_bitmap@);
    }
    while to.is_valid_map_position()
        invariant_except_break
            steps + slide_from(to, d, friend_bitmap@, enemy_bitmap@) == spec_scout_max_steps(
                *pos,
                d,
                friend_bitmap@,
                enemy_bitmap@,
            ),
            steps + room(to, d) <= 10,
        invariant
            steps_like(stepper, d),
        ensures
            steps == spec_scout_max_steps(*pos, d, friend_bitmap@, enemy_bitmap@),
            steps <= 10,
        decreases room(to, d),
    {
        if friend_bitmap.get(to.to_bit_index()) {
            break ;
        }
        steps += 1;

        if enemy_bitmap.get(to.to_bit_index()) {
            break ;
        }
        to = stepper(&to);
    }
    steps
}

/// The largest number of steps that a scout at `pos` can take in
/// `direction`: it stops before a cell that is no valid map position or is
/// held by a piece of its own side, and on the first cell that an enemy
/// holds.
pub fn scout_max_steps(
    pos: &Position,
    direction: &Direction,
    friend_bitmap: &BoardBitmap,
    enemy_bitmap: &BoardBitmap,
) -> (steps: usize)
    ensures
        steps == spec_scout_max_steps(*pos, *direction, friend_bitmap@, enemy_bitmap@),
        steps <= 10,
{
    scout_max_steps_with_stepper(direction.to_stepper(), pos, friend_bitmap, enemy_bitmap)
}

/// The direction at place `k` of the order in which moves are generated.
pub open spec fn direction_at(k: int) -> Direction {
    if k == 0 {
        Direction::Up
    } else if k == 1 {
        Direction::Right
    } else if k == 2 {
        Direction::Down
    } else {
        Direction::Left
    }
}

/// Every direction has its place in the order.
pub proof fn lemma_direction_at_covers(d: Direction)
    ensures
        exists|k: int| 0 <= k < 4 && direction_at(k) == d,
{
    assert(direction_at(0) == Direction::Up);
    assert(direction_at(1) == Direction::Right);
    assert(direction_at(2) == Direction::Down);
    assert(direction_at(3) == Direction::Left);
}

/// A scout can take a step in a direction exactly when it may enter the
/// first cell on its way.
pub proof fn lemma_scout_can_step(
    pos: Position,
    d: Direction,
    friend: Seq<bool>,
    enemy: Seq<bool>,
)
    ensures
        spec_scout_max_steps(pos, d, friend, enemy) > 0 <==> can_enter(d.spec_step(pos), friend),
{
}

/// A piece has a move when it is of a rank that moves and may enter one of
/// its four neighbours.
pub open spec fn piece_can_move(piece: Piece, friend: Seq<bool>) -> bool {
    piece.rank.spec_is_moveable() && exists|k: int|
        0 <= k < 4 && can_enter(#[trigger] direction_at(k).spec_step(piece.pos), friend)
}

/// A side has a move when one of its pieces has one.
pub open spec fn spec_has_a_possible_move(friends: Seq<Piece>, friend: Seq<bool>) -> bool {
    exists|i: int| 0 <= i < friends.len() && piece_can_move(#[trigger] friends[i], friend)
}

/// Whether one of the pieces has a move. The answer is found at the first
/// piece that has one.
pub fn has_a_possible_move(
    friends: &[Piece],
    friend_bitmap: &BoardBitmap,
    enemy_bitmap: &BoardBitmap,
) -> (r: bool)
    ensures
        r == spec_has_a_possible_move(friends@, friend_bitmap@),
{
    let mut i: usize = 0;
    while i < friends.len()
        invariant
            i <= friends.len(),
            forall|j: int| 0 <= j < i ==> !piece_can_move(#[trigger] friends@[j], friend_bitmap@),
        decreases friends.len() - i,
    {
        let piece = friends[i];
        if piece.rank.is_moveable() {
            if piece.rank == Rank::Scout {
                let mut k: usize = 0;
                while k < 4
                    invariant
                        k <= 4,
                        0 <= i < friends.len(),
                        piece == friends@[i as int],
                        piece.rank.spec_is_moveable(),
                        forall|m: int|
                            0 <= m < k ==> !can_enter(
                                #[trigger] direction_at(m).spec_step(piece.pos),
                                friend_bitmap@,
                            ),
                    decreases 4 - k,
                {
                    let steps: usize = scout_max_steps_with_stepper(
                        ALL_DIRECTIONS[k].to_stepper(),
                        &piece.pos,
                        friend_bitmap,
                        enemy_bitmap,
                    );
                    proof {
                        lemma_scout_can_step(
                            piece.pos,
                            direction_at(k as int),
                            friend_bitmap@,
                            enemy_bitmap@,
                        );
                    }
                    if steps > 0 {
                        return true;
                    }
                    k += 1;
                }
            } else {
                let neighbours = piece.pos.neighbours();
                let mut k: usize = 0;
                while k < 4
                    invariant
                        k <= 4,
                        0 <= i < friends.len(),
                        piece == friends@[i as int],
                        piece.rank.spec_is_moveable(),
                        neighbours@ == piece.pos.spec_neighbours(),
                        forall|m: int|
                            0 <= m < k ==> !can_enter(
                                #[trigger] direction_at(m).spec_step(piece.pos),
                                friend_bitmap@,
                            ),
                    decreases 4 - k,
                {
                    let neighbour = neighbours[k];
                    assert(neighbour == direction_at(k as int).spec_step(piece.pos));
                    if neighbour.is_valid_map_position() && !friend_bitmap.get(
                        neighbour.to_bit_index(),
                    ) {
                        return true;
                    }
                    k += 1;
                }
            }
        }
        i += 1;
    }
    false
}

/// The moves of one piece in one direction, nearest first: a scout slides
/// as far as it can, any other piece takes a single step.
pub open spec fn moves_in_direction(
    piece: Piece,
    d: Direction,
    friend: Seq<bool>,
    enemy: Seq<bool>,
) -> Seq<Action> {
    let n = if piece.rank == Rank::Scout {
        spec_scout_max_steps(piece.pos, d, friend, enemy)
    } else if can_enter(d.spec_step(piece.pos), friend) {
        1
    } else {
        0
    };
    Seq::new(n, |k: int| Action { from: piece.pos, to: d.spec_steps(piece.pos, (k + 1) as nat) })
}

/// The moves of one piece in the first `k` directions.
pub open spec fn moves_in_directions(
    piece: Piece,
    k: nat,
    friend: Seq<bool>,
    enemy: Seq<bool>,
) -> Seq<Action>
    decreases k,
{
    if k == 0 {
        Seq::empty()
    } else {
        moves_in_directions(piece, (k - 1) as nat, friend, enemy) + moves_in_direction(
            piece,
            direction_at(k - 1),
            friend,
            enemy,
        )
    }
}

/// All moves of one piece: none for a bomb or a flag, else those in the
/// four directions, in their order.
pub open spec fn piece_moves(piece: Piece, friend: Seq<bool>, enemy: Seq<bool>) -> Seq<Action> {
    if piece.rank.spec_is_moveable() {
        moves_in_directions(piece, 4, friend, enemy)
    } else {
        Seq::empty()
    }
}

/// All moves of a side: those of its pieces, in the order of the list.
pub open spec fn spec_all_possible_moves(
    friends: Seq<Piece>,
    friend: Seq<bool>,
    enemy: Seq<bool>,
) -> Seq<Action>
    decreases friends.len(),
{
    if friends.len() == 0 {
        Seq::empty()
    } else {
        spec_all_possible_moves(friends.drop_last(), friend, enemy) + piece_moves(
            friends.last(),
            friend,
            enemy,
        )
    }
}

/// Appends every move of the side to `actions`.
pub fn all_possible_moves(
    friends: &[Piece],
    friend_bitmap: &BoardBitmap,
    enemy_bitmap: &BoardBitmap,
    actions: &mut Vec<Action>,
)
    ensures
        final(actions)@ == old(actions)@ + spec_all_possible_moves(
            friends@,
            friend_bitmap@,
            enemy_bitmap@,
        ),
{
    let mut i: usize = 0;
    assert(friends@.take(0) =~= Seq::<Piece>::empty());
    while i < friends.len()
        invariant
            i <= friends.len(),
            actions@ == old(actions)@ + spec_all_possible_moves(
                friends@.take(i as int),
                friend_bitmap@,
                enemy_bitmap@,
            ),
        decreases friends.len() - i,
    {
        let piece = friends[i];
        let ghost before = actions@;
        if piece.rank.is_moveable() {
            let neighbours = piece.pos.neighbours();
            let mut k: usize = 0;
            while k < 4
                invariant
                    k <= 4,
                    neighbours@ == piece.pos.spec_neighbours(),
                    actions@ == before + moves_in_directions(
                        piece,
                        k as nat,
                        friend_bitmap@,
                        enemy_bitmap@,
                    ),
                decreases 4 - k,
            {
                let ghost d = direction_at(k as int);
                let ghost start = actions@;
                let ghost moves = moves_in_direction(piece, d, friend_bitmap@, enemy_bitmap@);
                if piece.rank == Rank::Scout {
                    let direction = ALL_DIRECTIONS[k];
                    let steps: usize = scout_max_steps_with_stepper(
                        direction.to_stepper(),
                        &piece.pos,
                        friend_bitmap,
                        enemy_bitmap,
                    );
                    let mut to = piece.pos;
                    let mut n: usize = 0;
                    while n < steps
                        invariant
                            n <= steps,
                            direction == d,
                            steps == moves.len(),
                            moves == moves_in_direction(piece, d, friend_bitmap@, enemy_bitmap@),
                            to == d.spec_steps(piece.pos, n as nat),
                            actions@ == start + moves.take(n as int),
                        decreases steps - n,
                    {
                        to = direction.step(&to);
                        actions.push(Action { from: piece.pos, to });
                        n += 1;
                        assert(actions@ =~= start + moves.take(n as int));
                    }
                    assert(moves.take(n as int) =~= moves);
                } else {
                    let neighbour = neighbours[k];
                    assert(neighbour == d.spec_step(piece.pos));
                    assert(d.spec_steps(piece.pos, 1) == d.spec_step(d.spec_steps(piece.pos, 0)));
                    if neighbour.is_valid_map_position() && !friend_bitmap.get(
                        neighbour.to_bit_index(),
                    ) {
                        actions.push(Action { from: piece.pos, to: neighbour });
                    }
                    assert(actions@ =~= start + moves);
                }
                k += 1;
                assert(actions@ =~= before + moves_in_directions(
                    piece,
                    k as nat,
                    friend_bitmap@,
                    enemy_bitmap@,
                ));
            }
        }
        proof {
            let next = friends@.take(i + 1);
            assert(next.drop_last() =~= friends@.take(i as int));
            assert(next.last() == piece);
            assert(actions@ =~= old(actions)@ + spec_all_possible_moves(
                next,
                friend_bitmap@,
                enemy_bitmap@,
            ));
        }
        i += 1;
    }
    assert(friends@.take(i as int) =~= friends@);
}

} // verus!
