//! One side of the board: the list of a player's pieces and the cells that
//! they hold. The list and the bitmap of a player say the same thing twice;
//! this module says what it means for them to agree and shows that moves,
//! fights and a half turn of the board keep them in agreement.

use vstd::prelude::*;
use crate::boardbitmap::BoardBitmap;
use crate::game::position::lemma_bit_index_is_injective;
use crate::game::position::lemma_reversed_bit_index;
use crate::game::position::lemma_reversed_is_involutive;
use crate::game::Piece;
use crate::game::Position;

verus! {

/// Some piece of the list stands at `pos`.
pub open spec fn has_piece_at(pieces: Seq<Piece>, pos: Position) -> bool {
    exists|i: int| 0 <= i < pieces.len() && (#[trigger] pieces[i]).pos == pos
}

/// The piece at index `i` stands at `pos`, and none before it does.
pub open spec fn is_first_piece_at(pieces: Seq<Piece>, i: int, pos: Position) -> bool {
    &&& 0 <= i < pieces.len()
    &&& pieces[i].pos == pos
    &&& forall|j: int| 0 <= j < i ==> (#[trigger] pieces[j]).pos != pos
}

/// The index of the first piece of the list that stands at `pos`.
pub open spec fn first_piece_at(pieces: Seq<Piece>, pos: Position) -> int {
    choose|i: int| is_first_piece_at(pieces, i, pos)
}

/// There is only one first piece at a position.
pub proof fn lemma_first_piece_at(pieces: Seq<Piece>, i: int, pos: Position)
    requires
        is_first_piece_at(pieces, i, pos),
    ensures
        first_piece_at(pieces, pos) == i,
        has_piece_at(pieces, pos),
{
    let k = first_piece_at(pieces, pos);
    assert(is_first_piece_at(pieces, k, pos));
    if k < i {
        assert(pieces[k].pos != pos);
    }
    if i < k {
        assert(pieces[i].pos != pos);
    }
}

/// Where a piece stands at a position and none of the first `k` does, one
/// of the others is the first.
proof fn lemma_first_piece_from(pieces: Seq<Piece>, pos: Position, k: int)
    requires
        0 <= k <= pieces.len(),
        forall|j: int| 0 <= j < k ==> (#[trigger] pieces[j]).pos != pos,
        has_piece_at(pieces, pos),
    ensures
        exists|i: int| is_first_piece_at(pieces, i, pos),
    decreases pieces.len() - k,
{
    if k == pieces.len() {
        let i = choose|i: int| 0 <= i < pieces.len() && (#[trigger] pieces[i]).pos == pos;
        assert(pieces[i].pos != pos);
    } else if pieces[k].pos == pos {
        assert(is_first_piece_at(pieces, k, pos));
    } else {
        lemma_first_piece_from(pieces, pos, k + 1);
    }
}

/// Where a piece stands at a position, there is a first one.
pub proof fn lemma_first_piece_exists(pieces: Seq<Piece>, pos: Position)
    requires
        has_piece_at(pieces, pos),
    ensures
        is_first_piece_at(pieces, first_piece_at(pieces, pos), pos),
{
    lemma_first_piece_from(pieces, pos, 0);
}

/// The index of the first piece at `pos`, if a piece stands there.
pub fn find_piece(pieces: &[Piece], pos: &Position) -> (r: Option<usize>)
    ensures
        r is Some <==> has_piece_at(pieces@, *pos),
        r matches Some(i) ==> is_first_piece_at(pieces@, i as int, *pos) && i == first_piece_at(
            pieces@,
            *pos,
        ),
{
    let mut i: usize = 0;
    while i < pieces.len()
        invariant
            i <= pieces.len(),
            forall|j: int| 0 <= j < i ==> (#[trigger] pieces@[j]).pos != *pos,
        decreases pieces.len() - i,
    {
        if pieces[i].pos == *pos {
            proof {
                lemma_first_piece_at(pieces@, i as int, *pos);
            }
            return Some(i);
        }
        i += 1;
    }
    None
}

/// Some piece of the list stands on the cell with index `cell`.
pub open spec fn occupied_cell(pieces: Seq<Piece>, cell: int) -> bool {
    exists|i: int| 0 <= i < pieces.len() && (#[trigger] pieces[i]).pos.spec_to_bit_index() == cell
}

/// The occupancy of the 100 cells of the board by the pieces of a list: a
/// cell is set exactly when a piece of the list stands on it.
pub open spec fn cells_of(pieces: Seq<Piece>) -> Seq<bool> {
    Seq::new(100, |cell: int| occupied_cell(pieces, cell))
}

/// Every piece of the list stands on the board.
pub open spec fn all_in_bounds(pieces: Seq<Piece>) -> bool {
    forall|i: int| 0 <= i < pieces.len() ==> (#[trigger] pieces[i]).pos.in_bounds()
}

/// No two pieces of the list stand on the same cell.
pub open spec fn all_apart(pieces: Seq<Piece>) -> bool {
    forall|i: int, j: int|
        0 <= i < j < pieces.len() ==> (#[trigger] pieces[i]).pos != (#[trigger] pieces[j]).pos
}

/// What holds of the pieces of one side and its bitmap at all times: there
/// are at most 8 pieces, each stands on the board, no two stand on the same
/// cell, and the bitmap has a cell set exactly when a piece stands on it.
pub open spec fn side_wf(pieces: Seq<Piece>, cells: Seq<bool>) -> bool {
    &&& pieces.len() <= 8
    &&& all_in_bounds(pieces)
    &&& all_apart(pieces)
    &&& cells == cells_of(pieces)
}

/// On the board, a piece stands at a position exactly when it stands on the
/// cell with the index of that position.
pub proof fn lemma_piece_at_is_occupied_cell(pieces: Seq<Piece>, pos: Position)
    requires
        all_in_bounds(pieces),
        pos.in_bounds(),
    ensures
        has_piece_at(pieces, pos) == occupied_cell(pieces, pos.spec_to_bit_index()),
        0 <= pos.spec_to_bit_index() < 100,
        has_piece_at(pieces, pos) == cells_of(pieces)[pos.spec_to_bit_index()],
{
    if has_piece_at(pieces, pos) {
        let i = choose|i: int| 0 <= i < pieces.len() && (#[trigger] pieces[i]).pos == pos;
        assert(pieces[i].pos.spec_to_bit_index() == pos.spec_to_bit_index());
    }
    if occupied_cell(pieces, pos.spec_to_bit_index()) {
        let i = choose|i: int|
            0 <= i < pieces.len() && (#[trigger] pieces[i]).pos.spec_to_bit_index()
                == pos.spec_to_bit_index();
        lemma_bit_index_is_injective(pieces[i].pos, pos);
        assert(pieces[i].pos == pos);
    }
}

/// A piece that joins a list sets its cell and no other.
pub proof fn lemma_cells_of_push(pieces: Seq<Piece>, piece: Piece)
    requires
        piece.pos.in_bounds(),
    ensures
        cells_of(pieces.push(piece)) == cells_of(pieces).update(
            piece.pos.spec_to_bit_index(),
            true,
        ),
{
    let more = pieces.push(piece);
    let cell = piece.pos.spec_to_bit_index();
    assert forall|c: int| 0 <= c < 100 implies cells_of(more)[c] == cells_of(pieces).update(
        cell,
        true,
    )[c] by {
        if c == cell {
            assert(more[pieces.len() as int].pos.spec_to_bit_index() == c);
        } else {
            if occupied_cell(pieces, c) {
                let i = choose|i: int|
                    0 <= i < pieces.len() && (#[trigger] pieces[i]).pos.spec_to_bit_index() == c;
                assert(more[i].pos.spec_to_bit_index() == c);
            }
            if occupied_cell(more, c) {
                let i = choose|i: int|
                    0 <= i < more.len() && (#[trigger] more[i]).pos.spec_to_bit_index() == c;
                assert(pieces[i].pos.spec_to_bit_index() == c);
            }
        }
    }
    assert(cells_of(more) =~= cells_of(pieces).update(cell, true));
}

/// The bitmap of the cells on which the pieces of a list stand.
pub fn bitmap_of(pieces: &[Piece]) -> (bitmap: BoardBitmap)
    requires
        all_in_bounds(pieces@),
    ensures
        bitmap@ == cells_of(pieces@),
{
    let mut bitmap = BoardBitmap::new();
    let mut i: usize = 0;
    assert(bitmap@ =~= cells_of(pieces@.take(0)));
    while i < pieces.len()
        invariant
            i <= pieces.len(),
            all_in_bounds(pieces@),
            bitmap@ == cells_of(pieces@.take(i as int)),
        decreases pieces.len() - i,
    {
        let piece = pieces[i];
        proof {
            lemma_cells_of_push(pieces@.take(i as int), piece);
            assert(pieces@.take(i as int).push(piece) =~= pieces@.take(i + 1));
        }
        bitmap.set(piece.pos.to_bit_index(), true);
        i += 1;
    }
    assert(pieces@.take(i as int) =~= pieces@);
    bitmap
}

/// Whether the pieces of a side and its bitmap agree as `side_wf` says.
pub fn side_is_well_formed(pieces: &[Piece], bitmap: &BoardBitmap) -> (r: bool)
    ensures
        r == side_wf(pieces@, bitmap@),
{
    if pieces.len() > 8 {
        return false;
    }
    let mut i: usize = 0;
    while i < pieces.len()
        invariant
            i <= pieces.len(),
            forall|k: int| 0 <= k < i ==> (#[trigger] pieces@[k]).pos.in_bounds(),
            forall|k: int, m: int|
                0 <= k < m < i ==> (#[trigger] pieces@[k]).pos != (#[trigger] pieces@[m]).pos,
        decreases pieces.len() - i,
    {
        let pos = pieces[i].pos;
        if pos.x > 9 || pos.y > 9 {
            return false;
        }
        let mut j: usize = 0;
        while j < i
            invariant
                j <= i < pieces.len(),
                pos == pieces@[i as int].pos,
                forall|k: int| 0 <= k < j ==> (#[trigger] pieces@[k]).pos != pos,
            decreases i - j,
        {
            if pieces[j].pos == pos {
                return false;
            }
            j += 1;
        }
        i += 1;
    }
    *bitmap == bitmap_of(pieces)
}

/// The list after the first piece at `from` has gone to `to`.
pub open spec fn with_piece_moved(pieces: Seq<Piece>, from: Position, to: Position) -> Seq<Piece> {
    let i = first_piece_at(pieces, from);
    pieces.update(
        i,
        Piece { pos: to, rank: pieces[i].rank, has_moved: true, is_revealed: pieces[i].is_revealed },
    )
}

/// The list after the first piece at `at` has fought: it is revealed, and
/// where it died it is taken out, the last piece of the list taking its
/// place.
pub open spec fn with_battle_outcome(pieces: Seq<Piece>, at: Position, died: bool) -> Seq<Piece> {
    let i = first_piece_at(pieces, at);
    let shown = pieces.update(
        i,
        Piece {
            pos: pieces[i].pos,
            rank: pieces[i].rank,
            has_moved: pieces[i].has_moved,
            is_revealed: true,
        },
    );
    if died {
        shown.update(i, shown.last()).drop_last()
    } else {
        shown
    }
}

/// A move to a free cell of the board keeps the pieces of a side and its
/// bitmap in agreement, when the bit of the old cell is cleared and the bit
/// of the new cell is set.
pub proof fn lemma_move_keeps_side_wf(
    pieces: Seq<Piece>,
    cells: Seq<bool>,
    from: Position,
    to: Position,
)
    requires
        side_wf(pieces, cells),
        has_piece_at(pieces, from),
        !has_piece_at(pieces, to),
        to.in_bounds(),
    ensures
        side_wf(
            with_piece_moved(pieces, from, to),
            cells.update(from.spec_to_bit_index(), false).update(to.spec_to_bit_index(), true),
        ),
        has_piece_at(with_piece_moved(pieces, from, to), to),
        with_piece_moved(pieces, from, to).len() == pieces.len(),
{
    let i = first_piece_at(pieces, from);
    lemma_first_piece_exists(pieces, from);
    let moved = with_piece_moved(pieces, from, to);
    let new_cells = cells.update(from.spec_to_bit_index(), false).update(
        to.spec_to_bit_index(),
        true,
    );
    assert(moved[i].pos == to);
    assert(from.in_bounds());
    lemma_piece_at_is_occupied_cell(pieces, to);
    lemma_piece_at_is_occupied_cell(pieces, from);
    assert forall|k: int| 0 <= k < moved.len() implies (#[trigger] moved[k]).pos.in_bounds() by {
        if k != i {
            assert(moved[k] == pieces[k]);
        }
    }
    assert forall|k: int, m: int| 0 <= k < m < moved.len() implies (#[trigger] moved[k]).pos != (
    #[trigger] moved[m]).pos by {
        assert(pieces[k].pos != pieces[m].pos);
        if k == i {
            assert(moved[m] == pieces[m]);
        } else if m == i {
            assert(moved[k] == pieces[k]);
        }
    }
    assert forall|c: int| 0 <= c < 100 implies new_cells[c] == cells_of(moved)[c] by {
        if c == to.spec_to_bit_index() {
            assert(moved[i].pos.spec_to_bit_index() == c);
        } else if c == from.spec_to_bit_index() {
            if occupied_cell(moved, c) {
                let k = choose|k: int|
                    0 <= k < moved.len() && (#[trigger] moved[k]).pos.spec_to_bit_index() == c;
                assert(k != i);
                assert(moved[k] == pieces[k]);
                lemma_bit_index_is_injective(pieces[k].pos, from);
                if k < i {
                    assert(pieces[k].pos != pieces[i].pos);
                } else {
                    assert(pieces[i].pos != pieces[k].pos);
                }
            }
        } else {
            if occupied_cell(pieces, c) {
                let k = choose|k: int|
                    0 <= k < pieces.len() && (#[trigger] pieces[k]).pos.spec_to_bit_index() == c;
                assert(k != i);
                assert(moved[k].pos.spec_to_bit_index() == c);
            }
            if occupied_cell(moved, c) {
                let k = choose|k: int|
                    0 <= k < moved.len() && (#[trigger] moved[k]).pos.spec_to_bit_index() == c;
                assert(k != i);
                assert(pieces[k].pos.spec_to_bit_index() == c);
            }
        }
    }
    assert(new_cells =~= cells_of(moved));
}

/// A fight keeps the pieces of a side and its bitmap in agreement, when the
/// bit of the cell is cleared for a piece that died and set for one that
/// lived.
pub proof fn lemma_battle_keeps_side_wf(
    pieces: Seq<Piece>,
    cells: Seq<bool>,
    at: Position,
    died: bool,
)
    requires
        side_wf(pieces, cells),
        has_piece_at(pieces, at),
    ensures
        side_wf(
            with_battle_outcome(pieces, at, died),
            cells.update(at.spec_to_bit_index(), !died),
        ),
        has_piece_at(with_battle_outcome(pieces, at, died), at) == !died,
{
    let i = first_piece_at(pieces, at);
    lemma_first_piece_exists(pieces, at);
    let after = with_battle_outcome(pieces, at, died);
    let new_cells = cells.update(at.spec_to_bit_index(), !died);
    let last = pieces.len() - 1;
    assert(at.in_bounds());
    lemma_piece_at_is_occupied_cell(pieces, at);
    // Where each piece of the new list comes from.
    let origin = |k: int| if died && k == i { last } else { k };
    assert forall|k: int| 0 <= k < after.len() implies (#[trigger] after[k]).pos
        == pieces[origin(k)].pos && 0 <= origin(k) < pieces.len() && (died ==> origin(k) != i) by {}
    assert forall|k: int| 0 <= k < after.len() implies (#[trigger] after[k]).pos.in_bounds() by {
        assert(pieces[origin(k)].pos.in_bounds());
    }
    assert forall|k: int, m: int| 0 <= k < m < after.len() implies (#[trigger] after[k]).pos != (
    #[trigger] after[m]).pos by {
        let a = origin(k);
        let b = origin(m);
        assert(a != b);
        if a < b {
            assert(pieces[a].pos != pieces[b].pos);
        } else {
            assert(pieces[b].pos != pieces[a].pos);
        }
    }
    assert forall|c: int| 0 <= c < 100 implies new_cells[c] == cells_of(after)[c] by {
        if occupied_cell(after, c) {
            let k = choose|k: int|
                0 <= k < after.len() && (#[trigger] after[k]).pos.spec_to_bit_index() == c;
            assert(pieces[origin(k)].pos.spec_to_bit_index() == c);
            if died && c == at.spec_to_bit_index() {
                let a = origin(k);
                lemma_bit_index_is_injective(pieces[a].pos, at);
                if a < i {
                    assert(pieces[a].pos != pieces[i].pos);
                } else {
                    assert(pieces[i].pos != pieces[a].pos);
                }
            }
        }
        if occupied_cell(pieces, c) && !(died && c == at.spec_to_bit_index()) {
            let k = choose|k: int|
                0 <= k < pieces.len() && (#[trigger] pieces[k]).pos.spec_to_bit_index() == c;
            if died {
                assert(k != i);
                if k == last {
                    assert(after[i].pos.spec_to_bit_index() == c);
                } else {
                    assert(after[k].pos.spec_to_bit_index() == c);
                }
            } else {
                assert(after[k].pos.spec_to_bit_index() == c);
            }
        }
    }
    assert(new_cells =~= cells_of(after));
    if !died {
        assert(after[i].pos == at);
    } else if has_piece_at(after, at) {
        let k = choose|k: int| 0 <= k < after.len() && (#[trigger] after[k]).pos == at;
        let a = origin(k);
        if a < i {
            assert(pieces[a].pos != pieces[i].pos);
        } else {
            assert(pieces[i].pos != pieces[a].pos);
        }
    }
}

/// The pieces of a list, each where it stands after a half turn of the
/// board.
pub open spec fn turned(pieces: Seq<Piece>) -> Seq<Piece> {
    Seq::new(
        pieces.len(),
        |i: int|
            Piece {
                pos: pieces[i].pos.spec_reversed(),
                rank: pieces[i].rank,
                has_moved: pieces[i].has_moved,
                is_revealed: pieces[i].is_revealed,
            },
    )
}

/// A half turn of the board keeps the pieces of a side and its bitmap in
/// agreement, when the bitmap is reversed with the pieces.
pub proof fn lemma_turned_keeps_side_wf(pieces: Seq<Piece>, cells: Seq<bool>)
    requires
        side_wf(pieces, cells),
    ensures
        side_wf(turned(pieces), cells.reverse()),
{
    lemma_turned_cells(pieces);
    let t = turned(pieces);
    assert forall|k: int| 0 <= k < t.len() implies (#[trigger] t[k]).pos.in_bounds() by {
        lemma_reversed_is_involutive(pieces[k].pos);
    }
    assert forall|k: int, m: int| 0 <= k < m < t.len() implies (#[trigger] t[k]).pos != (
    #[trigger] t[m]).pos by {
        assert(pieces[k].pos != pieces[m].pos);
        lemma_reversed_is_involutive(pieces[k].pos);
        lemma_reversed_is_involutive(pieces[m].pos);
    }
}

/// The cells on which the pieces stand after a half turn of the board are
/// the cells on which they stood, in reverse order.
pub proof fn lemma_turned_cells(pieces: Seq<Piece>)
    requires
        all_in_bounds(pieces),
    ensures
        cells_of(turned(pieces)) == cells_of(pieces).reverse(),
{
    let t = turned(pieces);
    assert forall|c: int| 0 <= c < 100 implies cells_of(t)[c] == cells_of(pieces)[99 - c] by {
        if occupied_cell(t, c) {
            let k = choose|k: int|
                0 <= k < t.len() && (#[trigger] t[k]).pos.spec_to_bit_index() == c;
            lemma_reversed_bit_index(pieces[k].pos);
            assert(pieces[k].pos.spec_to_bit_index() == 99 - c);
        }
        if occupied_cell(pieces, 99 - c) {
            let k = choose|k: int|
                0 <= k < pieces.len() && (#[trigger] pieces[k]).pos.spec_to_bit_index() == 99 - c;
            lemma_reversed_bit_index(pieces[k].pos);
            assert(t[k].pos.spec_to_bit_index() == c);
        }
    }
    assert(cells_of(t) =~= cells_of(pieces).reverse());
}

/// `after` is the piece `before` at a later time: it has the same rank, and
/// it is still revealed if it was revealed, and has still moved if it had.
pub open spec fn stems_from(after: Piece, before: Piece) -> bool {
    &&& after.rank == before.rank
    &&& before.is_revealed ==> after.is_revealed
    &&& before.has_moved ==> after.has_moved
}

/// `piece` is a piece of the list `before` at a later time.
pub open spec fn has_origin(piece: Piece, before: Seq<Piece>) -> bool {
    exists|j: int| 0 <= j < before.len() && stems_from(piece, #[trigger] before[j])
}

/// Every piece of the list `after` is a piece of the list `before` at a
/// later time.
pub open spec fn all_stem_from(after: Seq<Piece>, before: Seq<Piece>) -> bool {
    forall|i: int| 0 <= i < after.len() ==> has_origin(#[trigger] after[i], before)
}

/// A move brings no new piece and hides none.
pub proof fn lemma_move_hides_nothing(pieces: Seq<Piece>, from: Position, to: Position)
    requires
        has_piece_at(pieces, from),
    ensures
        all_stem_from(with_piece_moved(pieces, from, to), pieces),
{
    lemma_first_piece_exists(pieces, from);
    let moved = with_piece_moved(pieces, from, to);
    assert forall|i: int| 0 <= i < moved.len() implies has_origin(#[trigger] moved[i], pieces) by {
        assert(stems_from(moved[i], pieces[i]));
    }
}

/// A fight brings no new piece and hides none, and the piece that fought is
/// revealed if it is still there.
pub proof fn lemma_battle_hides_nothing(pieces: Seq<Piece>, at: Position, died: bool)
    requires
        all_apart(pieces),
        has_piece_at(pieces, at),
    ensures
        all_stem_from(with_battle_outcome(pieces, at, died), pieces),
        forall|i: int|
            0 <= i < with_battle_outcome(pieces, at, died).len() && (#[trigger] with_battle_outcome(
                pieces,
                at,
                died,
            )[i]).pos == at ==> with_battle_outcome(pieces, at, died)[i].is_revealed,
{
    lemma_first_piece_exists(pieces, at);
    let k = first_piece_at(pieces, at);
    let after = with_battle_outcome(pieces, at, died);
    let last = pieces.len() - 1;
    assert forall|i: int| 0 <= i < after.len() implies has_origin(#[trigger] after[i], pieces) by {
        if died && i == k {
            assert(stems_from(after[i], pieces[last]));
        } else {
            assert(stems_from(after[i], pieces[i]));
        }
    }
    assert forall|i: int| 0 <= i < after.len() && (#[trigger] after[i]).pos
        == at implies after[i].is_revealed by {
        let j = if died && i == k {
            last
        } else {
            i
        };
        assert(after[i].pos == pieces[j].pos);
        if j < k {
            assert(pieces[j].pos != pieces[k].pos);
        } else if k < j {
            assert(pieces[k].pos != pieces[j].pos);
        }
    }
}

/// Stemming from carries over from list to list.
pub proof fn lemma_stems_from_is_transitive(a: Seq<Piece>, b: Seq<Piece>, c: Seq<Piece>)
    requires
        all_stem_from(a, b),
        all_stem_from(b, c),
    ensures
        all_stem_from(a, c),
{
    assert forall|i: int| 0 <= i < a.len() implies has_origin(#[trigger] a[i], c) by {
        let m = choose|m: int| 0 <= m < b.len() && stems_from(a[i], #[trigger] b[m]);
        assert(has_origin(b[m], c));
        let j = choose|j: int| 0 <= j < c.len() && stems_from(b[m], #[trigger] c[j]);
        assert(stems_from(a[i], c[j]));
    }
}

/// Turning the board twice puts every piece back.
pub proof fn lemma_turned_twice(pieces: Seq<Piece>)
    requires
        all_in_bounds(pieces),
    ensures
        turned(turned(pieces)) == pieces,
{
    assert forall|i: int| 0 <= i < pieces.len() implies turned(turned(pieces))[i] == pieces[i] by {
        lemma_reversed_is_involutive(pieces[i].pos);
    }
    assert(turned(turned(pieces)) =~= pieces);
}

} // verus!
