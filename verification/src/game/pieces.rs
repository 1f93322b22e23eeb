//! The list of a player's pieces: a `tinyvec::ArrayVec` with room for 8.
//!
//! The verifier does not look into `tinyvec`. What this module says of its
//! functions is taken from their source and is believed, not proved.

use vstd::prelude::*;
use tinyvec::ArrayVec;
use crate::game::state::Piece;

verus! {

/// The type `ArrayVec` of `tinyvec`: a list that is held in an array. What
/// a list holds is known only through `piece_list`.
#[verifier::external_type_specification]
#[verifier::external_body]
#[verifier::reject_recursive_types(A)]
pub struct ExArrayVec<A>(ArrayVec<A>);

/// The pieces that a list holds, in the order of the list.
pub uninterp spec fn piece_list(list: ArrayVec<[Piece; 8]>) -> Seq<Piece>;

/// `ArrayVec::new`: a list without pieces.
#[verifier::external_body]
pub(crate) fn new_piece_list() -> (list: ArrayVec<[Piece; 8]>)
    ensures
        piece_list(list) == Seq::<Piece>::empty(),
{
    ArrayVec::new()
}

/// `ArrayVec::push`: the piece is added at the end. The call panics on a
/// full list, which holds 8 pieces, so the list must be shorter.
#[verifier::external_body]
pub(crate) fn push_piece(list: &mut ArrayVec<[Piece; 8]>, piece: Piece)
    requires
        piece_list(*old(list)).len() < 8,
    ensures
        piece_list(*final(list)) == piece_list(*old(list)).push(piece),
{
    list.push(piece)
}

/// `ArrayVec::as_slice`: the pieces of the list as a slice, which is never
/// longer than the 8 places of the backing array.
#[verifier::external_body]
pub(crate) fn pieces_as_slice(list: &ArrayVec<[Piece; 8]>) -> (slice: &[Piece])
    ensures
        slice@ == piece_list(*list),
        slice@.len() <= 8,
{
    list.as_slice()
}

/// `IndexMut::index_mut` of `ArrayVec`, with an index below the length: the
/// piece at `index` is replaced and the others stay.
#[verifier::external_body]
pub(crate) fn set_piece(list: &mut ArrayVec<[Piece; 8]>, index: usize, piece: Piece)
    requires
        index < piece_list(*old(list)).len(),
    ensures
        piece_list(*final(list)) == piece_list(*old(list)).update(index as int, piece),
{
    list[index] = piece;
}

/// `ArrayVec::swap_remove`, with an index below the length: the piece at
/// `index` is taken out and returned, and the last piece of the list takes
/// its place.
#[verifier::external_body]
pub(crate) fn swap_remove_piece(list: &mut ArrayVec<[Piece; 8]>, index: usize) -> (removed: Piece)
    requires
        index < piece_list(*old(list)).len(),
    ensures
        removed == piece_list(*old(list))[index as int],
        piece_list(*final(list)) == piece_list(*old(list)).update(
            index as int,
            piece_list(*old(list)).last(),
        ).drop_last(),
{
    list.swap_remove(index)
}

} // verus!
