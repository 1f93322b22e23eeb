//! Bitmaps of the 10×10 board, and the reversal of the bits of a 128-bit
//! word on which the reversal of a bitmap rests.

use vstd::prelude::*;
use vstd::std_specs::cmp::PartialEqSpecImpl;

verus! {

/// The number of unused bits below the first cell. The same number of bits
/// is unused above the last cell, so that reversing all 128 bits maps cells
/// onto cells.
pub const OFFSET: usize = 14;

/// The unused bits of the word: the 14 lowest and the 14 highest.
pub const PADDING: u128 = 0xfffc0000000000000000000000003fff;

/// Bit `i` of `x`, counted from the least significant bit.
pub open spec fn bit(x: u128, i: u128) -> bool {
    (x >> i) & 1 == 1
}

/// The 128 bits of `x`, least significant first.
pub open spec fn bits_of(x: u128) -> Seq<bool> {
    Seq::new(128, |i: int| bit(x, i as u128))
}

/// `x` with neighbouring blocks of `s` bits exchanged; `m` selects the lower
/// block of each pair.
pub open spec fn exchange(x: u128, s: u128, m: u128) -> u128 {
    ((x >> s) & m) | ((x & m) << s)
}

/// `x` with its 16 bytes in reverse order: pairs of bytes are exchanged,
/// then pairs of such pairs, and so on up to the two halves.
pub open spec fn spec_reverse_byte_order(x: u128) -> u128 {
    let x = exchange(x, 8, 0x00ff00ff00ff00ff00ff00ff00ff00ff);
    let x = exchange(x, 16, 0x0000ffff0000ffff0000ffff0000ffff);
    let x = exchange(x, 32, 0x00000000ffffffff00000000ffffffff);
    exchange(x, 64, 0x0000000000000000ffffffffffffffff)
}

/// `x` with the bits of each byte in reverse order: the halves of each byte
/// are exchanged, then the pairs of bits in each half, then the bits in each
/// pair.
pub open spec fn spec_reverse_epi8(x: u128) -> u128 {
    let x = exchange(x, 4, 0x0f0f0f0f0f0f0f0f0f0f0f0f0f0f0f0f);
    let x = exchange(x, 2, 0x33333333333333333333333333333333);
    exchange(x, 1, 0x55555555555555555555555555555555)
}

/// Where each bit goes when the bytes are reversed.
proof fn lemma_reverse_byte_order_bit(x: u128, i: u128)
    by (bit_vector)
    requires
        i < 128,
    ensures
        bit(spec_reverse_byte_order(x), i) == bit(x, (8 * (15 - i / 8) + i % 8) as u128),
{
}

/// Where each bit goes when the bits of each byte are reversed.
proof fn lemma_reverse_epi8_bit(x: u128, i: u128)
    by (bit_vector)
    requires
        i < 128,
    ensures
        bit(spec_reverse_epi8(x), i) == bit(x, (8 * (i / 8) + (7 - i % 8)) as u128),
{
}

/// Where each bit goes when both reversals are done.
proof fn lemma_reverse_bits_bit(x: u128, i: u128)
    by (bit_vector)
    requires
        i < 128,
    ensures
        bit(spec_reverse_epi8(spec_reverse_byte_order(x)), i) == bit(x, (127 - i) as u128),
{
}

/// Reverses the order of the 16 bytes of `x`: byte `b` of the result is byte
/// `15 - b` of `x`, with the bits inside each byte in their old order.
pub fn reverse_byte_order_m128i(x: u128) -> (r: u128)
    ensures
        r == spec_reverse_byte_order(x),
        forall|i: int|
            0 <= i < 128 ==> #[trigger] bits_of(r)[i] == bits_of(x)[8 * (15 - i / 8) + i % 8],
{
    let x1: u128 = ((x >> 8) & 0x00ff00ff00ff00ff00ff00ff00ff00ff) | ((x
        & 0x00ff00ff00ff00ff00ff00ff00ff00ff) << 8);
    let x2: u128 = ((x1 >> 16) & 0x0000ffff0000ffff0000ffff0000ffff) | ((x1
        & 0x0000ffff0000ffff0000ffff0000ffff) << 16);
    let x3: u128 = ((x2 >> 32) & 0x00000000ffffffff00000000ffffffff) | ((x2
        & 0x00000000ffffffff00000000ffffffff) << 32);
    let r: u128 = ((x3 >> 64) & 0x0000000000000000ffffffffffffffff) | ((x3
        & 0x0000000000000000ffffffffffffffff) << 64);
    proof {
        assert forall|i: int| 0 <= i < 128 implies #[trigger] bits_of(r)[i] == bits_of(x)[8 * (15
            - i / 8) + i % 8] by {
            lemma_reverse_byte_order_bit(x, i as u128);
        }
    }
    r
}

/// Reverses the order of the bits inside each of the 16 bytes of `x`, and
/// leaves every byte in its place.
pub fn m128i_reverse_epi8(x: u128) -> (r: u128)
    ensures
        r == spec_reverse_epi8(x),
        forall|i: int|
            0 <= i < 128 ==> #[trigger] bits_of(r)[i] == bits_of(x)[8 * (i / 8) + (7 - i % 8)],
{
    let x1: u128 = ((x >> 4) & 0x0f0f0f0f0f0f0f0f0f0f0f0f0f0f0f0f) | ((x
        & 0x0f0f0f0f0f0f0f0f0f0f0f0f0f0f0f0f) << 4);
    let x2: u128 = ((x1 >> 2) & 0x33333333333333333333333333333333) | ((x1
        & 0x33333333333333333333333333333333) << 2);
    let r: u128 = ((x2 >> 1) & 0x55555555555555555555555555555555) | ((x2
        & 0x55555555555555555555555555555555) << 1);
    proof {
        assert forall|i: int| 0 <= i < 128 implies #[trigger] bits_of(r)[i] == bits_of(x)[8 * (i
            / 8) + (7 - i % 8)] by {
            lemma_reverse_epi8_bit(x, i as u128);
        }
    }
    r
}

/// Reverses the order of all 128 bits of `x`.
pub fn m128i_reverse_bits(x: u128) -> (r: u128)
    ensures
        r == spec_reverse_epi8(spec_reverse_byte_order(x)),
        bits_of(r) == bits_of(x).reverse(),
{
    let r: u128 = m128i_reverse_epi8(reverse_byte_order_m128i(x));
    proof {
        assert forall|i: int| 0 <= i < 128 implies bits_of(r)[i] == bits_of(x).reverse()[i] by {
            lemma_reverse_bits_bit(x, i as u128);
        }
        assert(bits_of(r) =~= bits_of(x).reverse());
    }
    r
}

/// The position of the lowest bit set in `x`, found by halving.
spec fn lowest_set_bit(x: u128) -> u128 {
    let n6: u128 = if x & 0xffffffffffffffff == 0 { 64 } else { 0 };
    let x6 = x >> n6;
    let n5: u128 = if x6 & 0xffffffff == 0 { 32 } else { 0 };
    let x5 = x6 >> n5;
    let n4: u128 = if x5 & 0xffff == 0 { 16 } else { 0 };
    let x4 = x5 >> n4;
    let n3: u128 = if x4 & 0xff == 0 { 8 } else { 0 };
    let x3 = x4 >> n3;
    let n2: u128 = if x3 & 0xf == 0 { 4 } else { 0 };
    let x2 = x3 >> n2;
    let n1: u128 = if x2 & 0x3 == 0 { 2 } else { 0 };
    let x1 = x2 >> n1;
    let n0: u128 = if x1 & 0x1 == 0 { 1 } else { 0 };
    (n6 | n5 | n4 | n3 | n2 | n1 | n0)
}

/// A word that is not zero has a bit set at the position that the halving
/// finds.
proof fn lemma_lowest_set_bit(x: u128)
    by (bit_vector)
    requires
        x != 0,
    ensures
        lowest_set_bit(x) < 128,
        bit(x, lowest_set_bit(x)),
{
}

/// Where the exclusive or of two words has a bit set, the words differ.
proof fn lemma_differing_bit(a: u128, b: u128, i: u128)
    by (bit_vector)
    requires
        i < 128,
        bit(a ^ b, i),
    ensures
        bit(a, i) != bit(b, i),
{
}

/// The exclusive or of two different words is not zero.
proof fn lemma_xor_of_distinct(a: u128, b: u128)
    by (bit_vector)
    requires
        a != b,
    ensures
        a ^ b != 0,
{
}

/// Two words with the same 128 bits are the same word.
pub proof fn lemma_bits_determine_word(a: u128, b: u128)
    requires
        bits_of(a) == bits_of(b),
    ensures
        a == b,
{
    if a != b {
        lemma_xor_of_distinct(a, b);
        lemma_lowest_set_bit(a ^ b);
        let i = lowest_set_bit(a ^ b);
        lemma_differing_bit(a, b, i);
        assert(bits_of(a)[i as int] == bit(a, i));
        assert(bits_of(b)[i as int] == bit(b, i));
    }
}

/// The unused bits of a word with clear padding are not set.
proof fn lemma_padding_bit(x: u128, i: u128)
    by (bit_vector)
    requires
        x & PADDING == 0,
        i < 14 || 114 <= i < 128,
    ensures
        !bit(x, i),
{
}

/// Setting or clearing one bit changes that bit and no other.
proof fn lemma_set_bit(x: u128, i: u128, j: u128)
    by (bit_vector)
    requires
        i < 128,
        j < 128,
    ensures
        bit(x | (1u128 << i), j) == (j == i || bit(x, j)),
        bit(x & !(1u128 << i), j) == (j != i && bit(x, j)),
{
}

/// Setting or clearing the bit of a cell keeps the padding clear.
proof fn lemma_set_keeps_padding(x: u128, i: u128)
    by (bit_vector)
    requires
        x & PADDING == 0,
        14 <= i < 114,
    ensures
        (x | (1u128 << i)) & PADDING == 0,
        (x & !(1u128 << i)) & PADDING == 0,
{
}

/// Reversing a word with clear padding keeps the padding clear.
proof fn lemma_reverse_keeps_padding(x: u128)
    by (bit_vector)
    requires
        x & PADDING == 0,
    ensures
        spec_reverse_epi8(spec_reverse_byte_order(x)) & PADDING == 0,
{
}

/// One bit for each of the 100 cells of the board, cell `x + 10 * y` at
/// index `x + 10 * y`.
///
/// The cells are held in the middle of a 128-bit word, with 14 unused bits
/// on each side, so that a reversal of the whole word is a reversal of the
/// cells. The unused bits are always zero.
#[derive(Clone, Copy, Debug)]
pub struct BoardBitmap {
    data: u128,
}

impl View for BoardBitmap {
    type V = Seq<bool>;

    /// The 100 cells, in index order.
    closed spec fn view(&self) -> Seq<bool> {
        Seq::new(100, |i: int| bit(self.data, (i + 14) as u128))
    }
}

impl BoardBitmap {
    /// The unused bits are zero, so that two bitmaps with the same cells
    /// are the same word.
    #[verifier::type_invariant]
    spec fn padding_is_clear(self) -> bool {
        self.data & PADDING == 0
    }

    /// A bitmap always has exactly 100 cells.
    pub proof fn lemma_cells(self)
        ensures
            self@.len() == 100,
    {
    }

    /// The bitmap with no cell set.
    pub fn new() -> (r: BoardBitmap)
        ensures
            r@ == Seq::new(100, |i: int| false),
    {
        assert(0u128 & PADDING == 0) by (bit_vector);
        let r = BoardBitmap { data: 0 };
        proof {
            assert forall|i: int| 0 <= i < 100 implies r@[i] == false by {
                let k = (i + 14) as u128;
                assert(!bit(0u128, k)) by (bit_vector);
            }
            assert(r@ =~= Seq::new(100, |i: int| false));
        }
        r
    }

    /// Sets cell `idx` to `val` and leaves every other cell as it is.
    pub fn set(&mut self, idx: usize, val: bool)
        requires
            idx < 100,
        ensures
            final(self)@ == old(self)@.update(idx as int, val),
    {
        proof {
            use_type_invariant(&*self);
        }
        let shift: u128 = (idx + OFFSET) as u128;
        let mask: u128 = 1u128 << shift;
        let data: u128 = if val {
            self.data | mask
        } else {
            self.data & !mask
        };
        proof {
            lemma_set_keeps_padding(self.data, shift);
            assert forall|j: int| 0 <= j < 100 implies bit(data, (j + 14) as u128) == old(
                self,
            )@.update(idx as int, val)[j] by {
                lemma_set_bit(self.data, shift, (j + 14) as u128);
            }
        }
        self.data = data;
        assert(self@ =~= old(self)@.update(idx as int, val));
    }

    /// Whether cell `idx` is set.
    pub fn get(&self, idx: usize) -> (r: bool)
        requires
            idx < 100,
        ensures
            r == self@[idx as int],
    {
        let shift: u128 = (idx + OFFSET) as u128;
        (self.data >> shift) & 1 == 1
    }

    /// The bitmap seen from the opposite side of the board: cell `99 - i` of
    /// the result is cell `i` of `self`, for each of the 100 cells.
    pub fn reversed(&self) -> (r: BoardBitmap)
        ensures
            r@ == self@.reverse(),
            forall|i: int| 0 <= i < 100 ==> r@[99 - i] == self@[i],
    {
        proof {
            use_type_invariant(self);
            lemma_reverse_keeps_padding(self.data);
        }
        let r = BoardBitmap { data: m128i_reverse_bits(self.data) };
        proof {
            assert forall|i: int| 0 <= i < 100 implies r@[i] == self@.reverse()[i] by {
                assert(bits_of(r.data)[i + 14] == bits_of(self.data).reverse()[i + 14]);
            }
            assert(r@ =~= self@.reverse());
        }
        r
    }
}

/// Reversing the cells twice gives the cells back.
pub proof fn lemma_reverse_is_involutive(cells: Seq<bool>)
    ensures
        cells.reverse().reverse() == cells,
{
    assert(cells.reverse().reverse() =~= cells);
}

/// Reversing the cells moves the cell at index `i` to index `99 - i`.
pub proof fn lemma_reverse_is_exact(cells: Seq<bool>, i: int)
    requires
        cells.len() == 100,
        0 <= i < 100,
    ensures
        cells.reverse()[99 - i] == cells[i],
{
}

impl PartialEq for BoardBitmap {
    /// Two bitmaps are equal when all 100 cells agree.
    fn eq(&self, other: &Self) -> (r: bool) {
        proof {
            use_type_invariant(self);
            use_type_invariant(other);
            if self@ == other@ {
                assert forall|i: int| 0 <= i < 128 implies bits_of(self.data)[i] == bits_of(
                    other.data,
                )[i] by {
                    if 14 <= i < 114 {
                        assert(self@[i - 14] == other@[i - 14]);
                    } else {
                        lemma_padding_bit(self.data, i as u128);
                        lemma_padding_bit(other.data, i as u128);
                    }
                }
                assert(bits_of(self.data) =~= bits_of(other.data));
                lemma_bits_determine_word(self.data, other.data);
            }
        }
        self.data == other.data
    }
}

impl PartialEqSpecImpl for BoardBitmap {
    open spec fn obeys_eq_spec() -> bool {
        true
    }

    open spec fn eq_spec(&self, other: &Self) -> bool {
        self@ == other@
    }
}

} // verus!
