use stratego::boardbitmap::m128i_reverse_bits;
use stratego::boardbitmap::m128i_reverse_epi8;
use stratego::boardbitmap::reverse_byte_order_m128i;
use stratego::boardbitmap::BoardBitmap;

/// The 16 bytes of a word, lowest first.
fn bytes(x: u128) -> [u8; 16] {
    x.to_le_bytes()
}

/// The two 64-bit halves of a word, lower first.
fn halves(x: u128) -> [u64; 2] {
    [x as u64, (x >> 64) as u64]
}

#[test]
fn test_board_prototype() {
    let mut x = BoardBitmap::new();

    for i in 0..50 {
        x.set(i * 2, true);
    }

    for i in 0..50 {
        assert!(!x.get(i * 2 + 1));
        assert!(x.get(i * 2));
    }

    let x = x.reversed();

    for i in 0..50 {
        assert!(x.get(i * 2 + 1));
        assert!(!x.get(i * 2));
    }
}

#[test]
fn test_reverse128() {
    let a: u128 = 0x00_11_22_33_44_55_66_77_88_99_aa_bb_cc_dd_ee_ff;

    let b = m128i_reverse_bits(a);

    let expected_reverse: u128 = 0xff_77_bb_33_dd_55_99_11_ee_66_aa_22_cc_44_88_00;

    let c = halves(b);
    let d = halves(expected_reverse);

    assert_eq!(c, d);
}

#[test]
fn test_byte_and_bit_order() {
    // The byte furthest from the lowest one comes first in the literal.
    let x: u128 = 0x18_17_16_15_14_13_12_11_08_07_06_05_04_03_02_01;

    let xs = bytes(x);
    assert_eq!(xs[..8], [0x01, 0x02, 0x03, 0x04, 0x05, 0x06, 0x07, 0x08]);
    assert_eq!(xs[8..], [0x11, 0x12, 0x13, 0x14, 0x15, 0x16, 0x17, 0x18]);

    let xs = halves(x);
    assert_eq!(xs[0], 0x08_07_06_05_04_03_02_01);
    assert_eq!(xs[1], 0x18_17_16_15_14_13_12_11);

    {
        // Shift `x` 2 bytes to the left.
        let slx = x << 16;
        let xs = halves(slx);

        assert_eq!(xs[0], 0x06_05_04_03_02_01_00_00);
        assert_eq!(xs[1], 0x16_15_14_13_12_11_08_07);
    }

    {
        // The byte at index i ends up at index (15 - i).
        let reversed_bytes = reverse_byte_order_m128i(x);
        let xs = bytes(reversed_bytes);

        assert_eq!(xs[..8], [0x18, 0x17, 0x16, 0x15, 0x14, 0x13, 0x12, 0x11]);
        assert_eq!(xs[8..], [0x08, 0x07, 0x06, 0x05, 0x04, 0x03, 0x02, 0x01]);

        // Reversing the bits of each byte after that reverses the whole word.
        let reversed = m128i_reverse_epi8(reversed_bytes);
        let xs = bytes(reversed);

        assert_eq!(xs[..8], [0x18, 0xe8, 0x68, 0xa8, 0x28, 0xc8, 0x48, 0x88]);
        assert_eq!(xs[8..], [0x10, 0xe0, 0x60, 0xa0, 0x20, 0xc0, 0x40, 0x80]);

        assert_eq!(bytes(reversed), bytes(m128i_reverse_bits(x)));
    }

    {
        let x: u128 = 0x0f_ff;

        let xs = bytes(x);
        assert_eq!(xs[0], 0xff);

        let x = x << (14 * 8);
        let xs = bytes(x);
        assert_eq!(xs[14..], [0xff, 0x0f]);

        let x = x << 4;
        let xs = bytes(x);
        assert_eq!(xs[15], 0xff);
        assert_eq!(xs[14], 0xf0);
    }
}

#[test]
fn new_bitmap_is_empty() {
    let bitmap = BoardBitmap::new();
    for i in 0..100 {
        assert!(!bitmap.get(i));
    }
}

#[test]
fn set_touches_one_cell_only() {
    for i in 0..100 {
        let mut bitmap = BoardBitmap::new();
        bitmap.set(i, true);
        for j in 0..100 {
            assert_eq!(bitmap.get(j), i == j);
        }
        bitmap.set(i, false);
        assert!(bitmap == BoardBitmap::new());
    }
}

#[test]
fn set_can_clear_among_set_cells() {
    let mut bitmap = BoardBitmap::new();
    for i in 0..100 {
        bitmap.set(i, true);
    }
    bitmap.set(0, false);
    bitmap.set(57, false);
    bitmap.set(99, false);
    for j in 0..100 {
        assert_eq!(bitmap.get(j), j != 0 && j != 57 && j != 99);
    }
}

#[test]
fn reversed_is_exact_on_every_cell() {
    for i in 0..100 {
        let mut bitmap = BoardBitmap::new();
        bitmap.set(i, true);
        let reversed = bitmap.reversed();
        for j in 0..100 {
            assert_eq!(reversed.get(99 - j), bitmap.get(j));
            assert_eq!(reversed.get(j), j == 99 - i);
        }
    }
}

#[test]
fn reversed_twice_is_the_same_bitmap() {
    let mut bitmap = BoardBitmap::new();
    for i in [0usize, 1, 9, 10, 42, 55, 98, 99] {
        bitmap.set(i, true);
    }
    assert!(bitmap.reversed().reversed() == bitmap);
    assert!(bitmap.reversed() != bitmap);
}

#[test]
fn equality_is_on_the_cells() {
    let mut a = BoardBitmap::new();
    let mut b = BoardBitmap::new();
    assert!(a == b);
    a.set(99, true);
    assert!(a != b);
    b.set(99, true);
    assert!(a == b);
}

#[test]
fn reverse_bits_of_single_bits() {
    for i in 0..128 {
        assert_eq!(m128i_reverse_bits(1u128 << i), 1u128 << (127 - i));
    }
    assert_eq!(m128i_reverse_bits(0), 0);
    assert_eq!(m128i_reverse_bits(u128::MAX), u128::MAX);
}
