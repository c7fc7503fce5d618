use piranhas::bitboard::Bitboard;

#[test]
fn are_bits_set() {
    let index = 4;
    let bits = (0b1 << index) - 1;
    let bitboard = Bitboard::from_bits(bits);
    assert!(bitboard.are_bits_set(bits));
    assert!(!bitboard.are_bits_set(0b1 << index));
}

#[test]
fn is_bit_set() {
    let index = 5;
    let bitboard = Bitboard::from_bits(0b1 << index);
    assert!(bitboard.is_bit_set(index));
    assert!(!bitboard.is_bit_set(index + 1));
}

#[test]
fn index_from_coordinates() {
    let x = 3;
    let y = 2;
    assert_eq!(Bitboard::index_from_coordinates(x, y), 23);
}

#[test]
fn set_field() {
    let x = 5;
    let y = 3;
    let index = Bitboard::index_from_coordinates(x, y);
    let mut bitboard = Bitboard::new();
    bitboard.set_field(x, y);
    assert_eq!(bitboard, Bitboard::from_bits(0b1 << index));
}

#[test]
fn clear_bit() {
    let index = 6;
    let mut bitboard_set = Bitboard::from_bits(0b1 << index);
    let bitboard = Bitboard::new();
    bitboard_set.clear_bit(index);
    assert_eq!(bitboard, bitboard_set);
}

#[test]
fn set_bit() {
    let index = 6;
    let bitboard_set = Bitboard::from_bits(0b1 << index);
    let mut bitboard = Bitboard::new();
    bitboard.set_bit(index);
    assert_eq!(bitboard, bitboard_set);
}

#[test]
fn not() {
    let seed = 3578234;
    let bitboard = Bitboard::from_bits(seed);
    let opposite_bitboard = Bitboard::from_bits(!seed);
    assert_eq!(bitboard, !!bitboard);
    assert_eq!(bitboard, !opposite_bitboard);
    assert_eq!(!bitboard, opposite_bitboard);
}

#[test]
fn bitand() {
    let seed1 = 3578234;
    let seed2 = 5382982;
    let bitboard = Bitboard::from_bits(seed1);
    let other_bitboard = Bitboard::from_bits(seed2);
    let and_bitboard = Bitboard::from_bits(seed1 & seed2);
    assert_eq!(bitboard & other_bitboard, and_bitboard);
}

#[test]
fn bitor() {
    let seed1 = 3578234;
    let seed2 = 5382982;
    let bitboard = Bitboard::from_bits(seed1);
    let other_bitboard = Bitboard::from_bits(seed2);
    let or_bitboard = Bitboard::from_bits(seed1 | seed2);
    assert_eq!(bitboard | other_bitboard, or_bitboard);
}

#[test]
fn bitboard_new() {
    let bitboard = Bitboard::new();
    let same_bitboard = Bitboard::from_bits(0);
    assert_eq!(bitboard, same_bitboard);
    assert_ne!(bitboard, Bitboard::from_bits(1));
}

#[test]
fn count_and_first() {
    let bitboard = Bitboard::from_bits((1 << 23) | (1 << 57) | (1 << 99));
    assert_eq!(bitboard.count_ones(), 3);
    assert_eq!(bitboard.get_first_index(), 23);
    assert_eq!(bitboard.get_first(), (3, 2));
    assert_eq!(bitboard.get_fields(), vec![(3, 2), (7, 5), (9, 9)]);
    assert_eq!(Bitboard::new().get_first_index(), 128);
    assert_eq!(Bitboard::coordinates_from_index(57), (7, 5));
}

#[test]
fn iterators_ascending() {
    let bitboard = Bitboard::from_bits((1 << 4) | (1 << 40) | (1 << 2));
    let mut it = bitboard.iter();
    assert_eq!(it.next(), Some((2, 0)));
    assert_eq!(it.next(), Some((4, 0)));
    assert_eq!(it.next(), Some((0, 4)));
    assert_eq!(it.next(), None);
    let mut it = piranhas::iterators::BitboardIndexIter::new(bitboard.bits);
    assert_eq!(it.next(), Some(2));
    assert_eq!(it.next(), Some(4));
    assert_eq!(it.next(), Some(40));
    assert_eq!(it.next(), None);
}

#[test]
fn clear_and_mask() {
    let mut b = Bitboard::from_bits(0b1111);
    b.clear_bits(0b0101);
    assert_eq!(b.bits, 0b1010);
    b.set_bits(0b1);
    assert_eq!(b.bits, 0b1011);
    b.mask(0b0011);
    assert_eq!(b.bits, 0b0011);
    b.clear_field(1, 0);
    assert_eq!(b.bits, 0b0001);
    assert!(b.is_field_set(0, 0));
}
