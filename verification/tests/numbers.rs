use circ_eval::bigint::BigInt;
use circ_eval::bignat::{BigNat, Rank};
use circ_eval::bits::BitOp;
use circ_eval::bv::BitVector;

fn same(a: &BigNat, b: &BigNat) -> bool {
    matches!(a.compare(b), Rank::Same)
}

fn n(x: u128) -> BigNat {
    BigNat::from_u128(x)
}

#[test]
fn sums_and_differences() {
    let a = n(u128::MAX);
    let b = a.plus(&n(1));
    assert!(same(&b, &n(1).shift_left(128)));
    assert!(same(&b.minus(&n(1)), &a));
    assert!(b.minus(&b).is_zero());
    assert!(matches!(a.compare(&b), Rank::Below));
    assert!(matches!(b.compare(&a), Rank::Above));
}

#[test]
fn products_and_quotients() {
    let a = n(0x1234_5678_9abc_def0_0fed_cba9_8765_4321);
    let b = n(0xffff_ffff_ffff_ffff_ffff);
    let p = a.times(&b).plus(&n(17));
    let (q, r) = p.div_rem(&b);
    assert!(same(&q, &a));
    assert!(same(&r, &n(17)));
    let (q, r) = n(5).div_rem(&b);
    assert!(q.is_zero());
    assert!(same(&r, &n(5)));
}

#[test]
fn shifts_and_bits_of_naturals() {
    let a = n(0b1011);
    assert!(same(&a.shift_left(70).shift_right(69), &n(0b10110)));
    assert!(a.shift_right(4).is_zero());
    assert!(same(&a.low_bits(2), &n(0b11)));
    assert!(same(&a.shift_left(100).low_bits(101), &n(1).shift_left(100)));
    assert!(a.get_bit(0) && a.get_bit(1) && !a.get_bit(2) && a.get_bit(3) && !a.get_bit(400));
    assert_eq!(a.significant_bits(), 4);
    assert_eq!(n(0).significant_bits(), 0);
    assert_eq!(a.shift_left(100).significant_bits(), 104);
}

#[test]
fn digit_wise_operators_on_naturals() {
    let (a, b) = (n(0b1100).shift_left(64), n(0b1010).shift_left(64));
    assert!(same(&a.bitwise(BitOp::And, &b), &n(0b1000).shift_left(64)));
    assert!(same(&a.bitwise(BitOp::Or, &b), &n(0b1110).shift_left(64)));
    assert!(same(&a.bitwise(BitOp::Xor, &b), &n(0b0110).shift_left(64)));
    assert!(same(&a.bitwise(BitOp::Or, &n(1)), &a.plus(&n(1))));
}

#[test]
fn bytes_of_naturals() {
    let a = n(0x0102_0304_0506);
    assert_eq!(a.to_le_bytes(8), vec![6, 5, 4, 3, 2, 1, 0, 0]);
    assert_eq!(a.to_le_bytes(2), vec![6, 5]);
    assert!(same(&BigNat::from_le_bytes(&[6, 5, 4, 3, 2, 1]), &a));
    assert!(same(&BigNat::from_be_bytes(&[0, 1, 2, 3, 4, 5, 6]), &a));
    assert!(BigNat::from_le_bytes(&[]).is_zero());
    let wide: Vec<u8> = (1..=40).collect();
    assert_eq!(BigNat::from_le_bytes(&wide).to_le_bytes(40), wide);
}

#[test]
fn naturals_as_machine_numbers() {
    assert_eq!(BigNat::from_usize(usize::MAX).to_usize(), Some(usize::MAX));
    assert_eq!(BigNat::from_usize(usize::MAX).plus(&n(1)).to_usize(), None);
    assert_eq!(n(0).to_usize(), Some(0));
}

#[test]
fn signed_integers() {
    let a = BigInt::from_i128(i128::MIN);
    assert!(a.is_negative());
    assert!(same(a.abs(), &n(1).shift_left(127)));
    assert!(a.plus(&a.negate()).is_zero());
    assert!(!a.negate().is_negative());
    assert!(same(&BigInt::from_i128(-1).residue(&n(7)), &n(6)));
    assert!(same(&BigInt::from_i128(15).residue(&n(7)), &n(1)));
    assert_eq!(BigInt::from_i128(-8).significant_bits(), 4);
}

#[test]
fn inverses_of_integers() {
    let p = n((1 << 127) - 1);
    let a = BigInt::from_i128(1234567890123456789);
    let w = a.invert(&p).unwrap();
    let one = a.times(&BigInt::from_nat(w)).residue(&p);
    assert!(same(&one, &n(1)));
    assert!(BigInt::from_i128(10).invert(&n(15)).is_none());
    assert!(BigInt::from_i128(10).invert(&n(0)).is_none());
}

#[test]
fn bit_vectors_that_fit() {
    assert!(BitVector::new(n(15), 4).is_some());
    assert!(BitVector::new(n(16), 4).is_none());
    assert!(BitVector::new(n(0), 0).is_some());
    assert!(same(BitVector::wrap(&n(19), 4).uint(), &n(3)));
    assert!(BitVector::wrap(&n(8), 4).sign());
    assert!(!BitVector::wrap(&n(7), 4).sign());
}
