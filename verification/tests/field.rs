use nth_power::field::FieldElement;

/// The modulus, little-endian.
const MODULUS: [u8; 32] = [
    0x01, 0x00, 0x00, 0x00, 0xed, 0x30, 0x2d, 0x99, 0x1b, 0xf9, 0x4c, 0x09, 0xfc, 0x98, 0x46, 0x22,
    0x00, 0x00, 0x00, 0x00, 0x00, 0x00, 0x00, 0x00, 0x00, 0x00, 0x00, 0x00, 0x00, 0x00, 0x00, 0x40,
];

fn small(v: u64) -> [u8; 32] {
    let mut bytes = [0u8; 32];
    bytes[..8].copy_from_slice(&v.to_le_bytes());
    bytes
}

fn modulus_minus_one() -> FieldElement {
    let mut bytes = MODULUS;
    bytes[0] = 0x00;
    FieldElement::from_repr(bytes).unwrap()
}

#[test]
fn from_u64_gives_canonical_little_endian_bytes() {
    assert_eq!(FieldElement::from_u64(0).to_repr(), [0u8; 32]);
    assert_eq!(FieldElement::from_u64(5).to_repr(), small(5));
    assert_eq!(FieldElement::from_u64(4096).to_repr(), small(4096));
    assert_eq!(FieldElement::from_u64(u64::MAX).to_repr(), small(u64::MAX));
    assert_eq!(FieldElement::one().to_repr(), small(1));
    assert_eq!(FieldElement::zero().to_repr(), small(0));
}

#[test]
fn from_repr_takes_what_is_below_the_modulus_and_nothing_else() {
    assert!(FieldElement::from_repr(MODULUS).is_none());
    assert!(FieldElement::from_repr([0xff; 32]).is_none());
    let mut above = MODULUS;
    above[0] = 0x02;
    assert!(FieldElement::from_repr(above).is_none());

    let mut below = MODULUS;
    below[0] = 0x00;
    assert_eq!(FieldElement::from_repr(below).unwrap().to_repr(), below);
    assert_eq!(FieldElement::from_repr(small(7)).unwrap().to_repr(), small(7));
}

#[test]
fn mul_is_the_product_modulo_the_modulus() {
    let six = FieldElement::from_u64(2).mul(&FieldElement::from_u64(3));
    assert_eq!(six.to_repr(), small(6));

    let big = FieldElement::from_u64(u64::MAX).mul(&FieldElement::from_u64(u64::MAX));
    let mut expected = [0u8; 32];
    // (2^64 - 1)^2 = 2^128 - 2^65 + 1
    expected[..16].copy_from_slice(&(u128::MAX - (1u128 << 65) + 2).to_le_bytes());
    assert_eq!(big.to_repr(), expected);

    // (p - 1)^2 = 1 and (p - 1) * 2 = p - 2 modulo p
    let minus_one = modulus_minus_one();
    assert_eq!(minus_one.mul(&minus_one).to_repr(), small(1));
    let mut minus_two = MODULUS;
    minus_two[0] = 0xff;
    minus_two[1] = 0xff;
    minus_two[2] = 0xff;
    minus_two[3] = 0xff;
    minus_two[4] = 0xec;
    assert_eq!(minus_one.mul(&FieldElement::from_u64(2)).to_repr(), minus_two);
}

#[test]
fn add_is_the_sum_modulo_the_modulus() {
    let five = FieldElement::from_u64(2).add(&FieldElement::from_u64(3));
    assert_eq!(five.to_repr(), small(5));
    assert_eq!(modulus_minus_one().add(&FieldElement::one()).to_repr(), small(0));
    assert_eq!(modulus_minus_one().add(&FieldElement::from_u64(8)).to_repr(), small(7));
}

#[test]
fn neg_is_the_additive_inverse() {
    assert_eq!(FieldElement::zero().neg().to_repr(), small(0));
    assert_eq!(FieldElement::one().neg().to_repr(), modulus_minus_one().to_repr());
    assert_eq!(modulus_minus_one().neg().to_repr(), small(1));
    let nine = FieldElement::from_u64(9);
    assert_eq!(nine.neg().add(&nine).to_repr(), small(0));
}

#[test]
fn equals_compares_the_numbers() {
    assert!(FieldElement::from_u64(12).equals(&FieldElement::from_u64(12)));
    assert!(!FieldElement::from_u64(12).equals(&FieldElement::from_u64(13)));
    assert!(!FieldElement::from_u64(1).equals(&FieldElement::from_u64(1 << 8)));
    assert!(FieldElement::from_u64(3).mul(&FieldElement::from_u64(4)).equals(
        &FieldElement::from_u64(2).mul(&FieldElement::from_u64(6))
    ));
    assert!(!modulus_minus_one().equals(&FieldElement::zero()));
}
