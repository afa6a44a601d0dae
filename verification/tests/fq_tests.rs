use poseidon_parameters::fq::Fq;

const Q_BYTES: [u8; 32] = [
    1, 0, 0, 0, 0, 128, 17, 10, 1, 0, 0, 208, 254, 118, 170, 89, 1, 176, 55, 92, 30, 77, 180, 96,
    86, 165, 44, 154, 94, 101, 171, 18,
];

fn q_minus_one() -> Fq {
    let mut bytes = Q_BYTES;
    bytes[0] = 0;
    Fq::from_bytes_checked(bytes).expect("q - 1 is canonical")
}

#[test]
fn from_u64_encodes_little_endian() {
    let x = Fq::from_u64(0x0102_0304_0506_0708);
    let bytes = x.to_bytes();
    assert_eq!(&bytes[..8], &[8, 7, 6, 5, 4, 3, 2, 1]);
    assert!(bytes[8..].iter().all(|b| *b == 0));
}

#[test]
fn zero_one_and_default() {
    assert_eq!(Fq::zero().to_bytes(), [0u8; 32]);
    assert_eq!(Fq::default(), Fq::zero());
    let mut one = [0u8; 32];
    one[0] = 1;
    assert_eq!(Fq::one().to_bytes(), one);
    assert_ne!(Fq::one(), Fq::zero());
}

#[test]
fn small_products() {
    assert_eq!(Fq::from_u64(2) * Fq::from_u64(3), Fq::from_u64(6));
    assert_eq!(Fq::from_u64(7) * Fq::zero(), Fq::zero());
    assert_eq!(Fq::from_u64(7) * Fq::one(), Fq::from_u64(7));
    assert_eq!(
        (Fq::from_u64(u64::MAX) * Fq::from_u64(u64::MAX)).to_bytes()[..16],
        (u128::MAX - 2 * (u64::MAX as u128)).to_le_bytes()[..]
    );
}

#[test]
fn products_reduce_modulo_q() {
    // (q - 1) * (q - 1) = 1 and (q - 1) * 2 = q - 2 modulo q.
    let m = q_minus_one();
    assert_eq!(m * m, Fq::one());
    let mut q_minus_two = Q_BYTES;
    q_minus_two[0] = 0;
    q_minus_two[5] = 127;
    q_minus_two[4] = 255;
    q_minus_two[3] = 255;
    q_minus_two[2] = 255;
    q_minus_two[1] = 255;
    q_minus_two[0] = 255;
    assert_eq!((m * Fq::from_u64(2)).to_bytes(), q_minus_two);
}

#[test]
fn canonical_encodings_only() {
    assert!(Fq::from_bytes_checked(Q_BYTES).is_none());
    assert!(Fq::from_bytes_checked([0xff; 32]).is_none());
    assert!(Fq::from_bytes_checked([0; 32]).is_some());
    let mut q_plus_one = Q_BYTES;
    q_plus_one[0] = 2;
    assert!(Fq::from_bytes_checked(q_plus_one).is_none());
    let m = q_minus_one();
    let mut expected = Q_BYTES;
    expected[0] = 0;
    assert_eq!(m.to_bytes(), expected);
    assert_eq!(Fq::from_bytes_checked(m.to_bytes()), Some(m));
}
