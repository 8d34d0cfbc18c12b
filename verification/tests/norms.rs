use cyclotomic_ring::ConvertibleRing;
use cyclotomic_ring::Pow2CyclotomicPolyRing;
use cyclotomic_ring::WithL2Norm;
use cyclotomic_ring::WithLinfNorm;
use cyclotomic_ring::Zq;
use num_bigint::BigUint;

fn poly_from_signed<const Q: u64, const PHI_D: usize>(
    values: &[i64],
) -> Pow2CyclotomicPolyRing<Q, PHI_D> {
    assert_eq!(values.len(), PHI_D);
    let coeffs: Vec<Zq<Q>> = values.iter().map(|&v| Zq::from_signed(v as i128)).collect();
    Pow2CyclotomicPolyRing::from_coeffs(coeffs)
}

#[test]
fn scalar_l2_norm_is_square_of_signed_value() {
    let x: Zq<17> = Zq::from_signed(-3);
    assert_eq!(x.l2_norm_squared(), BigUint::from(9u32));
    let y: Zq<17> = Zq::from_signed(5);
    assert_eq!(y.l2_norm_squared(), BigUint::from(25u32));
}

#[test]
fn scalar_linf_norm_is_magnitude_of_signed_value() {
    let x: Zq<17> = Zq::from_signed(-3);
    assert_eq!(x.linf_norm(), BigUint::from(3u32));
    let y: Zq<17> = Zq::from_signed(5);
    assert_eq!(y.linf_norm(), BigUint::from(5u32));
}

#[test]
fn scalar_norms_vanish_only_at_identity() {
    let zero: Zq<17> = Zq::identity();
    assert_eq!(zero.l2_norm_squared(), BigUint::from(0u32));
    assert_eq!(zero.linf_norm(), BigUint::from(0u32));
    for raw in 1u128..17 {
        let x: Zq<17> = Zq::from_unsigned(raw);
        assert_ne!(x.l2_norm_squared(), BigUint::from(0u32));
        assert_ne!(x.linf_norm(), BigUint::from(0u32));
    }
}

#[test]
fn poly_l2_norm_sums_coefficient_squares() {
    let p: Pow2CyclotomicPolyRing<17, 4> = poly_from_signed(&[1, 2, 3, 4]);
    assert_eq!(p.l2_norm_squared(), BigUint::from(30u32));
    let n: Pow2CyclotomicPolyRing<17, 4> = poly_from_signed(&[-1, 2, -3, 4]);
    assert_eq!(n.l2_norm_squared(), BigUint::from(30u32));
}

#[test]
fn poly_linf_norm_takes_maximum_magnitude() {
    let p: Pow2CyclotomicPolyRing<17, 4> = poly_from_signed(&[1, -7, 3, 4]);
    assert_eq!(p.linf_norm(), BigUint::from(7u32));
}

#[test]
fn poly_norms_vanish_only_at_zero_polynomial() {
    let z: Pow2CyclotomicPolyRing<17, 4> = poly_from_signed(&[0, 0, 0, 0]);
    assert_eq!(z.l2_norm_squared(), BigUint::from(0u32));
    assert_eq!(z.linf_norm(), BigUint::from(0u32));
    let p: Pow2CyclotomicPolyRing<17, 4> = poly_from_signed(&[0, 0, -1, 0]);
    assert_ne!(p.l2_norm_squared(), BigUint::from(0u32));
    assert_ne!(p.linf_norm(), BigUint::from(0u32));
}

#[test]
fn large_modulus_norms_exceed_machine_words() {
    // A coefficient near q/2 for a modulus close to 2^64 squares to a value
    // beyond u64, which the big-integer result carries exactly.
    const Q: u64 = 0xffff_ffff_0000_0001;
    let half: i128 = (Q as i128) / 2;
    let x: Zq<Q> = Zq::from_signed(half);
    let expected = BigUint::from(half as u128) * BigUint::from(half as u128);
    assert_eq!(x.l2_norm_squared(), expected);
    assert_eq!(x.linf_norm(), BigUint::from(half as u128));
}

#[test]
fn poly_l2_norm_beyond_u128() {
    // Eight coefficients near q/2 for a modulus close to 2^64: the summed
    // squares pass 2^128, which only the big-integer accumulation carries.
    const Q: u64 = 0xffff_ffff_0000_0001;
    let half: i128 = (Q as i128) / 2;
    let coeffs: Vec<Zq<Q>> = (0..8).map(|_| Zq::from_signed(half)).collect();
    let p: Pow2CyclotomicPolyRing<Q, 8> = Pow2CyclotomicPolyRing::from_coeffs(coeffs);
    let square = BigUint::from(half as u128) * BigUint::from(half as u128);
    let expected = square * BigUint::from(8u32);
    assert_eq!(p.l2_norm_squared(), expected);
    assert_eq!(p.linf_norm(), BigUint::from(half as u128));
}
