use cyclotomic_ring::ConvertibleRing;
use cyclotomic_ring::Pow2CyclotomicPolyRing;
use cyclotomic_ring::Zq;

fn poly_from_signed<const Q: u64, const PHI_D: usize>(
    values: &[i64],
) -> Pow2CyclotomicPolyRing<Q, PHI_D> {
    assert_eq!(values.len(), PHI_D);
    let coeffs: Vec<Zq<Q>> = values.iter().map(|&v| Zq::from_signed(v as i128)).collect();
    Pow2CyclotomicPolyRing::from_coeffs(coeffs)
}

fn signed_of<const Q: u64>(coeffs: &[Zq<Q>]) -> Vec<i128> {
    coeffs.iter().map(|c| c.to_signed()).collect()
}

#[test]
fn rotation_by_one_wraps_with_sign_flip() {
    // x^3 wraps to index 0 as -4: [1,2,3,4] * x = [-4,1,2,3].
    let p: Pow2CyclotomicPolyRing<7681, 4> = poly_from_signed(&[1, 2, 3, 4]);
    let r = p.multiply_by_xi(1);
    assert_eq!(signed_of(&r), vec![-4, 1, 2, 3]);
}

#[test]
fn rotation_by_zero_is_identity() {
    let p: Pow2CyclotomicPolyRing<7681, 4> = poly_from_signed(&[1, 2, 3, 4]);
    let r = p.multiply_by_xi(0);
    assert_eq!(signed_of(&r), vec![1, 2, 3, 4]);
}

#[test]
fn rotation_antiperiodicity() {
    // A full cycle negates every coefficient: x^4 = -1.
    let p: Pow2CyclotomicPolyRing<7681, 4> = poly_from_signed(&[1, -2, 3, -4]);
    let r = p.multiply_by_xi(4);
    assert_eq!(signed_of(&r), vec![-1, 2, -3, 4]);
}

#[test]
fn rotation_composes_within_one_cycle() {
    let p: Pow2CyclotomicPolyRing<7681, 4> = poly_from_signed(&[1, 2, 3, 4]);
    let once = Pow2CyclotomicPolyRing::<7681, 4>::from_coeffs(p.multiply_by_xi(1));
    let composed = once.multiply_by_xi(2);
    let direct = p.multiply_by_xi(3);
    assert_eq!(signed_of(&composed), signed_of(&direct));
}

#[test]
fn rotation_composition_past_one_cycle_negates() {
    // Shifting by 3 and then 2 passes a full cycle of 4: the result is the
    // negation of shifting by 1.
    let p: Pow2CyclotomicPolyRing<7681, 4> = poly_from_signed(&[1, 2, 3, 4]);
    let part = Pow2CyclotomicPolyRing::<7681, 4>::from_coeffs(p.multiply_by_xi(3));
    let composed = part.multiply_by_xi(2);
    let direct = p.multiply_by_xi(1);
    let negated: Vec<i128> = signed_of(&direct).iter().map(|v| -v).collect();
    assert_eq!(signed_of(&composed), negated);
}

#[test]
fn rotation_accumulates_in_degenerate_ring() {
    // Degree 1: x = -1, so multiplying [c] by x gives [-c].
    let p: Pow2CyclotomicPolyRing<17, 1> = poly_from_signed(&[5]);
    let r = p.multiply_by_xi(1);
    assert_eq!(signed_of(&r), vec![-5]);
}
