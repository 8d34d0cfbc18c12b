use cyclotomic_ring::CRT;
use cyclotomic_ring::ICRT;
use cyclotomic_ring::Pow2CyclotomicPolyRing;
use cyclotomic_ring::Pow2CyclotomicPolyRingNTT;
use cyclotomic_ring::Zq;

/// A small deterministic generator, enough to spread coefficients over the
/// whole ring for round-trip testing.
struct TestRng {
    state: u64,
}

impl TestRng {
    fn new(seed: u64) -> Self {
        TestRng { state: seed }
    }

    fn next_u64(&mut self) -> u64 {
        self.state = self
            .state
            .wrapping_mul(6364136223846793005)
            .wrapping_add(1442695040888963407);
        self.state >> 11
    }
}

fn random_poly<const Q: u64, const PHI_D: usize>(
    rng: &mut TestRng,
) -> Pow2CyclotomicPolyRing<Q, PHI_D> {
    let coeffs: Vec<Zq<Q>> = (0..PHI_D).map(|_| Zq::from_u64(rng.next_u64())).collect();
    Pow2CyclotomicPolyRing::from_coeffs(coeffs)
}

#[test]
fn crt_icrt_round_trip() {
    let mut rng = TestRng::new(42);
    for _ in 0..1000 {
        let original: Pow2CyclotomicPolyRing<7681, 8> = random_poly(&mut rng);
        let original_coeffs = original.coeffs();
        let ntt_form: Pow2CyclotomicPolyRingNTT<7681, 8> = original.crt();
        let converted_back: Pow2CyclotomicPolyRing<7681, 8> = ntt_form.icrt();
        assert_eq!(original_coeffs, converted_back.coeffs());
    }
}

#[test]
fn crt_vec_preserves_order_and_length() {
    let mut rng = TestRng::new(7);
    let polys: Vec<Pow2CyclotomicPolyRing<7681, 4>> =
        (0..5).map(|_| random_poly(&mut rng)).collect();
    let expected: Vec<Vec<Zq<7681>>> = polys.iter().map(|p| p.coeffs()).collect();
    let ntts = Pow2CyclotomicPolyRing::crt_vec(polys);
    assert_eq!(ntts.len(), 5);
    for (n, e) in ntts.iter().zip(expected.iter()) {
        assert_eq!(&n.coeffs(), e);
    }
}

#[test]
fn icrt_vec_preserves_order_and_length() {
    let mut rng = TestRng::new(9);
    let ntts: Vec<Pow2CyclotomicPolyRingNTT<7681, 4>> = (0..5)
        .map(|_| {
            let coeffs: Vec<Zq<7681>> = (0..4).map(|_| Zq::from_u64(rng.next_u64())).collect();
            Pow2CyclotomicPolyRingNTT::from_coeffs(coeffs)
        })
        .collect();
    let expected: Vec<Vec<Zq<7681>>> = ntts.iter().map(|n| n.coeffs()).collect();
    let polys = Pow2CyclotomicPolyRingNTT::icrt_vec(ntts);
    assert_eq!(polys.len(), 5);
    for (p, e) in polys.iter().zip(expected.iter()) {
        assert_eq!(&p.coeffs(), e);
    }
}
