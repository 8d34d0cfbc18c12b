use cyclotomic_ring::ConvertibleRing;
use cyclotomic_ring::Decompose;
use cyclotomic_ring::Zq;
use cyclotomic_ring::decompose_balanced;

#[test]
fn five_base_three_gives_balanced_digits() {
    // Every digit is centered, so 5 = -1 - 1*3 + 1*9.
    let x: Zq<17> = Zq::from_signed(5);
    let digits = x.decompose(3, None);
    assert_eq!(digits.len(), 3);
    assert_eq!(digits[0].to_signed(), -1);
    assert_eq!(digits[1].to_signed(), -1);
    assert_eq!(digits[2].to_signed(), 1);
}

#[test]
fn five_base_four_gives_balanced_digits() {
    // 5 = 1 + 1*4, and both digits lie in (-2, 2].
    let x: Zq<17> = Zq::from_signed(5);
    let digits = x.decompose(4, None);
    assert_eq!(digits.len(), 2);
    assert_eq!(digits[0].to_signed(), 1);
    assert_eq!(digits[1].to_signed(), 1);
}

#[test]
fn zero_decomposes_to_empty() {
    let x: Zq<17> = Zq::from_signed(0);
    let digits = x.decompose(3, None);
    assert!(digits.is_empty());
}

#[test]
fn zero_with_padding_gives_zero_digits() {
    let x: Zq<17> = Zq::from_signed(0);
    let digits = x.decompose(3, Some(4));
    assert_eq!(digits.len(), 4);
    for d in &digits {
        assert_eq!(d.to_signed(), 0);
    }
}

#[test]
fn padding_extends_with_identity() {
    let x: Zq<17> = Zq::from_signed(5);
    let digits = x.decompose(3, Some(5));
    assert_eq!(digits.len(), 5);
    assert_eq!(digits[0].to_signed(), -1);
    assert_eq!(digits[1].to_signed(), -1);
    assert_eq!(digits[2].to_signed(), 1);
    for d in &digits[3..] {
        assert_eq!(d.to_signed(), 0);
    }
}

#[test]
fn padding_never_truncates() {
    let x: Zq<17> = Zq::from_signed(5);
    let digits = x.decompose(3, Some(1));
    assert_eq!(digits.len(), 3);
    assert_eq!(digits[0].to_signed(), -1);
    assert_eq!(digits[1].to_signed(), -1);
    assert_eq!(digits[2].to_signed(), 1);
}

#[test]
fn digits_balanced_and_recompose_for_many_values() {
    for b in [3u128, 4, 5, 10, 96] {
        for raw in 0u64..97 {
            let x: Zq<97> = Zq::from_unsigned(raw as u128);
            let v = x.to_signed();
            let digits = decompose_balanced(&x, b, None);
            let mut sum: i128 = 0;
            let mut pow: i128 = 1;
            for d in &digits {
                let dv = d.to_signed();
                assert!(-(b as i128) < 2 * dv && 2 * dv <= b as i128);
                sum += dv * pow;
                pow *= b as i128;
            }
            assert_eq!(sum, v);
        }
    }
}

#[test]
fn base_two_on_nonnegative_values() {
    for raw in 0u64..=8 {
        let x: Zq<17> = Zq::from_u64(raw);
        let v = x.to_signed();
        if v < 0 {
            continue;
        }
        let digits = x.decompose(2, None);
        let mut sum: i128 = 0;
        let mut pow: i128 = 1;
        for d in &digits {
            let dv = d.to_signed();
            assert!(dv == 0 || dv == 1);
            sum += dv * pow;
            pow *= 2;
        }
        assert_eq!(sum, v);
    }
}

#[test]
fn large_base_gives_single_digit() {
    let x: Zq<97> = Zq::from_signed(-7);
    let digits = x.decompose(96, None);
    assert_eq!(digits.len(), 1);
    assert_eq!(digits[0].to_signed(), -7);
}
