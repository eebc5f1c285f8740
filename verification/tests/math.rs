use libslide::math::gcd::{binary_gcd, euclidean_gcd, gcd};
use libslide::math::gcd_poly_zz::{gcd_interpolate, gcd_poly_zz_heu};
use libslide::math::poly::Poly;

fn poly(v: &[isize]) -> Poly {
    Poly::new(v.to_vec())
}

const CASES: [(u64, u64, u64); 7] = [
    (13, 13, 13),
    (37, 600, 1),
    (20, 100, 20),
    (624_129, 2_061_517, 18_913),
    (600, 37, 1),
    (100, 20, 20),
    (2_061_517, 624_129, 18_913),
];

#[test]
fn test_euclidean_gcd() {
    for (u, v, r) in CASES.iter() {
        assert_eq!(euclidean_gcd(*u, *v), *r);
    }
}

#[test]
fn test_binary_gcd() {
    for (u, v, r) in CASES.iter() {
        assert_eq!(binary_gcd(*u, *v), *r);
    }
}

#[test]
fn binary_gcd_edge_cases() {
    // the gcd of a number and zero is that number
    assert_eq!(binary_gcd(0, 7), 7);
    assert_eq!(binary_gcd(7, 0), 7);
    assert_eq!(binary_gcd(0, 0), 0);
    assert_eq!(binary_gcd(48, 180), 12);
    assert_eq!(binary_gcd(1 << 40, 1 << 20), 1 << 20);
    assert_eq!(binary_gcd(u64::MAX, u64::MAX), u64::MAX);
}

#[test]
fn gcd_matches_euclid() {
    for (u, v, r) in CASES.iter() {
        assert_eq!(gcd(*u, *v), *r);
    }
    assert_eq!(gcd(0, 7), 7);
    assert_eq!(gcd(7, 0), 7);
    assert_eq!(gcd(0, 0), 0);
}

#[test]
fn add_1() {
    assert_eq!(poly(&[2, -1]).add_term(2, 4), poly(&[2, 0, 0, 2, -1]));
}

#[test]
fn add_2() {
    assert_eq!(poly(&[2, -1]).add_term(2, 1), poly(&[4, -1]));
}

#[test]
fn add_3() {
    assert_eq!(poly(&[3, 0, 5]).add_term(2, 1), poly(&[3, 2, 5]));
}

#[test]
fn add_zero_term_is_identity() {
    assert_eq!(poly(&[3, 0, 5]).add_term(0, 7), poly(&[3, 0, 5]));
}

#[test]
fn mul_1() {
    assert_eq!(poly(&[3, 0, 5]).mul_term(0, 2), Poly::empty());
}

#[test]
fn mul_2() {
    assert_eq!(poly(&[3, 0, 5]).mul_term(2, 2), poly(&[6, 0, 10, 0, 0]));
}

#[test]
fn sub_1() {
    assert_eq!(poly(&[3, 0, 5]).sub(poly(&[1, 0, 1])), poly(&[2, 0, 4]));
}

#[test]
fn sub_2() {
    assert_eq!(poly(&[1, 0, -1]).sub(poly(&[1, -2])), poly(&[1, -1, 1]));
}

#[test]
fn sub_3() {
    assert_eq!(poly(&[1, 0, -1]).sub(poly(&[1, -1, 0])), poly(&[1, -1]));
}

#[test]
fn sub_4() {
    assert_eq!(poly(&[1, 0, -1]).sub(poly(&[2, 3])), poly(&[1, -2, -4]));
}

#[test]
fn sub_5() {
    assert_eq!(poly(&[2, 3]).sub(poly(&[1, 0, -1])), poly(&[-1, 2, 4]));
}

#[test]
fn sub_of_empty_is_self() {
    assert_eq!(poly(&[2, 3]).sub(Poly::empty()), poly(&[2, 3]));
    assert_eq!(poly(&[1, 2]).sub(Poly::empty()), poly(&[1, 2]));
    assert_eq!(poly(&[0, 2, 3]).sub(Poly::empty()), poly(&[2, 3]));
}

#[test]
fn div_1() {
    assert_eq!(
        poly(&[1, 0, -1]).div(poly(&[2, -4])).unwrap(),
        (Poly::empty(), poly(&[1, 0, -1]))
    );
}

#[test]
fn div_2() {
    assert_eq!(
        poly(&[1, 0, -1]).div(poly(&[1, -1])).unwrap(),
        (poly(&[1, 1]), Poly::empty())
    )
}

#[test]
fn div_with_remainder() {
    assert_eq!(
        poly(&[1, 0, -2]).div(poly(&[1, 1])).unwrap(),
        (poly(&[1, -1]), poly(&[-1]))
    );
}

#[test]
fn div_difference_of_squares() {
    assert_eq!(
        poly(&[1, 0, -4]).div(poly(&[1, 2])),
        Ok((poly(&[1, -2]), Poly::empty()))
    );
}

#[test]
fn div_leading_zero_dividend() {
    assert_eq!(
        poly(&[0, 1, 0, -4]).div(poly(&[1, 2])),
        Ok((poly(&[1, -2]), Poly::empty()))
    );
    assert_eq!(
        poly(&[0, 0, 5]).div(poly(&[1, 2])),
        Ok((Poly::empty(), poly(&[5])))
    );
}

#[test]
fn div_overflow() {
    assert_eq!(
        poly(&[isize::MIN, 0]).div(poly(&[-1, 1])),
        Err("Arithmetic overflow in polynomial division")
    );
}

#[test]
fn div_by_zero_coefficients() {
    assert_eq!(
        poly(&[1, 2]).div(poly(&[0])),
        Err("Cannot divide by a 0 polynomial")
    );
    assert_eq!(
        Poly::empty().div(poly(&[0, 0])),
        Err("Cannot divide by a 0 polynomial")
    );
}

#[test]
fn div_leading_zero_divisor() {
    assert_eq!(
        poly(&[1, 0, -1]).div(poly(&[0, 1, -1])),
        Ok((poly(&[1, 1]), Poly::empty()))
    );
}

#[test]
fn div_by_zero_polynomial() {
    assert_eq!(
        poly(&[1, 2]).div(Poly::empty()),
        Err("Cannot divide by a 0 polynomial")
    );
}

#[test]
fn div_shorter_dividend() {
    assert_eq!(
        poly(&[5]).div(poly(&[1, 2])).unwrap(),
        (Poly::empty(), poly(&[5]))
    );
}

#[test]
fn primitive_divides_content() {
    assert_eq!(poly(&[6, 4, 2]).primitive(), poly(&[3, 2, 1]));
    assert_eq!(poly(&[-6, 4]).primitive(), poly(&[-3, 2]));
    assert_eq!(poly(&[3, 1]).primitive(), poly(&[3, 1]));
    assert_eq!(poly(&[0, 0]).primitive(), poly(&[0, 0]));
}

#[test]
fn eval_horner() {
    assert_eq!(poly(&[1, 0, -4]).eval(1), -3);
    assert_eq!(poly(&[2, 3, 4]).eval(10), 234);
    assert_eq!(Poly::empty().eval(5), 0);
}

#[test]
fn try_eval_overflow() {
    assert_eq!(poly(&[1, 0, 0]).try_eval(isize::MAX), None);
    assert_eq!(poly(&[1, 1]).try_eval(3), Some(4));
}

#[test]
fn norms_and_leading_coefficient() {
    assert_eq!(poly(&[3, -7, 2]).max_norm(), 7);
    assert_eq!(Poly::empty().max_norm(), 0);
    assert_eq!(poly(&[3, -7, 2]).lc(), 3);
    assert_eq!(Poly::empty().lc(), 0);
    assert_eq!(poly(&[3, -7, 2]).deg(), 2);
    assert_eq!(Poly::empty().deg(), -1);
}

#[test]
fn emptiness() {
    assert!(Poly::empty().is_empty());
    assert!(poly(&[0, 0]).is_empty());
    assert!(!poly(&[0, 1]).is_empty());
}

#[test]
fn scalar_operations() {
    assert_eq!(poly(&[1, -2]).mul_scalar(3), poly(&[3, -6]));
    assert_eq!(poly(&[1, -2]).negate(), poly(&[-1, 2]));
    assert_eq!(poly(&[4, -2]).div_scalar(1), Ok(poly(&[4, -2])));
    assert_eq!(poly(&[4, -2]).div_scalar(-1), Ok(poly(&[-4, 2])));
    assert_eq!(poly(&[4, -2]).div_scalar(2), Ok(poly(&[2, -1])));
    assert_eq!(poly(&[6, 4, 2]).div_scalar(2), Ok(poly(&[3, 2, 1])));
    assert_eq!(poly(&[5, -5]).div_scalar(2), Ok(poly(&[2, -2])));
    assert_eq!(
        poly(&[4, -2]).div_scalar(0),
        Err("Cannot divide a polynomial by 0")
    );
}

#[test]
fn truncate_leading_zeros() {
    assert_eq!(poly(&[0, 0, 1, 0]).truncate_zeros(), poly(&[1, 0]));
    assert_eq!(poly(&[0, 0]).truncate_zeros(), Poly::empty());
}

#[test]
fn test_gcd_poly_zz_heu_1() {
    assert_eq!(
        gcd_poly_zz_heu(poly(&[1, 0, -1]), poly(&[1, -3, 2])),
        Ok((poly(&[1, -1]), poly(&[1, 1]), poly(&[1, -2])))
    )
}

#[test]
fn test_gcd_poly_zz_heu_2() {
    assert_eq!(
        gcd_poly_zz_heu(poly(&[1, 10, 35, 50, 24]), poly(&[1, 1])),
        Ok((poly(&[1, 1]), poly(&[1, 9, 26, 24]), poly(&[1])))
    )
}

#[test]
fn test_gcd_poly_zz_heu_3() {
    assert_eq!(
        gcd_poly_zz_heu(poly(&[1, -9, -1, 9]), poly(&[1, -8, -9])),
        Ok((poly(&[1, -8, -9]), poly(&[1, -1]), poly(&[1])))
    )
}

#[test]
fn gcd_poly_trivial_cases() {
    assert_eq!(
        gcd_poly_zz_heu(Poly::empty(), Poly::empty()),
        Ok((Poly::empty(), Poly::empty(), Poly::empty()))
    );
    assert_eq!(
        gcd_poly_zz_heu(poly(&[1, 2, 3]), Poly::empty()),
        Ok((poly(&[1, 2, 3]), poly(&[1]), Poly::empty()))
    );
    assert_eq!(
        gcd_poly_zz_heu(poly(&[1, 1]), Poly::empty()),
        Ok((poly(&[1, 1]), poly(&[1]), Poly::empty()))
    );
    assert_eq!(
        gcd_poly_zz_heu(poly(&[0]), poly(&[4, 5])),
        Ok((poly(&[4, 5]), Poly::empty(), poly(&[1])))
    );
}

#[test]
fn gcd_poly_degree_one() {
    assert_eq!(
        gcd_poly_zz_heu(poly(&[1, 2]), poly(&[1, 0, 3])),
        Ok((poly(&[1]), poly(&[1, 2]), poly(&[1, 0, 3])))
    );
    assert_eq!(
        gcd_poly_zz_heu(poly(&[2, 4]), poly(&[2, 0, 6])),
        Ok((poly(&[2]), poly(&[1, 2]), poly(&[1, 0, 3])))
    );
    assert_eq!(
        gcd_poly_zz_heu(poly(&[1, 1]), poly(&[1, 0, -1])),
        Ok((poly(&[1, 1]), poly(&[1]), poly(&[1, -1])))
    );
}

#[test]
fn gcd_poly_common_content() {
    // the common content 2 is divided out and multiplied back into the gcd
    assert_eq!(
        gcd_poly_zz_heu(poly(&[2, 0, -2]), poly(&[2, -6, 4])),
        Ok((poly(&[2, -2]), poly(&[1, 1]), poly(&[1, -2])))
    );
    assert_eq!(
        gcd_poly_zz_heu(poly(&[2, 4]), poly(&[6, 2])),
        Ok((poly(&[2]), poly(&[1, 2]), poly(&[3, 1])))
    );
    // leading zero coefficients change nothing
    assert_eq!(
        gcd_poly_zz_heu(poly(&[0, 1, 0, -1]), poly(&[1, -3, 2])),
        Ok((poly(&[1, -1]), poly(&[1, 1]), poly(&[1, -2])))
    );
}

#[test]
fn interpolation_of_gcd_values() {
    assert_eq!(gcd_interpolate(32, 31), poly(&[1, 1]));
    assert_eq!(gcd_interpolate(30, 31), poly(&[1, -1]));
    assert_eq!(gcd_interpolate(0, 31), Poly::empty());
    assert_eq!(gcd_interpolate(-32, 31), poly(&[-1, -1]));
}
