use libslide::bignum::modulo::{binary_skip_mod, single_skip_mod};
use libslide::bignum::utils::{convert_poly, ispowerof2, normalize_vecs, recast_user_vec, truncate_zeros};
use libslide::bignum::Bignum;

/// Reads a decimal literal such as "-12.50" into a number.
fn num(s: &str) -> Bignum {
    let (is_neg, body) = match s.strip_prefix('-') {
        Some(rest) => (true, rest),
        None => (false, s),
    };
    let (int_part, dec_part) = match body.find('.') {
        Some(i) => (&body[..i], &body[i + 1..]),
        None => (body, ""),
    };
    let int: Vec<u8> = int_part.bytes().rev().map(|b| b - b'0').collect();
    let dec: Vec<u8> = dec_part.bytes().map(|b| b - b'0').collect();
    Bignum { is_neg, int, dec }
}

/// Writes a number the way the decimal literals are written, without superfluous zeros.
fn show(n: &Bignum) -> String {
    let mut int: Vec<u8> = n.int.clone();
    while int.len() > 1 && *int.last().unwrap() == 0 {
        int.pop();
    }
    let mut dec: Vec<u8> = n.dec.clone();
    while !dec.is_empty() && *dec.last().unwrap() == 0 {
        dec.pop();
    }
    let mut out = String::new();
    let zero = int.iter().all(|d| *d == 0) && dec.is_empty();
    if n.is_neg && !zero {
        out.push('-');
    }
    if int.is_empty() {
        out.push('0');
    }
    for d in int.iter().rev() {
        out.push((b'0' + d) as char);
    }
    if !dec.is_empty() {
        out.push('.');
        for d in dec.iter() {
            out.push((b'0' + d) as char);
        }
    }
    out
}

#[test]
fn bignum_add() {
    let cases = [
        ("5", "5", "10"),
        ("55", "13", "68"),
        ("5", "15", "20"),
        ("55555555555555555555555", "5555555555555555", "55555561111111111111110"),
        ("99999999999999999999999999999999", "999999999999999999999", "100000000000999999999999999999998"),
        ("111", "1", "112"),
        ("0.1", "0.1", "0.2"),
        ("0.111", "0.1", "0.211"),
        ("0.1", "0.111", "0.211"),
        ("0.5", "0.9", "1.4"),
        ("0.55555", "0.99", "1.54555"),
        ("0.555555555555555555555555555", "0.555555555555555555", "1.111111111111111110555555555"),
        ("0.99999999999999999", "0.999999999999999999999999999999", "1.999999999999999989999999999999"),
        ("0.1112", "0.923", "1.0342"),
        ("1.1", "1.1", "2.2"),
        ("1.9999999", "9999.99999", "10001.9999899"),
        ("99999999999999.999999999999", "99999999999.99999", "100099999999999.999989999999"),
    ];
    for (l, r, res) in cases.iter() {
        assert_eq!(show(&num(l).add(num(r))), *res, "{} + {}", l, r);
    }
}

#[test]
fn bignum_add_mixed_signs() {
    assert_eq!(show(&num("5").add(num("-3"))), "2");
    assert_eq!(show(&num("-5").add(num("3"))), "-2");
    assert_eq!(show(&num("-5").add(num("-3"))), "-8");
    assert_eq!(show(&num("-1.5").add(num("1.5"))), "0");
}

#[test]
fn bignum_sub() {
    let cases = [
        ("1", "2", "-1"),
        ("2", "1", "1"),
        ("10", "1", "9"),
        ("10000", "9999", "1"),
        ("9000000000", "101000000000000000000", "-100999999991000000000"),
        ("5", "10", "-5"),
        ("0.1", "0.1", "0"),
        ("0.2", "0.1", "0.1"),
        ("0.1", "0.2", "-0.1"),
        ("0.10", "0.09", "0.01"),
        ("0.10099", "0.10099", "0"),
        ("0.1", "0.0000099", "0.0999901"),
        ("0.999999999999999999999900000000000000", "0.55555539999999999999", "0.4444446000000000000099"),
        ("1.1", "1.1", "0"),
        ("1.999999", "9999.999", "-9997.999001"),
        ("99999999999999.999999999999", "100000000000000000000000000.", "-99999999999900000000000000.000000000001"),
        ("-5", "5", "-10"),
        ("-10", "5", "-15"),
        ("5", "-10", "15"),
        ("-555555", "999999", "-1555554"),
        ("-10", "-10", "0"),
        ("-0.1", "0.1", "-0.2"),
        ("-0.2", "0.1", "-0.3"),
        ("-0.1", "0.2", "-0.3"),
        ("-0.1", "-0.1", "0"),
        ("-12332.55", "1.0", "-12333.55"),
        ("-12332.55", "-1.0", "-12331.55"),
        ("1.0", "-12332.55", "12333.55"),
        ("-1.0", "-12332.55", "12331.55"),
    ];
    for (l, r, res) in cases.iter() {
        assert_eq!(show(&num(l).sub(num(r))), *res, "{} - {}", l, r);
    }
}

#[test]
fn bignum_sub_zero_is_not_negative() {
    let r = num("-10").sub(num("-10"));
    assert!(!r.is_neg);
    assert!(r.int.is_empty() && r.dec.is_empty());
}

#[test]
fn bignum_mul() {
    let cases = [
        ("99", "99", "9801"),
        ("5", "5", "25"),
        ("10", "10", "100"),
        ("999", "999", "998001"),
        ("9", "1", "9"),
        ("9", "10", "90"),
        ("25", "25", "625"),
        ("12345678", "12345678", "152415765279684"),
        ("0.001", "0.01", "0.00001"),
        ("0.003", "0.212", "0.000636"),
        ("0.192781230589", "0.12182387511", "0.02348535655882644773979"),
        ("1.0", "1.0", "1"),
        ("12912572835.19235098273", "19325812.193812388322389", "249545957551850939.50568665382187490021134197"),
        ("0000.00", "0", "0"),
        ("0.0000", "0", "0"),
        ("0", "0.000", "0"),
        ("0.0", "00.00", "0"),
        ("-0", "00.00", "0"),
        ("0.0000", "-00000.000", "0"),
        ("-0.00", "-0000.00", "0"),
        ("1.00000", "000001.0000", "1"),
        ("5", ".5", "2.5"),
    ];
    for (l, r, res) in cases.iter() {
        assert_eq!(show(&num(l).mul(num(r))), *res, "{} * {}", l, r);
    }
}

#[test]
fn bignum_mul_signs() {
    assert_eq!(show(&num("-3").mul(num("4"))), "-12");
    assert_eq!(show(&num("-3").mul(num("-4"))), "12");
    assert!(num("-3").mul(num("4")).is_neg);
}

#[test]
fn bignum_modulo() {
    let cases = [
        ("5", "3", "2"),
        ("5", "7", "5"),
        ("92138591", "29135", "13721"),
        ("10201231.1235123", "139581", "11818.1235123"),
        ("1000.00000", "1001", "1000"),
        ("000010000.00000", "100000", "10000"),
    ];
    for (l, r, res) in cases.iter() {
        assert_eq!(show(&num(l).rem(num(r))), *res, "{} % {}", l, r);
    }
}

#[test]
fn bignum_modulo_strategies() {
    let cases = [
        ("5", "3", "2"),
        ("5", "7", "5"),
        ("92138591", "29135", "13721"),
        ("10201231.1235123", "139581", "11818.1235123"),
        ("5", "5", "0"),
        ("-7", "3", "2"),
    ];
    for (l, r, res) in cases.iter() {
        assert_eq!(show(&binary_skip_mod(num(l), num(r))), *res, "{} % {}", l, r);
        assert_eq!(show(&single_skip_mod(num(l), num(r))), *res, "{} % {}", l, r);
    }
}

#[test]
fn bignum_negation_and_sign_tests() {
    let n = num("12.5").neg();
    assert!(n.is_neg);
    assert_eq!(show(&n), "-12.5");
    assert!(num("0.001").is_positive());
    assert!(!num("0.000").is_positive());
    assert!(num("-0.001").is_negative());
    assert!(!num("-0").is_negative());
    assert_eq!(show(&num("7.25").copy()), "7.25");
}

#[test]
fn digit_vector_helpers() {
    assert_eq!(truncate_zeros(vec![1, 2, 0, 0]), vec![1, 2]);
    assert_eq!(truncate_zeros(vec![0, 0]), Vec::<u8>::new());
    assert_eq!(normalize_vecs(vec![1, 2, 3], vec![4]), (vec![1, 2, 3], vec![4, 0, 0]));
    assert_eq!(normalize_vecs(vec![1], vec![4, 5]), (vec![1, 0], vec![4, 5]));
    assert!(ispowerof2(1));
    assert!(ispowerof2(64));
    assert!(!ispowerof2(0));
    assert!(!ispowerof2(12));
    assert_eq!(recast_user_vec(vec![1, 255]), Ok(vec![1u8, 255u8]));
    assert_eq!(recast_user_vec(vec![256]), Err("Try From Method failed to cast"));
    assert_eq!(convert_poly(vec![12, 34, 5]), vec![2, 5, 8]);
    assert_eq!(convert_poly(vec![95, 9]), vec![1, 5, 8]);
}

#[test]
fn abs_drops_the_sign() {
    let a = libslide::bignum::utils::abs(&num("-3.5"));
    assert!(!a.is_neg);
    assert_eq!(show(&a), "3.5");
}

#[test]
fn bignum_representation_is_normalized() {
    // a zero remainder of a nonnegative number is not negative
    for (l, r) in [("5", "5"), ("10", "5"), ("0", "3")].iter() {
        let m = binary_skip_mod(num(l), num(r));
        assert!(!m.is_neg, "{} % {}", l, r);
        let s = single_skip_mod(num(l), num(r));
        assert!(!s.is_neg, "{} % {}", l, r);
    }
    // differences and products carry no leading integer or trailing fractional zeros
    let d = num("10.50").sub(num("0.25"));
    assert_eq!(d.int, vec![0, 1]);
    assert_eq!(d.dec, vec![2, 5]);
    let z = num("2.5").sub(num("2.5"));
    assert!(!z.is_neg);
    assert!(z.int.is_empty() && z.dec.is_empty());
    let p = num("2.5").mul(num("4"));
    assert_eq!(p.int, vec![0, 1]);
    assert!(p.dec.is_empty());
    // a sum of numbers without leading zeros has none
    let s = num("95").add(num("5"));
    assert_eq!(s.int, vec![0, 0, 1]);
}
