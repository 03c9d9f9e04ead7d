use obscura::number::{Number, is_not_negative};
use obscura::rounding::{Scaled, combine, divide, is_at_most, round_fraction};
use obscura::text::{chars, contains, ends_with, find, gather, parse_digits, parse_number, push_decimal, same};

fn n(x: f64) -> Number {
    Number::from_bits(x.to_bits())
}

const SAMPLES: [f64; 16] = [
    0.0, -0.0, 0.4, 0.5, -0.5, 1.0, 1.49999, 2.5, -2.5, 3.999, 1e9, -1e9, 4294967295.9, 9.3e18, -9.3e18, 5e-324,
];

#[test]
fn numbers_round_as_floats_do() {
    for x in SAMPLES {
        assert_eq!(n(x).round(), x.round() as i64, "{x}");
    }
    assert_eq!(n(f64::NAN).round(), 0);
    assert_eq!(n(f64::INFINITY).round(), i64::MAX);
    assert_eq!(n(f64::NEG_INFINITY).round(), i64::MIN);
}

#[test]
fn numbers_truncate_as_casts_do() {
    for x in SAMPLES {
        assert_eq!(n(x).truncate(), x as u32, "{x}");
        assert_eq!(n(x).to_integer(), x as i32, "{x}");
    }
    for x in [f64::NAN, f64::INFINITY, f64::NEG_INFINITY, 2147483648.0, -2147483649.0] {
        assert_eq!(n(x).truncate(), x as u32);
        assert_eq!(n(x).to_integer(), x as i32);
    }
}

#[test]
fn numbers_come_from_integers_as_casts_do() {
    for x in [0i64, 1, -1, 3, 240, 33333, -66666, i64::MAX, i64::MIN, (1 << 53) + 1, (1 << 53) + 3, -((1 << 54) + 2)] {
        assert_eq!(Number::from_i64(x).bits, (x as f64).to_bits(), "{x}");
    }
}

#[test]
fn numbers_compare_as_floats_do() {
    for a in SAMPLES {
        for b in SAMPLES {
            assert_eq!(n(a).is_below(n(b)), a < b);
            assert_eq!(n(a).is_same(n(b)), a == b);
        }
        assert_eq!(n(a).is_zero(), a == 0.0);
    }
    assert!(!n(f64::NAN).is_same(n(f64::NAN)) && !n(f64::NAN).is_below(n(1.0)) && !n(f64::NAN).is_zero());
}

#[test]
fn sums_of_powers_have_a_sign() {
    assert!(is_not_negative((0, 0), (0, 2000)));
    assert!(is_not_negative((1, 0), (-1, 0)) && !is_not_negative((1, 0), (-2, 0)));
    assert!(!is_not_negative((-1, 2000), (1, 0)) && is_not_negative((-1, 0), (1, 2000)));
    assert!(is_not_negative((-8, 1), (2, 3)) && !is_not_negative((-9, 1), (2, 3)));
    let far = 0x2_0000_0000_0000_0000i128;
    assert!(is_not_negative((-far, 0), (1, 65)) && !is_not_negative((-far - 1, 0), (1, 65)));
}

#[test]
fn results_are_rounded_as_floats_are() {
    let unit = 2f64.powi(84);
    let value = |s: Scaled| s.significand as f64 * 2f64.powi(s.exponent as i32);
    let sides = [0u32, 1, 2, 3, 7, 9, 100, 1080, 1137, 2016, 2200, 2260, 4032, 65537, 0x7fff_ffff, u32::MAX - 1, u32::MAX];
    for a in sides {
        for b in sides.into_iter().filter(|b| *b > 0) {
            let q = divide(a, b);
            assert_eq!(value(q), a as f64 / b as f64 * unit, "{a} {b}");
            for c in sides {
                let r = divide(c, 9);
                let (x, y) = (a as f64 / b as f64, c as f64 / 9.0);
                assert_eq!(value(combine(q, r, false)), (x + y) * unit, "{a} {b} {c}");
                assert_eq!(value(combine(q, r, true)), (x - y).abs() * unit, "{a} {b} {c}");
                assert_eq!(is_at_most(q, r), x <= y);
            }
        }
    }
    // Ties go to the even significand, and what is far below is lost.
    assert_eq!(round_fraction((1 << 54) + 2, 1), Scaled { significand: 1 << 52, exponent: 2 });
    assert_eq!(round_fraction((1 << 54) + 6, 1), Scaled { significand: (1 << 52) + 2, exponent: 2 });
    let big = Scaled { significand: 1 << 52, exponent: 2000 };
    assert_eq!((combine(big, divide(1, 3), true), combine(divide(1, 3), big, false)), (big, big));
}

#[test]
fn numbers_go_into_integers() {
    for x in [1.0000001, 1.5, 2.0, 3.7, 1e6, 4294967295.0, 1e300, f64::INFINITY] {
        for k in [0u32, 1, 2, 100, 4032, u32::MAX] {
            assert_eq!(n(x).fits_into(k), (k as f64 / x).floor() as u32, "{k} {x}");
        }
    }
}

#[test]
fn decimals_read_back() {
    for x in [0u32, 7, 10, 1920, u32::MAX] {
        let mut s = String::from("a");
        push_decimal(&mut s, x as u64);
        assert_eq!(s, format!("a{x}"));
        let v = chars(&s);
        assert_eq!(parse_digits(&v, 1, v.len()), Some(x));
    }
}

#[test]
fn only_numbers_are_read() {
    for s in ["", "+", "-1", "1 ", "4294967296", "99999999999", "+7", "007", "1x", "++1"] {
        let v = chars(s);
        assert_eq!(parse_number(&v, 0, v.len()), s.parse::<u32>().ok(), "{s}");
    }
}

#[test]
fn text_is_compared_by_character() {
    assert!(same("AfMode", "AfMode") && !same("AfMode", "AfModes") && same("", ""));
    assert!(ends_with("AfModeManual", "Manual") && !ends_with("Man", "Manual") && ends_with("x", ""));
    assert!(contains("Device or resource busy", "busy") && !contains("bus", "busy") && contains("", ""));
    let v = chars("4032x3024");
    assert_eq!((find(&v, 'x'), find(&v, 'y')), (4, 9));
    assert_eq!(gather(&v, 5, 9), "3024");
}
