use liblumen_alloc::number::{Float, Integer, SmallInteger};
use liblumen_alloc::order::Order;

#[test]
fn small_integers_have_sixty_bits() {
    assert_eq!(SmallInteger::MIN_VALUE, -(1i64 << 59));
    assert_eq!(SmallInteger::MAX_VALUE, (1i64 << 59) - 1);
    assert_eq!(SmallInteger::new(0).unwrap().value(), 0);
    assert!(SmallInteger::new(SmallInteger::MAX_VALUE).is_some());
    assert!(SmallInteger::new(SmallInteger::MIN_VALUE).is_some());
    assert!(SmallInteger::new(SmallInteger::MAX_VALUE + 1).is_none());
    assert!(SmallInteger::new(SmallInteger::MIN_VALUE - 1).is_none());
}

#[test]
fn integer_is_small_wherever_its_value_allows() {
    assert!(matches!(Integer::from_i64(0), Integer::Small(_)));
    assert!(matches!(
        Integer::from_i64(SmallInteger::MAX_VALUE),
        Integer::Small(_)
    ));
    assert!(matches!(
        Integer::from_i64(SmallInteger::MAX_VALUE + 1),
        Integer::Big(_)
    ));
    assert!(matches!(
        Integer::from_i64(SmallInteger::MIN_VALUE),
        Integer::Small(_)
    ));
    assert!(matches!(
        Integer::from_i64(SmallInteger::MIN_VALUE - 1),
        Integer::Big(_)
    ));
    assert_eq!(
        Integer::from_sign_magnitude(true, 0),
        Integer::from_i64(0)
    );
    assert_eq!(
        Integer::from_sign_magnitude(true, 1 << 59),
        Integer::from_i64(SmallInteger::MIN_VALUE)
    );
    assert_eq!(
        Integer::from_sign_magnitude(false, 5),
        Integer::from_i64(5)
    );
    assert!(matches!(
        Integer::from_sign_magnitude(false, u128::MAX),
        Integer::Big(_)
    ));
}

#[test]
fn integer_tells_sign_and_magnitude() {
    for value in [0i64, 1, -1, i64::MAX, i64::MIN, SmallInteger::MIN_VALUE] {
        let integer = Integer::from_i64(value);
        assert_eq!(integer.is_negative(), value < 0);
        assert_eq!(integer.magnitude(), value.unsigned_abs() as u128);
        assert_eq!(integer.is_zero(), value == 0);
        assert_eq!(
            integer.negate(),
            Integer::from_sign_magnitude(value > 0, value.unsigned_abs() as u128)
        );
    }
}

#[test]
fn integers_are_ordered_by_value() {
    let values = [
        i64::MIN,
        SmallInteger::MIN_VALUE - 1,
        SmallInteger::MIN_VALUE,
        -1,
        0,
        1,
        SmallInteger::MAX_VALUE,
        SmallInteger::MAX_VALUE + 1,
        i64::MAX,
    ];
    for (i, a) in values.iter().enumerate() {
        for (j, b) in values.iter().enumerate() {
            let expected = if i < j {
                Order::Less
            } else if i == j {
                Order::Equal
            } else {
                Order::Greater
            };
            assert_eq!(Integer::from_i64(*a).compare(&Integer::from_i64(*b)), expected);
        }
    }
    let huge = Integer::from_sign_magnitude(false, u128::MAX);
    let tiny = Integer::from_sign_magnitude(true, u128::MAX);
    assert_eq!(tiny.compare(&huge), Order::Less);
    assert_eq!(huge.compare(&Integer::from_i64(i64::MAX)), Order::Greater);
}

#[test]
fn remainder_truncates_toward_zero() {
    for (a, b) in [
        (7i64, 3i64),
        (-7, 3),
        (7, -3),
        (-7, -3),
        (0, 5),
        (5, 5),
        (i64::MAX, 2),
        (i64::MIN + 1, 7),
        (1, i64::MAX),
    ] {
        assert_eq!(
            Integer::from_i64(a).rem(&Integer::from_i64(b)),
            Integer::from_i64(a % b),
            "{} rem {}",
            a,
            b
        );
    }
    let huge = Integer::from_sign_magnitude(true, u128::MAX);
    assert_eq!(
        huge.rem(&Integer::from_i64(10)),
        Integer::from_i64(-((u128::MAX % 10) as i64))
    );
}

#[test]
fn float_is_finite() {
    assert!(Float::from_bits(f64::INFINITY.to_bits()).is_none());
    assert!(Float::from_bits(f64::NEG_INFINITY.to_bits()).is_none());
    assert!(Float::from_bits(f64::NAN.to_bits()).is_none());
    assert!(Float::from_bits(0x7ff0_0000_0000_0001).is_none());
    assert!(Float::from_bits(0xfff8_0000_0000_0000).is_none());
    assert_eq!(
        Float::from_bits(f64::MAX.to_bits()).unwrap().to_bits(),
        f64::MAX.to_bits()
    );
    assert_eq!(Float::from_bits((-0.0f64).to_bits()).unwrap().to_bits(), 0);
    assert!(Float::from_bits(0).unwrap().is_zero());
    assert!(!Float::from_bits(1).unwrap().is_zero());
}

fn float(f: f64) -> Float {
    Float::from_bits(f.to_bits()).unwrap()
}

fn expected(ordering: Option<std::cmp::Ordering>) -> Order {
    match ordering.unwrap() {
        std::cmp::Ordering::Less => Order::Less,
        std::cmp::Ordering::Equal => Order::Equal,
        std::cmp::Ordering::Greater => Order::Greater,
    }
}

#[test]
fn floats_are_ordered_by_value() {
    let values = [
        f64::MIN,
        -1e300,
        -2.0,
        -1.5,
        -1.0,
        -f64::MIN_POSITIVE,
        -5e-324,
        0.0,
        5e-324,
        1e-310,
        f64::MIN_POSITIVE,
        0.5,
        1.0,
        1.0000000000000002,
        1.5,
        2.0,
        1e300,
        f64::MAX,
    ];
    for a in values {
        for b in values {
            assert_eq!(
                float(a).compare(&float(b)),
                expected(a.partial_cmp(&b)),
                "{:?} and {:?}",
                a,
                b
            );
        }
    }
}

#[test]
fn float_and_integer_are_ordered_by_exact_value() {
    let two_53 = 1i64 << 53;
    for (f, i, order) in [
        (1.0f64, 1i64, Order::Equal),
        (1.0, -1, Order::Greater),
        (1.0, 2, Order::Less),
        (0.5, 0, Order::Greater),
        (0.5, 1, Order::Less),
        (-0.5, 0, Order::Less),
        (-0.5, -1, Order::Greater),
        (0.0, 0, Order::Equal),
        (5e-324, 0, Order::Greater),
        (-5e-324, 0, Order::Less),
        (9007199254740992.0, two_53, Order::Equal),
        (9007199254740992.0, two_53 + 1, Order::Less),
        (9007199254740994.0, two_53 + 1, Order::Greater),
        (9223372036854775808.0, i64::MAX, Order::Greater),
        (-9223372036854775808.0, i64::MIN, Order::Equal),
        (-9223372036854777856.0, i64::MIN, Order::Less),
        (f64::MAX, i64::MAX, Order::Greater),
        (f64::MIN, i64::MIN, Order::Less),
        (1e300, 1, Order::Greater),
        (1e-300, 1, Order::Less),
        (2251799813685248.5, 2251799813685248, Order::Greater),
        (2251799813685247.5, 2251799813685248, Order::Less),
    ] {
        assert_eq!(
            float(f).compare_integer(&Integer::from_i64(i)),
            order,
            "{:?} and {}",
            f,
            i
        );
    }
    let huge = Integer::from_sign_magnitude(false, u128::MAX);
    // 2^128 is a float, and the greatest magnitude is one less.
    assert_eq!(
        float(340282366920938463463374607431768211456.0).compare_integer(&huge),
        Order::Greater
    );
    assert_eq!(
        float(340282366920938425684442744474606501888.0).compare_integer(&huge),
        Order::Less
    );
    let power = Integer::from_sign_magnitude(false, 1u128 << 127);
    assert_eq!(
        float(170141183460469231731687303715884105728.0).compare_integer(&power),
        Order::Equal
    );
    assert_eq!(
        float(-170141183460469231731687303715884105728.0).compare_integer(&power.negate()),
        Order::Equal
    );
}

#[test]
fn float_of_opposite_sign() {
    for f in [1.0f64, -1.0, 0.5, f64::MAX, 5e-324] {
        assert_eq!(float(f).negate(), float(-f));
        assert_eq!(float(f).negate().negate(), float(f));
    }
    assert_eq!(float(0.0).negate().to_bits(), 0);
}
