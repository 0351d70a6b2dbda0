use rox::gc::Gc;
use rox::utils::{bytes_equal, convert_slice_to_string, decimal, is_falsey};
use rox::value::{number_is_nan, number_less, number_negate, numbers_equal, Value};

fn samples() -> Vec<f64> {
    vec![
        0.0,
        -0.0,
        1.0,
        -1.0,
        0.5,
        -0.5,
        2.0,
        1e308,
        -1e308,
        5e-324,
        -5e-324,
        f64::MIN_POSITIVE,
        f64::MAX,
        f64::MIN,
        f64::INFINITY,
        f64::NEG_INFINITY,
        f64::NAN,
        -f64::NAN,
        f64::from_bits(0x7ff0_0000_0000_0001),
        f64::from_bits(0xfff8_0000_0000_1234),
        3.141592653589793,
        -2.718281828459045,
        123456789.125,
    ]
}

#[test]
fn number_order_is_that_of_doubles() {
    for a in samples() {
        for b in samples() {
            assert_eq!(number_less(a.to_bits(), b.to_bits()), a < b, "{} < {}", a, b);
        }
    }
}

#[test]
fn number_equality_is_that_of_doubles() {
    for a in samples() {
        for b in samples() {
            assert_eq!(numbers_equal(a.to_bits(), b.to_bits()), a == b, "{} == {}", a, b);
        }
    }
}

#[test]
fn number_negation_is_that_of_doubles() {
    for a in samples() {
        assert_eq!(number_negate(a.to_bits()), (-a).to_bits());
        assert_eq!(number_is_nan(a.to_bits()), a.is_nan());
    }
    assert_eq!(number_negate(2.0f64.to_bits()), (-2.0f64).to_bits());
    assert_eq!(number_negate(0.0f64.to_bits()), 0x8000_0000_0000_0000);
}

#[test]
fn only_nil_and_false_are_falsey() {
    assert!(is_falsey(&Value::Nil));
    assert!(is_falsey(&Value::Bool(false)));
    assert!(!is_falsey(&Value::Bool(true)));
    assert!(!is_falsey(&Value::Number(0.0f64.to_bits())));
    assert!(!is_falsey(&Value::Number(f64::NAN.to_bits())));
    assert!(!is_falsey(&Value::String(Gc { index: 0 })));
    assert!(!is_falsey(&Value::Closure(Gc { index: 0 })));
    assert!(!is_falsey(&Value::NativeFunction(Gc { index: 0 })));
}

#[test]
fn values_hold_at_most_one_handle() {
    assert_eq!(Value::Nil.handle(), None);
    assert_eq!(Value::Bool(true).handle(), None);
    assert_eq!(Value::Number(7).handle(), None);
    assert_eq!(Value::String(Gc { index: 3 }).handle(), Some(Gc { index: 3 }));
    assert_eq!(Value::Closure(Gc { index: 4 }).handle(), Some(Gc { index: 4 }));
    assert_eq!(Value::NativeFunction(Gc { index: 5 }).handle(), Some(Gc { index: 5 }));
    assert!(Gc::ptr_eq(&Gc { index: 3 }, &Gc { index: 3 }));
    assert!(!Gc::ptr_eq(&Gc { index: 3 }, &Gc { index: 4 }));
}

#[test]
fn slices_are_copied_by_range() {
    assert_eq!(convert_slice_to_string(b"hello world", 6, 11), b"world".to_vec());
    assert_eq!(convert_slice_to_string(b"hello world", 0, 5), b"hello".to_vec());
    assert_eq!(convert_slice_to_string(b"hello", 2, 2), Vec::<u8>::new());
    assert!(bytes_equal(b"abc", b"abc"));
    assert!(!bytes_equal(b"abc", b"abd"));
    assert!(!bytes_equal(b"abc", b"ab"));
    assert!(bytes_equal(b"", b""));
}

#[test]
fn decimal_digits() {
    assert_eq!(decimal(0), b"0".to_vec());
    assert_eq!(decimal(7), b"7".to_vec());
    assert_eq!(decimal(10), b"10".to_vec());
    assert_eq!(decimal(65535), b"65535".to_vec());
    assert_eq!(decimal(1234567890), b"1234567890".to_vec());
    assert_eq!(decimal(usize::MAX), format!("{}", usize::MAX).into_bytes());
}
