use wyw::decimal::{decimal_text, digit_text};
use wyw::interner::StrId;
use wyw::position::{char_width, BytePos, Span, WithSpan};
use wyw::value::{
    is_falsy, is_function_or_closure, is_less, number_eq, number_lt, number_to_count, value_equal, Value,
    NUMBER_ONE, NUMBER_ZERO,
};

fn number(x: f64) -> Value {
    Value::Number(x.to_bits())
}

#[test]
fn number_constants_are_the_doubles() {
    assert_eq!(NUMBER_ZERO, 0.0f64.to_bits());
    assert_eq!(NUMBER_ONE, 1.0f64.to_bits());
}

#[test]
fn numbers_compare_as_doubles() {
    let samples = [
        0.0,
        -0.0,
        1.0,
        -1.0,
        1.5,
        -1.5,
        3.0,
        1e300,
        -1e300,
        5e-324,
        -5e-324,
        f64::MAX,
        f64::MIN,
        f64::INFINITY,
        f64::NEG_INFINITY,
        f64::NAN,
        -f64::NAN,
    ];
    for a in samples {
        for b in samples {
            assert_eq!(number_eq(a.to_bits(), b.to_bits()), a == b, "{} == {}", a, b);
            assert_eq!(number_lt(a.to_bits(), b.to_bits()), a < b, "{} < {}", a, b);
        }
    }
}

#[test]
fn counts_are_truncated_and_clamped() {
    let samples = [
        0.0, -0.0, 0.5, 0.999, 1.0, 1.5, 2.0, 2.999, 3.0, 7.0, 127.5, 128.0, 254.0, 254.999, 255.0, 255.5, 256.0,
        1e10, -1.0, -300.0, 5e-324, f64::INFINITY, f64::NEG_INFINITY, f64::NAN,
    ];
    for x in samples {
        assert_eq!(number_to_count(x.to_bits()), x as u8, "{}", x);
    }
    assert_eq!(number_to_count(5.0f64.to_bits()), 5);
}

#[test]
fn values_are_equal_by_content() {
    assert!(value_equal(Value::Nil, Value::Nil));
    assert!(value_equal(number(1.0), number(1.0)));
    assert!(value_equal(number(0.0), number(-0.0)));
    assert!(!value_equal(number(f64::NAN), number(f64::NAN)));
    assert!(!value_equal(number(1.0), number(2.0)));
    assert!(value_equal(Value::Bool(true), Value::Bool(true)));
    assert!(!value_equal(Value::Bool(true), Value::Bool(false)));
    assert!(value_equal(Value::String(StrId(3)), Value::String(StrId(3))));
    assert!(!value_equal(Value::String(StrId(3)), Value::String(StrId(4))));
    assert!(value_equal(Value::Function(1), Value::Function(1)));
    assert!(!value_equal(Value::Function(1), Value::Function(2)));
    assert!(value_equal(Value::Closure(1), Value::Closure(1)));
    assert!(!value_equal(Value::Closure(1), Value::Function(1)));
    assert!(!value_equal(Value::Nil, Value::Bool(false)));
    assert!(!value_equal(number(1.0), Value::Bool(true)));
}

#[test]
fn only_numbers_are_ordered() {
    assert!(is_less(number(1.0), number(2.0)));
    assert!(!is_less(number(2.0), number(1.0)));
    assert!(!is_less(number(2.0), number(2.0)));
    assert!(!is_less(Value::Nil, number(1.0)));
    assert!(!is_less(Value::Bool(false), Value::Bool(true)));
}

#[test]
fn only_false_is_falsy() {
    assert!(is_falsy(&Value::Bool(false)));
    assert!(!is_falsy(&Value::Bool(true)));
    assert!(!is_falsy(&Value::Nil));
    assert!(!is_falsy(&number(0.0)));
    assert!(!is_falsy(&Value::String(StrId(0))));
    assert!(is_function_or_closure(&Value::Function(0)));
    assert!(is_function_or_closure(&Value::Closure(0)));
    assert!(!is_function_or_closure(&Value::Nil));
}

#[test]
fn decimal_numerals() {
    assert_eq!(decimal_text(0), "0");
    assert_eq!(decimal_text(7), "7");
    assert_eq!(decimal_text(10), "10");
    assert_eq!(decimal_text(1234567890), "1234567890");
    assert_eq!(digit_text(3), "3");
}

#[test]
fn utf8_widths() {
    for ch in ['a', '\n', '\u{7f}', '\u{80}', 'é', '\u{7ff}', '\u{800}', '吾', '\u{ffff}', '\u{10000}', '😀'] {
        assert_eq!(char_width(ch), ch.len_utf8(), "{:?}", ch);
    }
}

#[test]
fn positions_move_by_characters() {
    let mut pos = BytePos(2);
    pos.shift('吾');
    assert_eq!(pos, BytePos(5));
    pos.backwards('a');
    assert_eq!(pos, BytePos(4));
    let span = Span::new(3, 9);
    assert_eq!(span, Span::from(BytePos(3), BytePos(9)));
    let item = WithSpan::new(7u8, span, 4);
    assert_eq!(*item.get_value(), 7);
    assert_eq!(item.get_start(), 3);
    assert_eq!(item.get_end(), 9);
    assert_eq!(item.get_line(), 4);
}
