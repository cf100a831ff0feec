use just_the_exif::numeric::is_float_text;
use just_the_exif::value::{serialise_value, TypedValue};

fn float_of(v: TypedValue) -> f64 {
    match v {
        TypedValue::Float(t) => t.parse::<f64>().unwrap(),
        other => panic!("not a float: {:?}", other),
    }
}

#[test]
fn coerce_integer() {
    assert_eq!(serialise_value("42"), TypedValue::Integer(42));
}

#[test]
fn coerce_float_with_point() {
    let v = serialise_value("42.0");
    assert_eq!(v, TypedValue::Float("42.0".to_string()));
    assert_eq!(float_of(v), 42.0);
}

#[test]
fn coerce_negative_float() {
    let v = serialise_value("-3.14");
    assert_eq!(v, TypedValue::Float("-3.14".to_string()));
    assert_eq!(float_of(v), -3.14);
}

#[test]
fn coerce_text() {
    assert_eq!(serialise_value("abc"), TypedValue::Text("abc".to_string()));
}

#[test]
fn coerce_empty() {
    assert_eq!(serialise_value(""), TypedValue::Text(String::new()));
}

#[test]
fn coerce_leading_zeros() {
    assert_eq!(serialise_value("007"), TypedValue::Integer(7));
}

#[test]
fn coerce_signs() {
    assert_eq!(serialise_value("-12"), TypedValue::Integer(-12));
    assert_eq!(serialise_value("+12"), TypedValue::Integer(12));
    assert_eq!(serialise_value("-0"), TypedValue::Integer(0));
    assert_eq!(serialise_value("-"), TypedValue::Text("-".to_string()));
    assert_eq!(serialise_value("+"), TypedValue::Text("+".to_string()));
}

#[test]
fn coerce_i64_bounds() {
    assert_eq!(serialise_value("9223372036854775807"), TypedValue::Integer(i64::MAX));
    assert_eq!(serialise_value("-9223372036854775808"), TypedValue::Integer(i64::MIN));
    let v = serialise_value("9223372036854775808");
    assert_eq!(float_of(v), 9223372036854775808.0);
}

#[test]
fn coerce_exponents_and_points() {
    assert_eq!(float_of(serialise_value("1e3")), 1000.0);
    assert_eq!(float_of(serialise_value("2.5E-1")), 0.25);
    assert_eq!(float_of(serialise_value(".5")), 0.5);
    assert_eq!(float_of(serialise_value("5.")), 5.0);
    assert_eq!(float_of(serialise_value("+1e+2")), 100.0);
}

#[test]
fn coerce_special_floats() {
    assert!(float_of(serialise_value("inf")).is_infinite());
    assert!(float_of(serialise_value("-Infinity")).is_infinite());
    assert!(float_of(serialise_value("NaN")).is_nan());
}

#[test]
fn coerce_not_numbers() {
    for s in [".", "e5", "1e", "1.2.3", " 42", "42 ", "1_000", "0x10", "--1", "1e+", "infinit", "1/100", "\"Canon\""] {
        assert_eq!(serialise_value(s), TypedValue::Text(s.to_string()), "{}", s);
    }
}

#[test]
fn float_syntax_matches_std() {
    let cases = [
        "", "0", "-0", "1.", ".1", ".", "1e5", "1E5", "1e-5", "e", "1e", "+.5e+3", "inf", "INF",
        "+inf", "-iNfInItY", "nan", "-NaN", "infinity ", "in", "nana", "1..2", "1e2e3", "1.e3",
        ".e3", "12abc", "\u{0130}nf", "\u{ff11}", "1 ",
    ];
    for s in cases {
        assert_eq!(is_float_text(s), s.parse::<f64>().is_ok(), "{:?}", s);
    }
}
