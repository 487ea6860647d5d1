use env_reader::classify::{classify, is_float_text, parse_i32};
use env_reader::{CustomMap, CustomValue, EnvType};

#[test]
fn classify_integer_text() {
    assert!(matches!(classify("42"), EnvType::I32(42)));
    assert!(matches!(classify("+42"), EnvType::I32(42)));
    assert!(matches!(classify("-2147483648"), EnvType::I32(i32::MIN)));
    assert!(matches!(classify("2147483647"), EnvType::I32(i32::MAX)));
}

#[test]
fn classify_float_text() {
    assert!(matches!(classify("4.2"), EnvType::F32(ref s) if s == "4.2"));
    assert!(matches!(classify(".5"), EnvType::F32(ref s) if s == ".5"));
    assert!(matches!(classify("5."), EnvType::F32(ref s) if s == "5."));
    assert!(matches!(classify("1e3"), EnvType::F32(ref s) if s == "1e3"));
    assert!(matches!(classify("-1.5E-2"), EnvType::F32(ref s) if s == "-1.5E-2"));
    assert!(matches!(classify("inf"), EnvType::F32(ref s) if s == "inf"));
    assert!(matches!(classify("Infinity"), EnvType::F32(ref s) if s == "Infinity"));
    assert!(matches!(classify("NaN"), EnvType::F32(ref s) if s == "NaN"));
}

#[test]
fn classify_string_text() {
    assert!(matches!(classify("hello"), EnvType::StaticStr(ref s) if s == "hello"));
    assert!(matches!(classify(""), EnvType::StaticStr(ref s) if s.is_empty()));
    assert!(matches!(classify("1.2.3"), EnvType::StaticStr(ref s) if s == "1.2.3"));
    assert!(matches!(classify("."), EnvType::StaticStr(ref s) if s == "."));
    assert!(matches!(classify("1_000"), EnvType::StaticStr(ref s) if s == "1_000"));
    assert!(matches!(classify(" 5"), EnvType::StaticStr(ref s) if s == " 5"));
    assert!(matches!(classify("true"), EnvType::StaticStr(ref s) if s == "true"));
}

#[test]
fn integer_overflow_falls_through_to_float() {
    assert!(matches!(classify("2147483648"), EnvType::F32(ref s) if s == "2147483648"));
    assert!(matches!(classify("-2147483649"), EnvType::F32(ref s) if s == "-2147483649"));
}

#[test]
fn parse_i32_agrees_with_std() {
    for text in ["0", "42", "-42", "+7", "2147483647", "-2147483648", "2147483648",
        "99999999999999999999", "", "+", "-", "4.2", "1e3", "x", "0042"] {
        assert_eq!(parse_i32(text), text.parse::<i32>().ok(), "on {:?}", text);
    }
}

#[test]
fn float_recognizer_agrees_with_std() {
    for text in ["4.2", ".5", "5.", "1e3", "1E-3", "+1.5e+2", "inf", "INFINITY", "nan", "NaN",
        "-inf", "", ".", "e3", "1e", "1e+", "1.2.3", "1.2e3.4", "nan5", "infx", "--1", "1 "] {
        assert_eq!(is_float_text(text), text.parse::<f32>().is_ok(), "on {:?}", text);
    }
}

#[test]
fn rust_type_names() {
    assert_eq!(EnvType::I32(0).rust_type(), "i32");
    assert_eq!(EnvType::I64(0).rust_type(), "i64");
    assert_eq!(EnvType::I128(0).rust_type(), "i128");
    assert_eq!(EnvType::U32(0).rust_type(), "u32");
    assert_eq!(EnvType::U128(0).rust_type(), "u128");
    assert_eq!(EnvType::F32("1.0".to_string()).rust_type(), "f32");
    assert_eq!(EnvType::F64("1.0".to_string()).rust_type(), "f64");
    assert_eq!(EnvType::USize(0).rust_type(), "usize");
    assert_eq!(EnvType::StaticStr(String::new()).rust_type(), "&'static str");
}

#[test]
fn raw_values_render_in_decimal() {
    assert_eq!(EnvType::I32(42).raw_value(), "42");
    assert_eq!(EnvType::I32(-7).raw_value(), "-7");
    assert_eq!(EnvType::I64(0).raw_value(), "0");
    assert_eq!(EnvType::I128(i128::MIN).raw_value(), "-170141183460469231731687303715884105728");
    assert_eq!(EnvType::U128(u128::MAX).raw_value(), "340282366920938463463374607431768211455");
    assert_eq!(EnvType::USize(10).raw_value(), "10");
    assert_eq!(EnvType::F32("1.5".to_string()).raw_value(), "1.5");
    assert_eq!(EnvType::StaticStr("hello".to_string()).raw_value(), "\"hello\"");
}

#[test]
fn typed_values_carry_their_type() {
    assert_eq!(EnvType::I32(1).value(), "1i32");
    assert_eq!(EnvType::I64(-7).value(), "-7i64");
    assert_eq!(EnvType::F32("1.5".to_string()).value(), "1.5f32");
    assert_eq!(EnvType::USize(3).value(), "3usize");
    assert_eq!(EnvType::StaticStr("hello".to_string()).value(), "\"hello\"");
}

struct Port;

impl CustomMap for Port {
    fn rust_type(&self) -> String {
        "\"Port\"".to_string()
    }

    fn raw_value(&self) -> String {
        "8080".to_string()
    }

    fn value(&self) -> String {
        "Port::new(8080)".to_string()
    }

    fn transform(&self) -> String {
        "port_var".to_string()
    }
}

#[test]
fn custom_values_pass_through_their_capability() {
    let custom = EnvType::Custom(CustomValue::from_map(&Port));
    assert_eq!(custom.rust_type(), "Port");
    assert_eq!(custom.raw_value(), "8080");
    assert_eq!(custom.value(), "Port::new(8080)");
}

#[test]
fn retagging_a_unit_widens_its_type() {
    let narrow = classify("42");
    let wide = EnvType::I64(narrow.raw_value().parse().unwrap());
    assert_eq!(wide.value(), "42i64");
}
