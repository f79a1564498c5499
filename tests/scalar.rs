use dotted_json::scalar::infer_scalar;
use dotted_json::TypedValue;

#[test]
fn integer_text_is_integer() {
    assert_eq!(infer_scalar("42"), TypedValue::Integer(42));
    assert_eq!(infer_scalar("-7"), TypedValue::Integer(-7));
    assert_eq!(infer_scalar("+3"), TypedValue::Integer(3));
    assert_eq!(infer_scalar("007"), TypedValue::Integer(7));
    assert_eq!(infer_scalar("-9223372036854775808"), TypedValue::Integer(i64::MIN));
}

#[test]
fn float_text_is_float() {
    for t in ["1.5", "1.", ".5", "1e5", "2E-3", "-0.25e+2", "inf", "-Infinity", "NaN", "9223372036854775808"] {
        assert_eq!(infer_scalar(t), TypedValue::Float(t.to_string()), "{}", t);
        assert!(t.parse::<f64>().is_ok());
    }
}

#[test]
fn other_text_is_string() {
    for t in ["", "-", "+", ".", "e5", "1e", "1.2.3", "abc", " 1", "infinit", "0x10", "1_000"] {
        assert_eq!(infer_scalar(t), TypedValue::String(t.to_string()), "{}", t);
        assert!(t.parse::<f64>().is_err());
    }
}

#[test]
fn inference_is_deterministic() {
    for t in ["12", "1.25", "word"] {
        assert_eq!(infer_scalar(t), infer_scalar(t));
    }
}
