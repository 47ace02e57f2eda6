//! The validator/projector on decoded value trees: required keys, error
//! reasons, the dtype classifier, and the injectable receipt timestamp.

use bin_receiver::cbor::Scalar;
use bin_receiver::cbor::Value;
use bin_receiver::error::ProxyError;
use bin_receiver::frame::Data;
use bin_receiver::frame::Frame;

fn text(s: &str) -> Scalar {
    Scalar::Text(String::from(s))
}

fn parse_error_of(r: Result<Frame, ProxyError>) -> String {
    match r {
        Err(ProxyError::ParseError(s)) => s,
        Err(_) => panic!("expected a parse error"),
        Ok(_) => panic!("expected a failure, got a frame"),
    }
}

#[test]
fn root_not_a_map() {
    let v = Value::Scalar(Scalar::Unsigned(5));
    assert_eq!(parse_error_of(Frame::from_value(v)), "not a map");
}

#[test]
fn missing_fnum() {
    let v = Value::Object(vec![(text("sender"), text("dev-A"))]);
    assert_eq!(parse_error_of(Frame::from_value(v)), "no frame number");
}

#[test]
fn missing_sender() {
    let v = Value::Object(vec![(text("fnum"), Scalar::Unsigned(1))]);
    assert_eq!(parse_error_of(Frame::from_value(v)), "no sender");
}

#[test]
fn fnum_as_string_invalid() {
    let v = Value::Object(vec![
        (text("fnum"), text("42")),
        (text("sender"), text("dev-A")),
    ]);
    assert_eq!(parse_error_of(Frame::from_value(v)), "invalid frame number");
}

#[test]
fn negative_fnum_invalid() {
    let v = Value::Object(vec![
        (text("fnum"), Scalar::Signed(-3)),
        (text("sender"), text("dev-A")),
    ]);
    assert_eq!(parse_error_of(Frame::from_value(v)), "invalid frame number");
}

#[test]
fn empty_sender_rejected() {
    let v = Value::Object(vec![
        (text("fnum"), Scalar::Unsigned(1)),
        (text("sender"), text("")),
    ]);
    // the sender is an identifying string: an empty one is no identity
    assert_eq!(parse_error_of(Frame::from_value(v)), "invalid sender");
}

#[test]
fn sender_not_text_invalid() {
    let v = Value::Object(vec![
        (text("fnum"), Scalar::Unsigned(1)),
        (text("sender"), Scalar::Unsigned(9)),
    ]);
    assert_eq!(parse_error_of(Frame::from_value(v)), "invalid sender");
}

#[test]
fn invalid_stream_value_names_key() {
    let v = Value::Object(vec![
        (text("fnum"), Scalar::Unsigned(1)),
        (text("sender"), text("dev-A")),
        (text("good"), Scalar::Unsigned(3)),
        (text("bad"), Scalar::Other),
    ]);
    // one bad stream invalidates the whole frame: no partial result
    assert_eq!(parse_error_of(Frame::from_value(v)), "invalid value for bad");
}

#[test]
fn non_text_key_rejected() {
    let v = Value::Object(vec![
        (text("fnum"), Scalar::Unsigned(1)),
        (text("sender"), text("dev-A")),
        (Scalar::Unsigned(7), Scalar::Unsigned(3)),
    ]);
    assert_eq!(parse_error_of(Frame::from_value(v)), "Invalid key.");
}

#[test]
fn from_value_at_uses_given_timestamp() {
    let v = Value::Object(vec![
        (text("fnum"), Scalar::Unsigned(42)),
        (text("sender"), text("dev-A")),
    ]);
    let f = Frame::from_value_at(v, 12345).expect("a valid frame");
    assert_eq!(f.timestamp, 12345);
    assert_eq!(f.fnum, 42);
    assert_eq!(f.sender, "dev-A");
    assert!(f.streams.is_empty());
}

#[test]
fn dtype_collapses_signed_and_unsigned() {
    let v = Value::Object(vec![
        (text("fnum"), Scalar::Unsigned(1)),
        (text("sender"), text("dev-A")),
        (text("a"), Scalar::Float(2.5f64.to_bits())),
        (text("b"), Scalar::Signed(-7)),
        (text("c"), Scalar::Unsigned(7)),
    ]);
    let f = Frame::from_value_at(v, 0).expect("a valid frame");
    assert_eq!(f.streams.len(), 3);
    // the tag has two values only: signed and unsigned integers share 1,
    // even though the value union keeps them apart
    assert_eq!(f.streams[0].name, "a");
    assert_eq!(f.streams[0].dtype, 0);
    assert!(matches!(f.streams[0].value, Data::Float(b) if b == 2.5f64.to_bits()));
    assert_eq!(f.streams[1].name, "b");
    assert_eq!(f.streams[1].dtype, 1);
    assert!(matches!(f.streams[1].value, Data::Signed(-7)));
    assert_eq!(f.streams[2].name, "c");
    assert_eq!(f.streams[2].dtype, 1);
    assert!(matches!(f.streams[2].value, Data::Unsigned(7)));
}

#[test]
fn duplicate_reserved_key_uses_first() {
    let v = Value::Object(vec![
        (text("fnum"), Scalar::Unsigned(1)),
        (text("fnum"), Scalar::Unsigned(2)),
        (text("sender"), text("dev-A")),
    ]);
    let f = Frame::from_value_at(v, 0).expect("a valid frame");
    assert_eq!(f.fnum, 1);
    assert!(f.streams.is_empty());
}

#[test]
fn describe_names_each_kind() {
    assert_eq!(ProxyError::Disconnect.describe(), "device disconnected");
    assert_eq!(ProxyError::TimedOut.describe(), "timed out");
    assert_eq!(ProxyError::DecodeError.describe(), "invalid frame encoding");
    assert_eq!(
        ProxyError::ParseError(String::from("no sender")).describe(),
        "parse error: no sender"
    );
}
