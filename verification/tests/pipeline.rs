//! The whole receive pipeline and the driver loop policy, end to end, with
//! frames encoded by the reference encoders.

use std::collections::BTreeMap;

use bin_receiver::driver::advance;
use bin_receiver::driver::read_buffer;
use bin_receiver::driver::LoopAction;
use bin_receiver::driver::LoopState;
use bin_receiver::error::ProxyError;
use bin_receiver::frame::Data;
use bin_receiver::frame::Frame;

use serde_cbor::Value as CborValue;

/// One frame as the sender emits it: encoded payload, stuffed, terminated.
fn wire_of(payload: &CborValue) -> Vec<u8> {
    let bytes = serde_cbor::to_vec(payload).unwrap();
    let mut wire = cobs::encode_vec(&bytes);
    wire.push(0);
    wire
}

fn sample_payload() -> CborValue {
    let mut m = BTreeMap::new();
    m.insert(CborValue::Text(String::from("fnum")), CborValue::Integer(42));
    m.insert(
        CborValue::Text(String::from("sender")),
        CborValue::Text(String::from("dev-A")),
    );
    m.insert(CborValue::Text(String::from("temp")), CborValue::Float(23.5));
    m.insert(CborValue::Text(String::from("count")), CborValue::Integer(7));
    CborValue::Map(m)
}

fn decode_wire(wire: Vec<u8>) -> Result<Frame, ProxyError> {
    read_buffer(bin_receiver::driver::SourceSignal::Received(wire))
}

#[test]
fn end_to_end_sample_frame() {
    let f = decode_wire(wire_of(&sample_payload())).expect("the sample frame must decode");
    assert_eq!(f.fnum, 42);
    assert_eq!(f.sender, "dev-A");
    assert_eq!(f.streams.len(), 2);
    let temp = f.streams.iter().find(|s| s.name == "temp").expect("a temp stream");
    assert!(matches!(temp.value, Data::Float(b) if b == 23.5f64.to_bits()));
    assert_eq!(temp.dtype, 0);
    let count = f.streams.iter().find(|s| s.name == "count").expect("a count stream");
    assert!(matches!(count.value, Data::Unsigned(7)));
    assert_eq!(count.dtype, 1);
    // the receipt timestamp is a current wall-clock reading, no sentinel:
    // far past the start of 2020, in nanoseconds since the epoch
    assert!(f.timestamp > 1_577_000_000_000_000_000);
}

#[test]
fn zero_byte_read_is_disconnect() {
    let r = decode_wire(Vec::new());
    assert!(matches!(r, Err(ProxyError::Disconnect)));
    let (state, action) = advance(LoopState::Running, r);
    assert_eq!(state, LoopState::Terminated);
    assert!(matches!(action, LoopAction::Halt(1)));
}

#[test]
fn timeout_is_silent_and_keeps_running() {
    let r = read_buffer(bin_receiver::driver::SourceSignal::Timeout);
    assert!(matches!(r, Err(ProxyError::TimedOut)));
    let (state, action) = advance(LoopState::Running, r);
    assert_eq!(state, LoopState::Running);
    assert!(matches!(action, LoopAction::Idle));
}

#[test]
fn fault_is_treated_as_disconnect() {
    let r = read_buffer(bin_receiver::driver::SourceSignal::Fault);
    assert!(matches!(r, Err(ProxyError::Disconnect)));
}

#[test]
fn corrupt_sequence_then_resynchronisation() {
    // an overhead byte announcing four data bytes, cut short by the delimiter
    let corrupt = vec![0x05, 0x01, 0x00];
    let r = decode_wire(corrupt);
    assert!(matches!(r, Err(ProxyError::DecodeError)));
    let (state, action) = advance(LoopState::Running, r);
    assert_eq!(state, LoopState::Running);
    assert!(matches!(action, LoopAction::Report(_)));
    // the next delimiter starts a fresh frame: the stream has resynchronised
    let f = decode_wire(wire_of(&sample_payload())).expect("the next frame must decode");
    assert_eq!(f.fnum, 42);
}

#[test]
fn schema_failure_keeps_running_with_reason() {
    let r = decode_wire(wire_of(&CborValue::Integer(5)));
    match &r {
        Err(ProxyError::ParseError(reason)) => assert_eq!(reason, "not a map"),
        _ => panic!("expected a parse error"),
    }
    let (state, action) = advance(LoopState::Running, r);
    assert_eq!(state, LoopState::Running);
    match action {
        LoopAction::Report(msg) => assert_eq!(msg, "parse error: not a map"),
        _ => panic!("expected a report"),
    }
}

#[test]
fn successful_frame_is_emitted() {
    let r = decode_wire(wire_of(&sample_payload()));
    let (state, action) = advance(LoopState::Running, r);
    assert_eq!(state, LoopState::Running);
    match action {
        LoopAction::Emit(f) => assert_eq!(f.fnum, 42),
        _ => panic!("expected an emit"),
    }
}

#[test]
fn terminated_loop_stays_terminated() {
    let r = decode_wire(wire_of(&sample_payload()));
    let (state, action) = advance(LoopState::Terminated, r);
    assert_eq!(state, LoopState::Terminated);
    assert!(matches!(action, LoopAction::Idle));
}
