//! Driver loop decisions: one full read -> unframe -> decode -> validate
//! pass over a read outcome, and the per-failure-kind policy of the loop.
//!
//! The byte source itself lives outside; it hands in one [`SourceSignal`]
//! per read. Everything that follows the read is decided here.

use vstd::prelude::*;
use vstd::string::StringExecFns;

use crate::cbor::spec_parse_payload;
use crate::cbor::parse_payload;
use crate::error::ProxyError;
use crate::error::ProxyErrorView;
use crate::frame::Frame;
use crate::frame::FrameV;
use crate::frame::spec_project;
use crate::frame::lemma_project_err_any_ts;
use crate::frame::lemma_project_round_trip;
use crate::frame::spec_frame_entries;
use crate::frame::wf_frame;
use crate::cbor::ValueV;
use crate::cbor::encodable;
use crate::cbor::encodable_entries;
use crate::cbor::lemma_parse_encoded_map;
use crate::cbor::spec_encode_map;
use crate::frame::DataV;
use crate::frame::data_scalar;
use crate::frame::stream_entry;
use vstd::utf8::encode_utf8;
use crate::unframe::spec_stuff;
use crate::unframe::lemma_unstuff_stuff;
use crate::unframe::spec_unstuff;
use crate::unframe::unstuff;

verus! {

/// One outcome of a read-until-delimiter on the byte source, as the outside
/// world hands it in: the raw bytes up to and including the delimiter (or up
/// to end of input), a timeout of the wait window, or a lower-level input
/// fault.
pub enum SourceSignal {
    /// The bytes of one read; empty exactly when the source is at its
    /// permanent end.
    Received(Vec<u8>),
    /// No data arrived within the source's wait window.
    Timeout,
    /// A lower-level input fault not covered otherwise.
    Fault,
}

/// The two states of the driver loop.
#[derive(PartialEq, Eq, Structural, Clone, Copy, Debug)]
pub enum LoopState {
    Running,
    Terminated,
}

/// What one loop iteration asks the outside world to do.
pub enum LoopAction {
    /// Emit the frame on the output, then continue.
    Emit(Frame),
    /// Do nothing and continue; no frame was consumed.
    Idle,
    /// Log the described nonfatal failure, then continue.
    Report(String),
    /// Stop the process with this exit status.
    Halt(i32),
}

/// What one read's bytes yield under receipt timestamp `ts`: the frame, or
/// the classified failure. Zero bytes mean the source is gone; the final
/// delimiter byte is stripped before unstuffing; an invalid stuffed
/// sequence is a decode failure; a payload that is not one well-formed
/// encoded item, or a value tree that does not match the frame schema, is a
/// parse failure.
pub open spec fn spec_pipeline(bytes: Seq<u8>, ts: u64) -> Result<FrameV, ProxyErrorView> {
    if bytes.len() == 0 {
        Err(ProxyErrorView::Disconnect)
    } else {
        match spec_unstuff(bytes.take(bytes.len() - 1)) {
            Option::None => Err(ProxyErrorView::DecodeError),
            Option::Some(payload) => match spec_parse_payload(payload) {
                Option::None => Err(ProxyErrorView::ParseError("malformed payload"@)),
                Option::Some(v) => spec_project(v, ts),
            },
        }
    }
}

/// The rejection of a read does not depend on the receipt timestamp.
pub proof fn lemma_pipeline_err_any_ts(bytes: Seq<u8>, ts1: u64, ts2: u64)
    ensures
        spec_pipeline(bytes, ts1) is Err ==> spec_pipeline(bytes, ts1) == spec_pipeline(
            bytes,
            ts2,
        ),
        spec_pipeline(bytes, ts1) is Ok <==> spec_pipeline(bytes, ts2) is Ok,
{
    if bytes.len() > 0 {
        match spec_unstuff(bytes.take(bytes.len() - 1)) {
            Option::Some(payload) => match spec_parse_payload(payload) {
                Option::Some(v) => {
                    lemma_project_err_any_ts(v, ts1, ts2);
                },
                Option::None => {},
            },
            Option::None => {},
        }
    }
}

/// Reads and unpacks a single frame from one source signal: the whole
/// unframe -> decode -> validate pass, with every failure classified. The
/// receipt timestamp comes from the wall clock; everything else of the
/// result is exactly what [`spec_pipeline`] says. A timeout is transient;
/// a fault is treated as the loss of the source.
pub fn read_buffer(sig: SourceSignal) -> (r: Result<Frame, ProxyError>)
    ensures
        sig matches SourceSignal::Received(buf) ==> match r {
            Result::Ok(f) => spec_pipeline(buf@, f.timestamp) == Ok::<
                FrameV,
                ProxyErrorView,
            >(f@),
            Result::Err(e) => spec_pipeline(buf@, 0) == Err::<FrameV, ProxyErrorView>(e@),
        },
        sig is Timeout ==> (r matches Err(e) && e@ is TimedOut),
        sig is Fault ==> (r matches Err(e) && e@ is Disconnect),
{
    let buf = match sig {
        SourceSignal::Received(buf) => buf,
        SourceSignal::Timeout => {
            return Err(ProxyError::TimedOut);
        },
        SourceSignal::Fault => {
            return Err(ProxyError::Disconnect);
        },
    };
    let l = buf.len();
    if l == 0 {
        return Err(ProxyError::Disconnect);
    }
    let body = vstd::slice::slice_to_vec(vstd::slice::slice_subrange(buf.as_slice(), 0, l - 1));
    proof {
        assert(body@ =~= buf@.take(buf@.len() - 1));
    }
    let payload = match unstuff(&body) {
        Option::None => {
            return Err(ProxyError::DecodeError);
        },
        Option::Some(p) => p,
    };
    let val = match parse_payload(&payload) {
        Option::None => {
            return Err(ProxyError::ParseError(String::from_str("malformed payload")));
        },
        Option::Some(v) => v,
    };
    let ghost bts = buf@;
    let r = Frame::from_value(val);
    proof {
        if r is Err {
            lemma_pipeline_err_any_ts(bts, 0, 0);
        }
    }
    r
}

/// Applies the per-failure-kind policy to one pass's outcome: a frame is
/// emitted, a timeout passes silently, a decode or parse failure is
/// reported and the loop goes on, and the loss of the source halts the
/// process with status 1. A terminated loop does nothing more.
pub fn advance(state: LoopState, outcome: Result<Frame, ProxyError>) -> (r: (LoopState, LoopAction))
    ensures
        state is Terminated ==> r.0 is Terminated && r.1 is Idle,
        state is Running ==> match outcome {
            Result::Ok(f) => r.0 is Running && (r.1 matches LoopAction::Emit(g) && g == f),
            Result::Err(e) => match e@ {
                ProxyErrorView::TimedOut => r.0 is Running && r.1 is Idle,
                ProxyErrorView::Disconnect => r.0 is Terminated && (r.1 matches LoopAction::Halt(
                    c,
                ) && c == 1i32),
                ProxyErrorView::DecodeError => r.0 is Running && (r.1 matches LoopAction::Report(
                    m,
                ) && m@ == "invalid frame encoding"@),
                ProxyErrorView::ParseError(s) => r.0 is Running && (r.1
                    matches LoopAction::Report(m) && m@ == "parse error: "@ + s),
            },
        },
{
    if state == LoopState::Terminated {
        return (LoopState::Terminated, LoopAction::Idle);
    }
    match outcome {
        Result::Ok(f) => (LoopState::Running, LoopAction::Emit(f)),
        Result::Err(e) => match &e {
            ProxyError::TimedOut => (LoopState::Running, LoopAction::Idle),
            ProxyError::Disconnect => (LoopState::Terminated, LoopAction::Halt(1)),
            ProxyError::DecodeError => (LoopState::Running, LoopAction::Report(e.describe())),
            ProxyError::ParseError(_) => (LoopState::Running, LoopAction::Report(e.describe())),
        },
    }
}


/// The round trip of the whole receive pipeline: for a well-formed frame,
/// any payload encoding of the frame's own map, stuffed and terminated by
/// the delimiter as the sender emits it, passes the pipeline and yields
/// that very frame, under any receipt timestamp.
pub proof fn lemma_pipeline_round_trip(f: FrameV, payload: Seq<u8>)
    requires
        wf_frame(f),
        spec_parse_payload(payload) == Some(ValueV::Object(spec_frame_entries(f))),
    ensures
        spec_pipeline(spec_stuff(payload) + seq![0u8], f.timestamp) == Ok::<
            FrameV,
            ProxyErrorView,
        >(f),
{
    let wire = spec_stuff(payload) + seq![0u8];
    assert(wire.len() == spec_stuff(payload).len() + 1);
    assert(wire.take(wire.len() - 1) =~= spec_stuff(payload));
    lemma_unstuff_stuff(payload);
    lemma_project_round_trip(f);
}


/// A frame whose texts and stream count are of a size any sender could
/// emit, and whose signed stream values are genuinely negative, as the
/// wire's signed integers are.
pub open spec fn sendable_frame(f: FrameV) -> bool {
    &&& wf_frame(f)
    &&& f.sender.len() <= 0x1000000000000000
    &&& f.streams.len() <= 0x1000000000000000
    &&& forall|k: int|
        0 <= k < f.streams.len() ==> (#[trigger] f.streams[k]).name.len() <= 0x1000000000000000
            && (f.streams[k].value matches DataV::Signed(x) ==> x < 0)
}

proof fn lemma_encode_utf8_len(cs: Seq<char>)
    ensures
        encode_utf8(cs).len() <= 4 * cs.len(),
    decreases cs.len(),
{
    if cs.len() > 0 {
        lemma_encode_utf8_len(cs.drop_first());
    }
}

/// Wire bytes exist for every sendable frame: the frame's own map payload,
/// encoded, stuffed and terminated, passes the whole pipeline and yields
/// that very frame back.
pub proof fn lemma_frame_has_wire_encoding(f: FrameV)
    requires
        sendable_frame(f),
    ensures
        spec_pipeline(
            spec_stuff(spec_encode_map(spec_frame_entries(f))) + seq![0u8],
            f.timestamp,
        ) == Ok::<FrameV, ProxyErrorView>(f),
{
    reveal_strlit("fnum");
    reveal_strlit("sender");
    let es = spec_frame_entries(f);
    assert forall|k: int| 0 <= k < es.len() implies encodable(#[trigger] es[k].0) && encodable(
        es[k].1,
    ) by {
        if k == 0 {
            lemma_encode_utf8_len("fnum"@);
        } else if k == 1 {
            lemma_encode_utf8_len("sender"@);
            lemma_encode_utf8_len(f.sender);
        } else {
            assert(es[k] == stream_entry(f.streams[k - 2]));
            lemma_encode_utf8_len(f.streams[k - 2].name);
            assert(es[k].1 == data_scalar(f.streams[k - 2].value));
        }
    }
    assert(encodable_entries(es));
    lemma_parse_encoded_map(es);
    lemma_pipeline_round_trip(f, spec_encode_map(es));
}

} // verus!
