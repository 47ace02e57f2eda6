//! Frame validator / projector: turns a decoded generic value tree into one
//! typed telemetry record.
//!
//! The root must be a map. Two reserved keys are required: `"fnum"`, an
//! unsigned sequence number, and `"sender"`, an identifying string. Every
//! remaining entry becomes one named measurement stream; a single entry of
//! an unsupported shape rejects the whole frame. The receipt timestamp is
//! assigned by the receiver at successful validation, not by the sender.

use vstd::prelude::*;
use vstd::string::StringExecFns;

use crate::cbor::Scalar;
use crate::cbor::ScalarV;
use crate::cbor::Value;
use crate::cbor::ValueV;
use crate::cbor::entries_view;
use crate::error::ProxyError;
use crate::error::ProxyErrorView;

verus! {

/// One complete telemetry sample.
#[derive(Debug)]
pub struct Frame {
    /// Nanoseconds since the Unix epoch, assigned by the receiver when
    /// validation succeeds.
    pub timestamp: u64,
    /// The identifying string of the sender, from the payload; never
    /// empty.
    pub sender: String,
    /// The sender's sequence number; gaps and resets are legal.
    pub fnum: u64,
    /// One entry per additional payload field, in the order the decoded map
    /// yields them.
    pub streams: Vec<Stream>,
}

/// One named measurement within a frame.
#[derive(Debug)]
pub struct Stream {
    /// The payload map key; never one of the two reserved keys.
    pub name: String,
    /// The measured value.
    pub value: Data,
    /// Coarse numeric classifier: 0 for floating point, 1 for either
    /// integer variant.
    pub dtype: u64,
}

/// The measured value of one stream: floating point (as its binary64 bit
/// pattern), or a signed or unsigned 64-bit integer.
#[derive(Debug)]
pub enum Data {
    Float(u64),
    Signed(i64),
    Unsigned(u64),
}

/// Mathematical image of a [`Data`].
#[verifier::ext_equal]
pub ghost enum DataV {
    Float(u64),
    Signed(i64),
    Unsigned(u64),
}

/// Mathematical image of a [`Stream`].
#[verifier::ext_equal]
pub ghost struct StreamV {
    pub name: Seq<char>,
    pub value: DataV,
    pub dtype: u64,
}

/// Mathematical image of a [`Frame`].
#[verifier::ext_equal]
pub ghost struct FrameV {
    pub timestamp: u64,
    pub sender: Seq<char>,
    pub fnum: u64,
    pub streams: Seq<StreamV>,
}

impl View for Data {
    type V = DataV;

    open spec fn view(&self) -> DataV {
        match self {
            Data::Float(b) => DataV::Float(*b),
            Data::Signed(x) => DataV::Signed(*x),
            Data::Unsigned(u) => DataV::Unsigned(*u),
        }
    }
}

impl View for Stream {
    type V = StreamV;

    open spec fn view(&self) -> StreamV {
        StreamV { name: self.name@, value: self.value@, dtype: self.dtype }
    }
}

/// The views of a stream vector, in order.
pub open spec fn streams_view(ss: Seq<Stream>) -> Seq<StreamV> {
    ss.map_values(|s: Stream| s@)
}

impl View for Frame {
    type V = FrameV;

    open spec fn view(&self) -> FrameV {
        FrameV {
            timestamp: self.timestamp,
            sender: self.sender@,
            fnum: self.fnum,
            streams: streams_view(self.streams@),
        }
    }
}

// ---- the projection, specified ----

/// The value of the first entry whose key is the text `name`, if any.
pub open spec fn spec_find(es: Seq<(ScalarV, ScalarV)>, name: Seq<char>) -> Option<ScalarV>
    decreases es.len(),
{
    if es.len() == 0 {
        None
    } else if es[0].0 matches ScalarV::Text(n) && n == name {
        Some(es[0].1)
    } else {
        spec_find(es.drop_first(), name)
    }
}

/// Whether a key sequence is one of the two reserved keys.
pub open spec fn is_reserved(name: Seq<char>) -> bool {
    name == "fnum"@ || name == "sender"@
}

/// The measurement streams of the non-reserved entries, in order, or the
/// failure the first unusable entry causes: a key that is not text, or a
/// value that is not a supported scalar kind.
pub open spec fn spec_streams(es: Seq<(ScalarV, ScalarV)>) -> Result<Seq<StreamV>, ProxyErrorView>
    decreases es.len(),
{
    if es.len() == 0 {
        Ok(Seq::empty())
    } else {
        match es[0].0 {
            ScalarV::Text(name) => if is_reserved(name) {
                spec_streams(es.drop_first())
            } else {
                let entry = match es[0].1 {
                    ScalarV::Float(b) => Ok(StreamV { name, value: DataV::Float(b), dtype: 0 }),
                    ScalarV::Signed(x) => Ok(StreamV { name, value: DataV::Signed(x), dtype: 1 }),
                    ScalarV::Unsigned(u) => Ok(
                        StreamV { name, value: DataV::Unsigned(u), dtype: 1 },
                    ),
                    _ => Err(ProxyErrorView::ParseError("invalid value for "@ + name)),
                };
                match entry {
                    Result::Ok(st) => match spec_streams(es.drop_first()) {
                        Result::Ok(tail) => Ok(seq![st] + tail),
                        Result::Err(e) => Err(e),
                    },
                    Result::Err(e) => Err(e),
                }
            },
            _ => Err(ProxyErrorView::ParseError("Invalid key."@)),
        }
    }
}

/// The frame a generic value tree projects to under receipt timestamp `ts`,
/// or the exact failure it is rejected with: a non-map root, a missing,
/// ill-typed or empty reserved key, or an unusable remaining entry. The
/// sender is an identifying string and must not be empty.
pub open spec fn spec_project(v: ValueV, ts: u64) -> Result<FrameV, ProxyErrorView> {
    match v {
        ValueV::Object(es) => match spec_find(es, "fnum"@) {
            Option::None => Err(ProxyErrorView::ParseError("no frame number"@)),
            Option::Some(fv) => match fv {
                ScalarV::Unsigned(fnum) => match spec_find(es, "sender"@) {
                    Option::None => Err(ProxyErrorView::ParseError("no sender"@)),
                    Option::Some(sv) => match sv {
                        ScalarV::Text(sender) => if sender.len() == 0 {
                            Err(ProxyErrorView::ParseError("invalid sender"@))
                        } else {
                            match spec_streams(es) {
                                Result::Ok(streams) => Ok(
                                    FrameV { timestamp: ts, sender, fnum, streams },
                                ),
                                Result::Err(e) => Err(e),
                            }
                        },
                        _ => Err(ProxyErrorView::ParseError("invalid sender"@)),
                    },
                },
                _ => Err(ProxyErrorView::ParseError("invalid frame number"@)),
            },
        },
        _ => Err(ProxyErrorView::ParseError("not a map"@)),
    }
}

// ---- the projection, executed ----

/// Finds the first entry whose key is the text `name`, as [`spec_find`]
/// says, returning its position.
fn find_key(es: &Vec<(Scalar, Scalar)>, name: &String) -> (r: Option<usize>)
    ensures
        match r {
            Option::Some(idx) => idx < es@.len() && spec_find(entries_view(es@), name@) == Some(
                es@[idx as int].1@,
            ),
            Option::None => spec_find(entries_view(es@), name@) is None,
        },
{
    let l = es.len();
    let ghost ev = entries_view(es@);
    proof {
        assert(ev.skip(0) =~= ev);
    }
    let mut i: usize = 0;
    while i < l
        invariant
            i <= l,
            l == es@.len(),
            ev == entries_view(es@),
            ev.len() == l,
            spec_find(ev, name@) == spec_find(ev.skip(i as int), name@),
        decreases l - i,
    {
        let hit = match &es[i].0 {
            Scalar::Text(n) => *n == *name,
            _ => false,
        };
        proof {
            assert(ev.skip(i as int)[0] == ev[i as int]);
            assert(ev[i as int] == (es@[i as int].0@, es@[i as int].1@));
            assert(ev.skip(i as int).drop_first() =~= ev.skip(i as int + 1));
        }
        if hit {
            return Some(i);
        }
        i = i + 1;
    }
    proof {
        assert(ev.skip(l as int) =~= Seq::<(ScalarV, ScalarV)>::empty());
    }
    None
}

/// `Ok(t)` becomes `Ok(a + t)`; an error stays itself.
pub open spec fn streams_cat(
    a: Seq<StreamV>,
    o: Result<Seq<StreamV>, ProxyErrorView>,
) -> Result<Seq<StreamV>, ProxyErrorView> {
    match o {
        Result::Ok(t) => Ok(a + t),
        Result::Err(e) => Err(e),
    }
}

/// Builds the measurement streams of the non-reserved entries, exactly as
/// [`spec_streams`] says.
fn build_streams(es: &Vec<(Scalar, Scalar)>) -> (r: Result<Vec<Stream>, ProxyError>)
    ensures
        match r {
            Result::Ok(ss) => spec_streams(entries_view(es@)) == Ok::<Seq<StreamV>, ProxyErrorView>(streams_view(ss@)),
            Result::Err(e) => spec_streams(entries_view(es@)) == Err::<Seq<StreamV>, ProxyErrorView>(e@),
        },
{
    let l = es.len();
    let ghost ev = entries_view(es@);
    let fnum_key = String::from_str("fnum");
    let sender_key = String::from_str("sender");
    let mut out: Vec<Stream> = Vec::new();
    proof {
        assert(ev.skip(0) =~= ev);
        assert(streams_view(out@) + Seq::<StreamV>::empty() =~= Seq::<StreamV>::empty());
    }
    let mut i: usize = 0;
    while i < l
        invariant
            i <= l,
            l == es@.len(),
            ev == entries_view(es@),
            ev.len() == l,
            fnum_key@ == "fnum"@,
            sender_key@ == "sender"@,
            spec_streams(ev) == streams_cat(streams_view(out@), spec_streams(ev.skip(i as int))),
        decreases l - i,
    {
        let ghost out_pre = out@;
        proof {
            assert(ev.skip(i as int)[0] == ev[i as int]);
            assert(ev[i as int] == (es@[i as int].0@, es@[i as int].1@));
            assert(ev.skip(i as int).drop_first() =~= ev.skip(i as int + 1));
        }
        match &es[i].0 {
            Scalar::Text(name) => {
                if *name == fnum_key || *name == sender_key {
                    // a reserved key: not a stream
                } else {
                    let st = match &es[i].1 {
                        Scalar::Float(b) => Stream {
                            name: name.clone(),
                            value: Data::Float(*b),
                            dtype: 0,
                        },
                        Scalar::Signed(x) => Stream {
                            name: name.clone(),
                            value: Data::Signed(*x),
                            dtype: 1,
                        },
                        Scalar::Unsigned(u) => Stream {
                            name: name.clone(),
                            value: Data::Unsigned(*u),
                            dtype: 1,
                        },
                        _ => {
                            return Err(
                                ProxyError::ParseError(
                                    String::from_str("invalid value for ").concat(name.as_str()),
                                ),
                            );
                        },
                    };
                    proof {
                        assert(streams_view(out_pre.push(st)) =~= streams_view(out_pre).push(st@));
                        match spec_streams(ev.skip(i as int + 1)) {
                            Result::Ok(tail) => {
                                assert(streams_view(out_pre) + (seq![st@] + tail) =~= streams_view(
                                    out_pre,
                                ).push(st@) + tail);
                            },
                            Result::Err(_) => {},
                        }
                    }
                    out.push(st);
                }
            },
            _ => {
                return Err(ProxyError::ParseError(String::from_str("Invalid key.")));
            },
        }
        i = i + 1;
    }
    proof {
        assert(ev.skip(l as int) =~= Seq::<(ScalarV, ScalarV)>::empty());
        assert(streams_view(out@) + Seq::<StreamV>::empty() =~= streams_view(out@));
    }
    Ok(out)
}

/// Relies on `std::time::SystemTime::now` and `duration_since`: the wall
/// clock as nanoseconds since the Unix epoch, or 0 should the clock read
/// before the epoch. The value depends on the moment of the call, so
/// nothing is promised of it.
#[verifier::external_body]
fn now_nanos() -> u64 {
    match std::time::SystemTime::now().duration_since(std::time::UNIX_EPOCH) {
        Ok(d) => d.as_nanos() as u64,
        Err(_) => 0,
    }
}

/// The rejection of a value tree does not depend on the receipt timestamp.
pub proof fn lemma_project_err_any_ts(v: ValueV, ts1: u64, ts2: u64)
    ensures
        spec_project(v, ts1) is Err ==> spec_project(v, ts1) == spec_project(v, ts2),
        spec_project(v, ts1) is Ok <==> spec_project(v, ts2) is Ok,
{
}

impl Frame {
    /// Projects a decoded value tree into a frame carrying the given
    /// receipt timestamp, exactly as [`spec_project`] says.
    pub fn from_value_at(val: Value, timestamp: u64) -> (r: Result<Frame, ProxyError>)
        ensures
            match r {
                Result::Ok(f) => spec_project(val@, timestamp) == Ok::<FrameV, ProxyErrorView>(f@),
                Result::Err(e) => spec_project(val@, timestamp) == Err::<FrameV, ProxyErrorView>(e@),
            },
    {
        let es = match val {
            Value::Scalar(_) => {
                return Err(ProxyError::ParseError(String::from_str("not a map")));
            },
            Value::Object(es) => es,
        };
        let fnum_key = String::from_str("fnum");
        let fnum: u64 = match find_key(&es, &fnum_key) {
            Option::None => {
                return Err(ProxyError::ParseError(String::from_str("no frame number")));
            },
            Option::Some(idx) => match &es[idx].1 {
                Scalar::Unsigned(u) => *u,
                _ => {
                    return Err(ProxyError::ParseError(String::from_str("invalid frame number")));
                },
            },
        };
        let sender_key = String::from_str("sender");
        let sender: String = match find_key(&es, &sender_key) {
            Option::None => {
                return Err(ProxyError::ParseError(String::from_str("no sender")));
            },
            Option::Some(idx) => match &es[idx].1 {
                Scalar::Text(t) => if t.as_str().is_empty() {
                    return Err(ProxyError::ParseError(String::from_str("invalid sender")));
                } else {
                    t.clone()
                },
                _ => {
                    return Err(ProxyError::ParseError(String::from_str("invalid sender")));
                },
            },
        };
        match build_streams(&es) {
            Result::Ok(streams) => Ok(Frame { timestamp, sender, fnum, streams }),
            Result::Err(e) => Err(e),
        }
    }

    /// Projects a decoded value tree into a frame, reading the receipt
    /// timestamp from the wall clock at the moment validation succeeds.
    /// Whatever the clock read, everything else of the result is exactly
    /// what [`spec_project`] says.
    pub fn from_value(val: Value) -> (r: Result<Frame, ProxyError>)
        ensures
            r matches Ok(f) ==> spec_project(val@, f.timestamp) == Ok::<FrameV, ProxyErrorView>(f@),
            r matches Err(e) ==> spec_project(val@, 0) == Err::<FrameV, ProxyErrorView>(e@),
            r is Ok <==> spec_project(val@, 0) is Ok,
    {
        let ts = now_nanos();
        let ghost v = val@;
        let r = Frame::from_value_at(val, ts);
        proof {
            lemma_project_err_any_ts(v, ts, 0);
        }
        r
    }
}


// ---- the round trip ----

/// The scalar a stream value stands for in a payload map.
pub open spec fn data_scalar(d: DataV) -> ScalarV {
    match d {
        DataV::Float(b) => ScalarV::Float(b),
        DataV::Signed(x) => ScalarV::Signed(x),
        DataV::Unsigned(u) => ScalarV::Unsigned(u),
    }
}

/// The classifier a stream value carries: 0 for floating point, 1 for
/// either integer variant.
pub open spec fn spec_dtype(d: DataV) -> u64 {
    match d {
        DataV::Float(_) => 0,
        _ => 1,
    }
}

/// A well-formed frame: the sender is not empty, no stream uses a reserved
/// key, and every stream carries the classifier of its own value.
pub open spec fn wf_frame(f: FrameV) -> bool {
    &&& f.sender.len() > 0
    &&& forall|k: int|
        0 <= k < f.streams.len() ==> !is_reserved(#[trigger] f.streams[k].name) && f.streams[
            k
        ].dtype == spec_dtype(f.streams[k].value)
}

/// The entry a stream stands for in a payload map.
pub open spec fn stream_entry(st: StreamV) -> (ScalarV, ScalarV) {
    (ScalarV::Text(st.name), data_scalar(st.value))
}

/// The map payload equivalent to a frame: the two required keys, then one
/// entry per stream.
pub open spec fn spec_frame_entries(f: FrameV) -> Seq<(ScalarV, ScalarV)> {
    seq![
        (ScalarV::Text("fnum"@), ScalarV::Unsigned(f.fnum)),
        (ScalarV::Text("sender"@), ScalarV::Text(f.sender)),
    ] + f.streams.map_values(|st: StreamV| stream_entry(st))
}

proof fn lemma_streams_of_entries(ss: Seq<StreamV>)
    requires
        forall|k: int|
            0 <= k < ss.len() ==> !is_reserved(#[trigger] ss[k].name) && ss[k].dtype == spec_dtype(
                ss[k].value,
            ),
    ensures
        spec_streams(ss.map_values(|st: StreamV| stream_entry(st))) == Ok::<
            Seq<StreamV>,
            ProxyErrorView,
        >(ss),
    decreases ss.len(),
{
    let es = ss.map_values(|st: StreamV| stream_entry(st));
    if ss.len() == 0 {
        assert(es.len() == 0);
        assert(Seq::<StreamV>::empty() =~= ss);
    } else {
        let st = ss[0];
        assert(es[0] == stream_entry(st));
        assert(!is_reserved(st.name));
        lemma_streams_of_entries(ss.drop_first());
        assert(es.drop_first() =~= ss.drop_first().map_values(|q: StreamV| stream_entry(q)));
        let built = StreamV { name: st.name, value: st.value, dtype: spec_dtype(st.value) };
        assert(built =~= st);
        assert(seq![st] + ss.drop_first() =~= ss);
    }
}

/// The round trip of the projection: a well-formed frame's own map payload
/// projects back to that very frame, with the same sender, frame number and
/// streams, under any receipt timestamp.
pub proof fn lemma_project_round_trip(f: FrameV)
    requires
        wf_frame(f),
    ensures
        spec_project(ValueV::Object(spec_frame_entries(f)), f.timestamp) == Ok::<
            FrameV,
            ProxyErrorView,
        >(f),
{
    reveal_strlit("fnum");
    reveal_strlit("sender");
    assert("fnum"@.len() == 4);
    assert("sender"@.len() == 6);
    let es = spec_frame_entries(f);
    let tail = f.streams.map_values(|st: StreamV| stream_entry(st));
    assert(es[0] == (ScalarV::Text("fnum"@), ScalarV::Unsigned(f.fnum)));
    assert(es[1] == (ScalarV::Text("sender"@), ScalarV::Text(f.sender)));
    assert(spec_find(es, "fnum"@) == Some(ScalarV::Unsigned(f.fnum)));
    assert(es.drop_first()[0] == es[1]);
    assert(spec_find(es.drop_first(), "sender"@) == Some(ScalarV::Text(f.sender)));
    assert(spec_find(es, "sender"@) == Some(ScalarV::Text(f.sender)));
    lemma_streams_of_entries(f.streams);
    assert(es.drop_first().drop_first() =~= tail);
    assert(spec_streams(es) == spec_streams(es.drop_first()));
    assert(spec_streams(es.drop_first()) == spec_streams(tail));
    assert(spec_streams(es) == Ok::<Seq<StreamV>, ProxyErrorView>(f.streams));
    let built = FrameV {
        timestamp: f.timestamp,
        sender: f.sender,
        fnum: f.fnum,
        streams: f.streams,
    };
    assert(built =~= f);
}



} // verus!
