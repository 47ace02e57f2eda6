//! Payload decoder: parses payload bytes as a compact self-describing binary
//! value tree, with no a priori schema.
//!
//! An encoded item starts with one byte holding a major type (the high three
//! bits) and additional information (the low five bits). The additional
//! information either is a small argument itself (below 24) or selects a
//! big-endian argument of 1, 2, 4 or 8 bytes (24..=27). The argument is the
//! value for integers, the byte length for strings, the entry count for
//! arrays and maps, and the raw bits for floating-point items of major
//! type 7. The decoder keeps 64-bit unsigned and negative integers, floating
//! point (widened to 64-bit bits), and text; every other well-formed item
//! (byte strings, arrays, nested maps, tags, simple values) is structurally
//! validated and collapsed into a residual [`Scalar::Other`]. The root item
//! is kept as a map of entries when it is a map. Indefinite-length items and
//! reserved additional-information values are rejected.

use vstd::prelude::*;
use vstd::utf8::decode_utf8;
use vstd::utf8::encode_utf8;
use vstd::utf8::valid_utf8;

verus! {

/// One decoded item of the value tree, below the root.
///
/// A floating-point item carries the IEEE 754 binary64 bit pattern of its
/// value as a plain integer; the presentation layer reinterprets the bits.
#[derive(Debug)]
pub enum Scalar {
    /// An unsigned integer (major type 0).
    Unsigned(u64),
    /// A negative integer (major type 1); always below zero.
    Signed(i64),
    /// A floating-point value (major type 7), as its binary64 bits.
    Float(u64),
    /// A text string (major type 3).
    Text(String),
    /// Any other well-formed item, structurally validated and discarded.
    Other,
}

/// The root of a decoded payload: either a map of entries in wire order, or
/// a single non-map item.
#[derive(Debug)]
pub enum Value {
    Scalar(Scalar),
    Object(Vec<(Scalar, Scalar)>),
}

/// Mathematical image of a [`Scalar`].
#[verifier::ext_equal]
pub ghost enum ScalarV {
    Unsigned(u64),
    Signed(i64),
    Float(u64),
    Text(Seq<char>),
    Other,
}

/// Mathematical image of a [`Value`].
#[verifier::ext_equal]
pub ghost enum ValueV {
    Scalar(ScalarV),
    Object(Seq<(ScalarV, ScalarV)>),
}

impl View for Scalar {
    type V = ScalarV;

    open spec fn view(&self) -> ScalarV {
        match self {
            Scalar::Unsigned(u) => ScalarV::Unsigned(*u),
            Scalar::Signed(x) => ScalarV::Signed(*x),
            Scalar::Float(b) => ScalarV::Float(*b),
            Scalar::Text(t) => ScalarV::Text(t@),
            Scalar::Other => ScalarV::Other,
        }
    }
}

/// The views of a map's entries, in order.
pub open spec fn entries_view(es: Seq<(Scalar, Scalar)>) -> Seq<(ScalarV, ScalarV)> {
    es.map_values(|p: (Scalar, Scalar)| (p.0@, p.1@))
}

impl View for Value {
    type V = ValueV;

    open spec fn view(&self) -> ValueV {
        match self {
            Value::Scalar(sc) => ValueV::Scalar(sc@),
            Value::Object(es) => ValueV::Object(entries_view(es@)),
        }
    }
}

// ---- big-endian arguments ----

pub open spec fn spec_be16(s: Seq<u8>, i: int) -> u64 {
    ((s[i] as u64) * 0x100 + (s[i + 1] as u64)) as u64
}

pub open spec fn spec_be32(s: Seq<u8>, i: int) -> u64 {
    ((s[i] as u64) * 0x1000000 + (s[i + 1] as u64) * 0x10000 + (s[i + 2] as u64) * 0x100 + (s[i
        + 3] as u64)) as u64
}

pub open spec fn spec_be64(s: Seq<u8>, i: int) -> u64 {
    (spec_be32(s, i) * 0x100000000 + spec_be32(s, i + 4)) as u64
}

fn be16(src: &Vec<u8>, i: usize) -> (r: u64)
    requires
        i + 2 <= src@.len(),
    ensures
        r == spec_be16(src@, i as int),
        r <= 0xffff,
{
    let l = src.len();
    (src[i] as u64) * 0x100 + (src[i + 1] as u64)
}

fn be32(src: &Vec<u8>, i: usize) -> (r: u64)
    requires
        i + 4 <= src@.len(),
    ensures
        r == spec_be32(src@, i as int),
        r <= 0xffffffff,
{
    let l = src.len();
    (src[i] as u64) * 0x1000000 + (src[i + 1] as u64) * 0x10000 + (src[i + 2] as u64) * 0x100 + (
    src[i + 3] as u64)
}

fn be64(src: &Vec<u8>, i: usize) -> (r: u64)
    requires
        i + 8 <= src@.len(),
    ensures
        r == spec_be64(src@, i as int),
{
    let l = src.len();
    let hi = be32(src, i);
    let lo = be32(src, i + 4);
    hi * 0x100000000 + lo
}

// ---- widening of short floating-point bit patterns to binary64 bits ----

/// Doubles `m` until it reaches `top`, counting the steps; `fuel` bounds the
/// walk. Returns the final value and the step count.
pub open spec fn spec_norm(m: u64, top: u64, fuel: u64) -> (u64, u64)
    decreases fuel,
{
    if m >= top || fuel == 0 || m == 0 || m >= 0x80000000 {
        (m, 0)
    } else {
        let (mn, s) = spec_norm((m * 2) as u64, top, (fuel - 1) as u64);
        (mn, (s + 1) as u64)
    }
}

/// The step count of the normalisation walk never exceeds its fuel.
pub proof fn lemma_norm_steps(m: u64, top: u64, fuel: u64)
    ensures
        spec_norm(m, top, fuel).1 <= fuel,
    decreases fuel,
{
    if !(m >= top || fuel == 0 || m == 0 || m >= 0x80000000) {
        lemma_norm_steps((m * 2) as u64, top, (fuel - 1) as u64);
    }
}

/// The binary64 bits meant by a sign, a biased binary64 exponent field and a
/// 52-bit fraction field.
pub open spec fn spec_f64_parts(sign: u64, expf: u64, frac: u64) -> u64
    recommends
        sign <= 1,
        expf <= 0x7ff,
        frac < 0x10000000000000,
{
    (sign * 0x8000000000000000 + expf * 0x10000000000000 + frac) as u64
}

/// The binary64 bit pattern of the value a binary16 bit pattern denotes.
/// Exponents move from bias 15 to bias 1023; the 10-bit fraction widens to
/// 52 bits; subnormal values are normalised; an infinity or NaN keeps its
/// payload, shifted into the wider fraction field.
#[verifier::opaque]
pub open spec fn spec_widen16(b: u16) -> u64 {
    let sign = (b / 0x8000) as u64;
    let e = ((b / 0x400) % 0x20) as u64;
    let m = (b % 0x400) as u64;
    if e == 0x1f {
        spec_f64_parts(sign, 0x7ff, (m * 0x40000000000) as u64)
    } else if e == 0 && m == 0 {
        spec_f64_parts(sign, 0, 0)
    } else if e == 0 {
        let (mn, s) = spec_norm(m, 0x400, 10);
        if mn >= 0x400 && s <= 10 {
            spec_f64_parts(sign, (1009 - s) as u64, ((mn - 0x400) * 0x40000000000) as u64)
        } else {
            0
        }
    } else {
        spec_f64_parts(sign, (e + 1008) as u64, (m * 0x40000000000) as u64)
    }
}

/// The binary64 bit pattern of the value a binary32 bit pattern denotes,
/// formed as in [`spec_widen16`] (bias 127 to 1023, 23-bit fraction to 52).
#[verifier::opaque]
pub open spec fn spec_widen32(b: u32) -> u64 {
    let sign = (b / 0x80000000) as u64;
    let e = ((b / 0x800000) % 0x100) as u64;
    let m = (b % 0x800000) as u64;
    if e == 0xff {
        spec_f64_parts(sign, 0x7ff, (m * 0x20000000) as u64)
    } else if e == 0 && m == 0 {
        spec_f64_parts(sign, 0, 0)
    } else if e == 0 {
        let (mn, s) = spec_norm(m, 0x800000, 23);
        if mn >= 0x800000 && s <= 23 {
            spec_f64_parts(sign, (897 - s) as u64, ((mn - 0x800000) * 0x20000000) as u64)
        } else {
            0
        }
    } else {
        spec_f64_parts(sign, (e + 896) as u64, (m * 0x20000000) as u64)
    }
}

/// Runs the normalisation walk of [`spec_norm`].
fn norm(m0: u64, top: u64, fuel0: u64) -> (r: (u64, u64))
    requires
        top <= 0x800000,
        m0 < top,
    ensures
        r == spec_norm(m0, top, fuel0),
        r.1 <= fuel0,
        r.0 < 2 * top,
{
    let mut m: u64 = m0;
    let mut fuel: u64 = fuel0;
    let mut steps: u64 = 0;
    while m < top && fuel > 0 && m > 0 && m < 0x80000000
        invariant
            top <= 0x800000,
            m < 2 * top,
            steps + fuel == fuel0,
            spec_norm(m0, top, fuel0) == {
                let (mn, s) = spec_norm(m, top, fuel);
                (mn, (s + steps) as u64)
            },
        decreases fuel,
    {
        proof {
            lemma_norm_steps((m * 2) as u64, top, (fuel - 1) as u64);
        }
        m = m * 2;
        fuel = fuel - 1;
        steps = steps + 1;
    }
    (m, steps)
}

/// Widens a binary16 bit pattern to binary64 bits, as [`spec_widen16`] says.
pub fn widen16(b: u16) -> (r: u64)
    ensures
        r == spec_widen16(b),
{
    proof {
        reveal(spec_widen16);
    }
    let sign: u64 = (b / 0x8000) as u64;
    let e: u64 = ((b / 0x400) % 0x20) as u64;
    let m: u64 = (b % 0x400) as u64;
    if e == 0x1f {
        sign * 0x8000000000000000 + 0x7ff * 0x10000000000000 + m * 0x40000000000
    } else if e == 0 && m == 0 {
        sign * 0x8000000000000000
    } else if e == 0 {
        let (mn, s) = norm(m, 0x400, 10);
        if mn >= 0x400 && s <= 10 {
            sign * 0x8000000000000000 + (1009 - s) * 0x10000000000000 + (mn - 0x400)
                * 0x40000000000
        } else {
            0
        }
    } else {
        sign * 0x8000000000000000 + (e + 1008) * 0x10000000000000 + m * 0x40000000000
    }
}

/// Widens a binary32 bit pattern to binary64 bits, as [`spec_widen32`] says.
pub fn widen32(b: u32) -> (r: u64)
    ensures
        r == spec_widen32(b),
{
    proof {
        reveal(spec_widen32);
    }
    let sign: u64 = (b / 0x80000000) as u64;
    let e: u64 = ((b / 0x800000) % 0x100) as u64;
    let m: u64 = (b % 0x800000) as u64;
    if e == 0xff {
        sign * 0x8000000000000000 + 0x7ff * 0x10000000000000 + m * 0x20000000
    } else if e == 0 && m == 0 {
        sign * 0x8000000000000000
    } else if e == 0 {
        let (mn, s) = norm(m, 0x800000, 23);
        if mn >= 0x800000 && s <= 23 {
            sign * 0x8000000000000000 + (897 - s) * 0x10000000000000 + (mn - 0x800000) * 0x20000000
        } else {
            0
        }
    } else {
        sign * 0x8000000000000000 + (e + 896) * 0x10000000000000 + m * 0x20000000
    }
}

// ---- parsing ----

/// The argument announced by the item head at `i`: the low five bits when
/// below 24, else a big-endian argument of 1, 2, 4 or 8 bytes. Returns the
/// argument and the position after the head; reserved and indefinite-length
/// heads give `None`.
pub open spec fn spec_header(s: Seq<u8>, i: int) -> Option<(u64, int)> {
    if !(0 <= i && i < s.len()) {
        None
    } else {
        let ai = s[i] % 32;
        if ai < 24 {
            Some((ai as u64, i + 1))
        } else if ai == 24 {
            if i + 2 <= s.len() {
                Some((s[i + 1] as u64, i + 2))
            } else {
                None
            }
        } else if ai == 25 {
            if i + 3 <= s.len() {
                Some((spec_be16(s, i + 1), i + 3))
            } else {
                None
            }
        } else if ai == 26 {
            if i + 5 <= s.len() {
                Some((spec_be32(s, i + 1), i + 5))
            } else {
                None
            }
        } else if ai == 27 {
            if i + 9 <= s.len() {
                Some((spec_be64(s, i + 1), i + 9))
            } else {
                None
            }
        } else {
            None
        }
    }
}

/// Parses the one item starting at `i`, collapsing anything that is not an
/// integer, a floating-point value or text into [`ScalarV::Other`]. Returns
/// the item and the position after it.
pub open spec fn spec_parse_scalar(s: Seq<u8>, i: int) -> Option<(ScalarV, int)>
    decreases s.len() - i, 0int,
{
    if !(0 <= i && i < s.len()) {
        None
    } else {
        let major = s[i] / 32;
        let ai = s[i] % 32;
        match spec_header(s, i) {
            Option::None => None,
            Option::Some((arg, j)) => {
                if major == 0 {
                    Some((ScalarV::Unsigned(arg), j))
                } else if major == 1 {
                    if arg <= 0x7fffffffffffffff {
                        Some((ScalarV::Signed((-1 - arg) as i64), j))
                    } else {
                        None
                    }
                } else if major == 2 {
                    if j + arg <= s.len() {
                        Some((ScalarV::Other, j + arg))
                    } else {
                        None
                    }
                } else if major == 3 {
                    if j + arg <= s.len() {
                        let bytes = s.subrange(j, j + arg);
                        if valid_utf8(bytes) {
                            Some((ScalarV::Text(decode_utf8(bytes)), j + arg))
                        } else {
                            None
                        }
                    } else {
                        None
                    }
                } else if major == 4 {
                    match spec_skip(s, j, arg as nat) {
                        Option::None => None,
                        Option::Some(k) => Some((ScalarV::Other, k)),
                    }
                } else if major == 5 {
                    match spec_skip(s, j, arg as nat) {
                        Option::None => None,
                        Option::Some(k) => if j <= k <= s.len() {
                            match spec_skip(s, k, arg as nat) {
                                Option::None => None,
                                Option::Some(k2) => Some((ScalarV::Other, k2)),
                            }
                        } else {
                            None
                        },
                    }
                } else if major == 6 {
                    match spec_skip(s, j, 1) {
                        Option::None => None,
                        Option::Some(k) => Some((ScalarV::Other, k)),
                    }
                } else {
                    if ai <= 24 {
                        Some((ScalarV::Other, j))
                    } else if ai == 25 {
                        Some((ScalarV::Float(spec_widen16(arg as u16)), j))
                    } else if ai == 26 {
                        Some((ScalarV::Float(spec_widen32(arg as u32)), j))
                    } else {
                        Some((ScalarV::Float(arg), j))
                    }
                }
            },
        }
    }
}

/// The position after `n` consecutive items starting at `i`, or `None` when
/// any of them is malformed.
pub open spec fn spec_skip(s: Seq<u8>, i: int, n: nat) -> Option<int>
    decreases s.len() - i, n as int + 1,
{
    if n == 0 {
        Some(i)
    } else if !(0 <= i && i < s.len()) {
        None
    } else {
        match spec_parse_scalar(s, i) {
            Option::None => None,
            Option::Some((v, j)) => if i < j <= s.len() {
                spec_skip(s, j, (n - 1) as nat)
            } else {
                None
            },
        }
    }
}

/// Parses `n` key-value entry pairs starting at `i`, in wire order. Returns
/// the entries and the position after them.
pub open spec fn spec_parse_entries(s: Seq<u8>, i: int, n: nat) -> Option<
    (Seq<(ScalarV, ScalarV)>, int),
>
    decreases s.len() - i, n as int + 1,
{
    if n == 0 {
        Some((Seq::empty(), i))
    } else if !(0 <= i && i < s.len()) {
        None
    } else {
        match spec_parse_scalar(s, i) {
            Option::None => None,
            Option::Some((k, j)) => if i < j <= s.len() {
                match spec_parse_scalar(s, j) {
                    Option::None => None,
                    Option::Some((v, j2)) => if j < j2 <= s.len() {
                        match spec_parse_entries(s, j2, (n - 1) as nat) {
                            Option::None => None,
                            Option::Some((rest, end)) => Some((seq![(k, v)] + rest, end)),
                        }
                    } else {
                        None
                    },
                }
            } else {
                None
            },
        }
    }
}

/// The value tree of a whole payload: a root map is kept as its entries,
/// any other root item is kept as the one scalar; the payload must hold
/// exactly one item with nothing after it.
pub open spec fn spec_parse_payload(s: Seq<u8>) -> Option<ValueV> {
    if s.len() == 0 {
        None
    } else if s[0] / 32 == 5 {
        match spec_header(s, 0) {
            Option::None => None,
            Option::Some((cnt, j)) => match spec_parse_entries(s, j, cnt as nat) {
                Option::None => None,
                Option::Some((es, end)) => if end == s.len() {
                    Some(ValueV::Object(es))
                } else {
                    None
                },
            },
        }
    } else {
        match spec_parse_scalar(s, 0) {
            Option::None => None,
            Option::Some((v, end)) => if end == s.len() {
                Some(ValueV::Scalar(v))
            } else {
                None
            },
        }
    }
}

/// Relies on `String::from_utf8`: succeeds exactly on valid UTF-8 input,
/// decoding the bytes to the character sequence they encode.
#[verifier::external_body]
fn string_from_utf8(v: Vec<u8>) -> (r: Option<String>)
    ensures
        r is Some <==> valid_utf8(v@),
        r matches Some(t) ==> t@ == decode_utf8(v@),
{
    String::from_utf8(v).ok()
}

fn read_header(src: &Vec<u8>, i: usize) -> (r: Option<(u64, usize)>)
    ensures
        match r {
            Option::Some((arg, j)) => spec_header(src@, i as int) == Some((arg, j as int)) && i < j
                <= src@.len(),
            Option::None => spec_header(src@, i as int) is None,
        },
{
    let l = src.len();
    if i >= l {
        return None;
    }
    let ai = src[i] % 32;
    if ai < 24 {
        Some((ai as u64, i + 1))
    } else if ai == 24 {
        if l - i >= 2 {
            Some((src[i + 1] as u64, i + 2))
        } else {
            None
        }
    } else if ai == 25 {
        if l - i >= 3 {
            Some((be16(src, i + 1), i + 3))
        } else {
            None
        }
    } else if ai == 26 {
        if l - i >= 5 {
            Some((be32(src, i + 1), i + 5))
        } else {
            None
        }
    } else if ai == 27 {
        if l - i >= 9 {
            Some((be64(src, i + 1), i + 9))
        } else {
            None
        }
    } else {
        None
    }
}

/// Parses the one item starting at `i`, exactly as [`spec_parse_scalar`]
/// says.
pub fn parse_scalar(src: &Vec<u8>, i: usize) -> (r: Option<(Scalar, usize)>)
    ensures
        match r {
            Option::Some((v, j)) => spec_parse_scalar(src@, i as int) == Some((v@, j as int)) && i
                < j <= src@.len(),
            Option::None => spec_parse_scalar(src@, i as int) is None,
        },
    decreases src@.len() - i, 0int,
{
    let l = src.len();
    if i >= l {
        return None;
    }
    let major = src[i] / 32;
    let ai = src[i] % 32;
    match read_header(src, i) {
        Option::None => None,
        Option::Some((arg, j)) => {
            if major == 0 {
                Some((Scalar::Unsigned(arg), j))
            } else if major == 1 {
                if arg <= 0x7fffffffffffffff {
                    let v: i64 = -(arg as i64) - 1;
                    Some((Scalar::Signed(v), j))
                } else {
                    None
                }
            } else if major == 2 {
                if arg <= (l - j) as u64 {
                    Some((Scalar::Other, j + arg as usize))
                } else {
                    None
                }
            } else if major == 3 {
                if arg <= (l - j) as u64 {
                    let j2 = j + arg as usize;
                    let bytes = vstd::slice::slice_to_vec(
                        vstd::slice::slice_subrange(src.as_slice(), j, j2),
                    );
                    match string_from_utf8(bytes) {
                        Option::Some(t) => Some((Scalar::Text(t), j2)),
                        Option::None => None,
                    }
                } else {
                    None
                }
            } else if major == 4 {
                match skip_items(src, j, arg) {
                    Option::None => None,
                    Option::Some(k) => Some((Scalar::Other, k)),
                }
            } else if major == 5 {
                match skip_items(src, j, arg) {
                    Option::None => None,
                    Option::Some(k) => match skip_items(src, k, arg) {
                        Option::None => None,
                        Option::Some(k2) => Some((Scalar::Other, k2)),
                    },
                }
            } else if major == 6 {
                match skip_items(src, j, 1) {
                    Option::None => None,
                    Option::Some(k) => Some((Scalar::Other, k)),
                }
            } else {
                if ai <= 24 {
                    Some((Scalar::Other, j))
                } else if ai == 25 {
                    Some((Scalar::Float(widen16(arg as u16)), j))
                } else if ai == 26 {
                    Some((Scalar::Float(widen32(arg as u32)), j))
                } else {
                    Some((Scalar::Float(arg), j))
                }
            }
        },
    }
}

/// Walks past `n` consecutive items starting at `i`, exactly as
/// [`spec_skip`] says.
pub fn skip_items(src: &Vec<u8>, i: usize, n: u64) -> (r: Option<usize>)
    ensures
        match r {
            Option::Some(k) => spec_skip(src@, i as int, n as nat) == Some(k as int) && i <= k && (
            n == 0 ==> k == i) && (n > 0 ==> k <= src@.len()),
            Option::None => spec_skip(src@, i as int, n as nat) is None,
        },
    decreases src@.len() - i, n as int + 1,
{
    if n == 0 {
        return Some(i);
    }
    let l = src.len();
    if i >= l {
        return None;
    }
    match parse_scalar(src, i) {
        Option::None => None,
        Option::Some((_v, j)) => skip_items(src, j, n - 1),
    }
}

/// Parses `n` key-value entry pairs starting at `i`, exactly as
/// [`spec_parse_entries`] says.
pub fn parse_entries(src: &Vec<u8>, i: usize, n: u64) -> (r: Option<(Vec<(Scalar, Scalar)>, usize)>)
    ensures
        match r {
            Option::Some((es, end)) => spec_parse_entries(src@, i as int, n as nat) == Some(
                (entries_view(es@), end as int),
            ) && i <= end && (n == 0 ==> end == i) && (n > 0 ==> end <= src@.len()),
            Option::None => spec_parse_entries(src@, i as int, n as nat) is None,
        },
    decreases src@.len() - i, n as int + 1,
{
    if n == 0 {
        let es: Vec<(Scalar, Scalar)> = Vec::new();
        proof {
            assert(entries_view(es@) =~= Seq::<(ScalarV, ScalarV)>::empty());
        }
        return Some((es, i));
    }
    let l = src.len();
    if i >= l {
        return None;
    }
    match parse_scalar(src, i) {
        Option::None => None,
        Option::Some((k, j)) => match parse_scalar(src, j) {
            Option::None => None,
            Option::Some((v, j2)) => match parse_entries(src, j2, n - 1) {
                Option::None => None,
                Option::Some((rest, end)) => {
                    let ghost rest_pre = rest@;
                    let mut rest = rest;
                    rest.insert(0, (k, v));
                    proof {
                        assert(entries_view(rest@) =~= seq![(k@, v@)] + entries_view(rest_pre));
                    }
                    Some((rest, end))
                },
            },
        },
    }
}

/// Parses a whole payload into its value tree, exactly as
/// [`spec_parse_payload`] says: `None` is the structural failure of a
/// payload that is not one well-formed item.
pub fn parse_payload(src: &Vec<u8>) -> (r: Option<Value>)
    ensures
        match r {
            Option::Some(v) => spec_parse_payload(src@) == Some(v@),
            Option::None => spec_parse_payload(src@) is None,
        },
{
    let l = src.len();
    if l == 0 {
        return None;
    }
    if src[0] / 32 == 5 {
        match read_header(src, 0) {
            Option::None => None,
            Option::Some((cnt, j)) => match parse_entries(src, j, cnt) {
                Option::None => None,
                Option::Some((es, end)) => if end == l {
                    Some(Value::Object(es))
                } else {
                    None
                },
            },
        }
    } else {
        match parse_scalar(src, 0) {
            Option::None => None,
            Option::Some((v, end)) => if end == l {
                Some(Value::Scalar(v))
            } else {
                None
            },
        }
    }
}


// ---- an encoding for the round trip ----

/// One item head carrying `arg` as an eight-byte big-endian argument: not
/// the shortest form, but a well-formed one every decoder branch accepts.
pub open spec fn spec_head(major: u8, arg: u64) -> Seq<u8> {
    seq![
        (major * 32 + 27) as u8,
        (arg >> 56) as u8,
        (arg >> 48) as u8,
        (arg >> 40) as u8,
        (arg >> 32) as u8,
        (arg >> 24) as u8,
        (arg >> 16) as u8,
        (arg >> 8) as u8,
        arg as u8,
    ]
}

proof fn lemma_head(s: Seq<u8>, i: int, major: u8, arg: u64)
    requires
        major < 8,
        0 <= i,
        i + 9 <= s.len(),
        s.subrange(i, i + 9) == spec_head(major, arg),
    ensures
        s[i] / 32 == major,
        s[i] % 32 == 27,
        spec_header(s, i) == Some((arg, i + 9)),
{
    let h = spec_head(major, arg);
    assert(forall|k: int| 0 <= k < 9 ==> s[i + k] == #[trigger] h[k]);
    let b0 = s[i];
    assert(b0 == (major * 32 + 27) as u8);
    assert(b0 / 32 == major && b0 % 32 == 27) by (bit_vector)
        requires
            b0 == (major * 32 + 27) as u8,
            major < 8,
    ;
    let b1 = s[i + 1];
    let b2 = s[i + 2];
    let b3 = s[i + 3];
    let b4 = s[i + 4];
    let b5 = s[i + 5];
    let b6 = s[i + 6];
    let b7 = s[i + 7];
    let b8 = s[i + 8];
    assert(((((b1 as u64) * 0x1000000 + (b2 as u64) * 0x10000 + (b3 as u64) * 0x100 + (
    b4 as u64)) as u64) * 0x100000000 + (((b5 as u64) * 0x1000000 + (b6 as u64) * 0x10000 + (
    b7 as u64) * 0x100 + (b8 as u64)) as u64)) as u64 == arg) by (bit_vector)
        requires
            b1 == (arg >> 56) as u8,
            b2 == (arg >> 48) as u8,
            b3 == (arg >> 40) as u8,
            b4 == (arg >> 32) as u8,
            b5 == (arg >> 24) as u8,
            b6 == (arg >> 16) as u8,
            b7 == (arg >> 8) as u8,
            b8 == arg as u8,
    ;
    assert(spec_be64(s, i + 1) == arg);
}

/// A subrange equal to a concatenation splits at the boundary.
proof fn lemma_subrange_cat(s: Seq<u8>, i: int, a: Seq<u8>, b: Seq<u8>)
    requires
        0 <= i,
        i + a.len() + b.len() <= s.len(),
        s.subrange(i, i + a.len() + b.len()) == a + b,
    ensures
        s.subrange(i, i + a.len() as int) == a,
        s.subrange(i + a.len() as int, i + a.len() + b.len()) == b,
{
    let w = s.subrange(i, i + a.len() + b.len());
    assert forall|k: int| 0 <= k < a.len() implies s.subrange(i, i + a.len() as int)[k] == a[k] by {
        assert(w[k] == (a + b)[k]);
    }
    assert(s.subrange(i, i + a.len() as int) =~= a);
    assert forall|k: int| 0 <= k < b.len() implies s.subrange(
        i + a.len() as int,
        i + a.len() + b.len(),
    )[k] == b[k] by {
        assert(w[a.len() + k] == (a + b)[a.len() + k]);
    }
    assert(s.subrange(i + a.len() as int, i + a.len() + b.len()) =~= b);
}

/// Whether [`spec_encode_scalar`] can stand for the item: everything but
/// the residual kind, with a negative integer for the signed variant and a
/// text whose encoding fits an argument.
pub open spec fn encodable(v: ScalarV) -> bool {
    match v {
        ScalarV::Unsigned(_) => true,
        ScalarV::Signed(x) => x < 0,
        ScalarV::Float(_) => true,
        ScalarV::Text(t) => encode_utf8(t).len() < 0x10000000000000000,
        ScalarV::Other => false,
    }
}

/// One encoding of an item: the head, and for text the UTF-8 bytes after
/// it.
pub open spec fn spec_encode_scalar(v: ScalarV) -> Seq<u8> {
    match v {
        ScalarV::Unsigned(u) => spec_head(0, u),
        ScalarV::Signed(x) => spec_head(1, (-1 - x) as u64),
        ScalarV::Float(b) => spec_head(7, b),
        ScalarV::Text(t) => spec_head(3, encode_utf8(t).len() as u64) + encode_utf8(t),
        ScalarV::Other => Seq::empty(),
    }
}

proof fn lemma_parse_encoded_scalar(s: Seq<u8>, i: int, v: ScalarV)
    requires
        encodable(v),
        0 <= i,
        i + spec_encode_scalar(v).len() <= s.len(),
        s.subrange(i, i + spec_encode_scalar(v).len()) == spec_encode_scalar(v),
    ensures
        spec_parse_scalar(s, i) == Some((v, i + spec_encode_scalar(v).len())),
{
    let e = spec_encode_scalar(v);
    match v {
        ScalarV::Unsigned(u) => {
            lemma_head(s, i, 0, u);
        },
        ScalarV::Signed(x) => {
            lemma_head(s, i, 1, (-1 - x) as u64);
        },
        ScalarV::Float(b) => {
            lemma_head(s, i, 7, b);
            assert(s[i] % 32 == 27);
        },
        ScalarV::Text(t) => {
            let bytes = encode_utf8(t);
            let n = bytes.len() as u64;
            lemma_subrange_cat(s, i, spec_head(3, n), bytes);
            lemma_head(s, i, 3, n);
            vstd::utf8::encode_utf8_valid_utf8(t);
            vstd::utf8::encode_utf8_decode_utf8(t);
        },
        ScalarV::Other => {},
    }
}

/// Whether every key and value of the entries is encodable, with an entry
/// count that fits an argument.
pub open spec fn encodable_entries(es: Seq<(ScalarV, ScalarV)>) -> bool {
    es.len() < 0x10000000000000000 && forall|k: int|
        0 <= k < es.len() ==> encodable(#[trigger] es[k].0) && encodable(es[k].1)
}

/// One encoding of the entries, keys and values in order.
pub open spec fn spec_encode_entries(es: Seq<(ScalarV, ScalarV)>) -> Seq<u8>
    decreases es.len(),
{
    if es.len() == 0 {
        Seq::empty()
    } else {
        spec_encode_scalar(es[0].0) + spec_encode_scalar(es[0].1) + spec_encode_entries(
            es.drop_first(),
        )
    }
}

/// One step of entry parsing, unfolded: a key, a value, and the remaining
/// entries after them.
proof fn lemma_entries_unfold(
    s: Seq<u8>,
    i: int,
    n: nat,
    k: ScalarV,
    j: int,
    v: ScalarV,
    j2: int,
    rest: Seq<(ScalarV, ScalarV)>,
    end: int,
)
    requires
        n > 0,
        0 <= i < s.len(),
        spec_parse_scalar(s, i) == Some((k, j)),
        i < j <= s.len(),
        spec_parse_scalar(s, j) == Some((v, j2)),
        j < j2 <= s.len(),
        spec_parse_entries(s, j2, (n - 1) as nat) == Some((rest, end)),
    ensures
        spec_parse_entries(s, i, n) == Some((seq![(k, v)] + rest, end)),
{
}

#[verifier::rlimit(100)]
proof fn lemma_parse_encoded_entries(s: Seq<u8>, i: int, es: Seq<(ScalarV, ScalarV)>)
    requires
        encodable_entries(es),
        0 <= i,
        i + spec_encode_entries(es).len() <= s.len(),
        s.subrange(i, i + spec_encode_entries(es).len()) == spec_encode_entries(es),
    ensures
        spec_parse_entries(s, i, es.len()) == Some((es, i + spec_encode_entries(es).len())),
    decreases es.len(),
{
    if es.len() == 0 {
        assert(spec_parse_entries(s, i, 0) == Some((Seq::<(ScalarV, ScalarV)>::empty(), i)));
        assert(Seq::<(ScalarV, ScalarV)>::empty() =~= es);
    } else {
        let ek = spec_encode_scalar(es[0].0);
        let ev = spec_encode_scalar(es[0].1);
        let er = spec_encode_entries(es.drop_first());
        assert(spec_encode_entries(es) == ek + (ev + er)) by {
            assert(ek + ev + er =~= ek + (ev + er));
        }
        assert(encodable(es[0].0) && encodable(es[0].1));
        assert(encodable_entries(es.drop_first())) by {
            assert forall|k: int|
                0 <= k < es.drop_first().len() implies encodable(
                #[trigger] es.drop_first()[k].0,
            ) && encodable(es.drop_first()[k].1) by {
                assert(es.drop_first()[k] == es[k + 1]);
            }
        }
        lemma_subrange_cat(s, i, ek, ev + er);
        lemma_parse_encoded_scalar(s, i, es[0].0);
        let j = i + ek.len() as int;
        lemma_subrange_cat(s, j, ev, er);
        lemma_parse_encoded_scalar(s, j, es[0].1);
        let j2 = j + ev.len() as int;
        lemma_parse_encoded_entries(s, j2, es.drop_first());
        assert(ek.len() >= 9 && ev.len() >= 9);
        assert(es.drop_first().len() == (es.len() - 1) as nat);
        lemma_entries_unfold(
            s,
            i,
            es.len(),
            es[0].0,
            j,
            es[0].1,
            j2,
            es.drop_first(),
            i + spec_encode_entries(es).len(),
        );
        assert(seq![(es[0].0, es[0].1)] + es.drop_first() =~= es);
    }
}

/// One encoding of a whole map payload: the map head announcing the entry
/// count, then the entries.
pub open spec fn spec_encode_map(es: Seq<(ScalarV, ScalarV)>) -> Seq<u8> {
    spec_head(5, es.len() as u64) + spec_encode_entries(es)
}

/// Decoding inverts the encoding: the bytes [`spec_encode_map`] forms for
/// any encodable entries parse back to exactly that map, for every such
/// map.
pub proof fn lemma_parse_encoded_map(es: Seq<(ScalarV, ScalarV)>)
    requires
        encodable_entries(es),
    ensures
        spec_parse_payload(spec_encode_map(es)) == Some(ValueV::Object(es)),
{
    let s = spec_encode_map(es);
    let eh = spec_head(5, es.len() as u64);
    let ee = spec_encode_entries(es);
    assert(s.subrange(0, s.len() as int) =~= s);
    lemma_subrange_cat(s, 0, eh, ee);
    lemma_head(s, 0, 5, es.len() as u64);
    lemma_parse_encoded_entries(s, 9, es);
}

} // verus!
