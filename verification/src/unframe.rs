//! Frame unframer: reversal of the byte-stuffing that keeps the reserved
//! delimiter byte `0x00` out of a frame's encoding.
//!
//! A stuffed sequence is a chain of blocks. Each block starts with an
//! overhead byte `h`: `h` in `1..=254` announces `h - 1` literal non-zero
//! data bytes standing for those bytes followed by one delimiter, and
//! `h == 255` announces `254` literal data bytes with no delimiter after
//! them. The delimiter a short block stands for is materialised only when
//! another block follows. A delimiter byte at a block boundary ends the
//! message early; leading delimiter bytes are skipped. A delimiter inside a
//! data run, or a run cut short, makes the whole sequence invalid: either
//! the full payload is recovered or the call fails atomically.

use vstd::prelude::*;

verus! {

/// Decoding of the block chain starting at `s[0]`, at a block boundary.
/// `lead_zero` records that a preceding short block has a delimiter to
/// materialise before this block's data.
pub open spec fn spec_blocks(s: Seq<u8>, lead_zero: bool) -> Option<Seq<u8>>
    decreases s.len(),
{
    if s.len() == 0 {
        Some(Seq::empty())
    } else if s[0] == 0 {
        // early terminator at a block boundary: complete, rest ignored
        Some(Seq::empty())
    } else {
        let h = s[0] as int;
        let n: int = if h == 255 {
            254
        } else {
            h - 1
        };
        if s.len() < 1 + n {
            None
        } else if exists|k: int| 1 <= k < 1 + n && s[k] == 0 {
            None
        } else {
            match spec_blocks(s.skip(1 + n), h != 255) {
                Option::None => None,
                Option::Some(tail) => Some(
                    (if lead_zero {
                        seq![0u8]
                    } else {
                        Seq::empty()
                    }) + s.subrange(1, 1 + n) + tail,
                ),
            }
        }
    }
}

/// The payload recovered from a stuffed sequence `s` (the delimiter that
/// terminated the frame is not part of `s`), or `None` if the stuffing
/// structure is invalid. An empty sequence, or one holding only delimiter
/// bytes, carries no frame at all and is invalid too.
pub open spec fn spec_unstuff(s: Seq<u8>) -> Option<Seq<u8>>
    decreases s.len(),
{
    if s.len() == 0 {
        None
    } else if s[0] == 0 {
        spec_unstuff(s.skip(1))
    } else {
        spec_blocks(s, false)
    }
}

/// `Some(t)` becomes `Some(a + t)`; `None` stays `None`.
pub open spec fn opt_cat(a: Seq<u8>, o: Option<Seq<u8>>) -> Option<Seq<u8>> {
    match o {
        Option::Some(t) => Some(a + t),
        Option::None => None,
    }
}

/// Recovers the original payload bytes from one stuffed sequence, exactly as
/// [`spec_unstuff`] describes.
pub fn unstuff(src: &Vec<u8>) -> (r: Option<Vec<u8>>)
    ensures
        match r {
            Option::Some(out) => spec_unstuff(src@) == Some(out@),
            Option::None => spec_unstuff(src@) is None,
        },
{
    let len = src.len();
    let mut i: usize = 0;
    proof {
        assert(src@.skip(0) =~= src@);
    }
    while i < len && src[i] == 0
        invariant
            i <= len,
            len == src@.len(),
            spec_unstuff(src@) == spec_unstuff(src@.skip(i as int)),
        decreases len - i,
    {
        proof {
            assert(src@.skip(i as int).skip(1) =~= src@.skip(i as int + 1));
        }
        i = i + 1;
    }
    if i == len {
        return None;
    }
    let mut out: Vec<u8> = Vec::new();
    let mut lead: bool = false;
    proof {
        let s_i = src@.skip(i as int);
        assert(s_i[0] == src@[i as int]);
        match spec_blocks(s_i, false) {
            Option::Some(t) => {
                assert(out@ + t =~= t);
            },
            Option::None => {},
        }
    }
    while i < len
        invariant
            i <= len,
            len == src@.len(),
            spec_unstuff(src@) == opt_cat(out@, spec_blocks(src@.skip(i as int), lead)),
        decreases len - i,
    {
        let ghost s_i = src@.skip(i as int);
        let ghost out_pre = out@;
        proof {
            assert(s_i[0] == src@[i as int]);
        }
        let h = src[i];
        if h == 0 {
            proof {
                assert(out@ + Seq::<u8>::empty() =~= out@);
            }
            return Some(out);
        }
        let n: usize = if h == 255 {
            254
        } else {
            (h - 1) as usize
        };
        if len - i - 1 < n {
            return None;
        }
        if lead {
            out.push(0);
        }
        let ghost lead_seq: Seq<u8> = if lead {
            seq![0u8]
        } else {
            Seq::empty()
        };
        proof {
            assert(out@ =~= out_pre + lead_seq);
            assert(src@.subrange(i as int + 1, i as int + 1) =~= Seq::<u8>::empty());
            assert(out@ =~= out_pre + lead_seq + src@.subrange(i as int + 1, i as int + 1));
        }
        let mut j: usize = 0;
        while j < n
            invariant
                j <= n,
                i < len,
                i + 1 + n <= len,
                len == src@.len(),
                s_i == src@.skip(i as int),
                h == src@[i as int],
                h != 0,
                n == (if h == 255 {
                    254int
                } else {
                    h - 1
                }),
                spec_unstuff(src@) == opt_cat(out_pre, spec_blocks(src@.skip(i as int), lead)),
                out@ == out_pre + lead_seq + src@.subrange(i as int + 1, i as int + 1 + j as int),
                forall|k: int| i + 1 <= k < i + 1 + j ==> src@[k] != 0,
            decreases n - j,
        {
            let b = src[i + 1 + j];
            if b == 0 {
                proof {
                    assert(s_i[1 + j as int] == src@[i as int + 1 + j as int]);
                    assert(s_i[1 + j as int] == 0);
                    assert(spec_blocks(s_i, lead) is None);
                }
                return None;
            }
            proof {
                assert((out_pre + lead_seq + src@.subrange(i as int + 1, i as int + 1 + j as int))
                    .push(b) =~= out_pre + lead_seq + src@.subrange(
                    i as int + 1,
                    i as int + 1 + (j + 1) as int,
                ));
            }
            out.push(b);
            j = j + 1;
        }
        proof {
            let data = s_i.subrange(1, 1 + n as int);
            assert(forall|k: int| 1 <= k < 1 + n ==> s_i[k] == src@[i as int + k] && s_i[k] != 0);
            assert(data =~= src@.subrange(i as int + 1, i as int + 1 + n as int));
            assert(s_i.skip(1 + n as int) =~= src@.skip(i as int + 1 + n as int));
            match spec_blocks(src@.skip(i as int + 1 + n as int), h != 255) {
                Option::Some(tail) => {
                    assert(spec_blocks(s_i, lead) == Some(lead_seq + data + tail));
                    assert(out_pre + (lead_seq + data + tail) =~= out@ + tail);
                },
                Option::None => {
                    assert(spec_blocks(s_i, lead) is None);
                },
            }
        }
        lead = h != 255;
        i = i + 1 + n;
    }
    proof {
        assert(src@.skip(len as int) =~= Seq::<u8>::empty());
        assert(out@ + Seq::<u8>::empty() =~= out@);
    }
    Some(out)
}


// ---- the stuffing itself, and the round trip ----

/// The least index of a delimiter byte in `p`, or `p.len()` if there is
/// none.
pub open spec fn spec_first_zero(p: Seq<u8>) -> int
    decreases p.len(),
{
    if p.len() == 0 {
        0
    } else if p[0] == 0 {
        0
    } else {
        1 + spec_first_zero(p.skip(1))
    }
}

proof fn lemma_first_zero(p: Seq<u8>)
    ensures
        0 <= spec_first_zero(p) <= p.len(),
        spec_first_zero(p) < p.len() ==> p[spec_first_zero(p)] == 0,
        forall|k: int| 0 <= k < spec_first_zero(p) ==> p[k] != 0,
    decreases p.len(),
{
    if p.len() > 0 && p[0] != 0 {
        lemma_first_zero(p.skip(1));
        assert forall|k: int| 0 <= k < spec_first_zero(p) implies p[k] != 0 by {
            if k > 0 {
                assert(p.skip(1)[k - 1] == p[k]);
            }
        }
    }
}

/// The stuffed encoding of a payload: blocks split at each delimiter byte
/// and after each 254-byte delimiter-free run, every block led by its
/// overhead byte. This is what a sender emits for `p`, before the final
/// delimiter.
pub open spec fn spec_stuff(p: Seq<u8>) -> Seq<u8>
    decreases p.len(),
{
    let z = spec_first_zero(p);
    if 0 <= z && z < 254 && z < p.len() {
        seq![(z + 1) as u8] + p.take(z) + spec_stuff(p.skip(z + 1))
    } else if p.len() <= 254 {
        seq![(p.len() + 1) as u8] + p
    } else {
        seq![255u8] + p.take(254) + spec_stuff(p.skip(254))
    }
}

proof fn lemma_stuff_head(p: Seq<u8>)
    ensures
        spec_stuff(p).len() >= 1,
        spec_stuff(p)[0] != 0,
{
    lemma_first_zero(p);
}

proof fn lemma_blocks_stuff(p: Seq<u8>, lead_zero: bool)
    ensures
        spec_blocks(spec_stuff(p), lead_zero) == Some(
            (if lead_zero {
                seq![0u8]
            } else {
                Seq::<u8>::empty()
            }) + p,
        ),
    decreases p.len(),
{
    lemma_first_zero(p);
    let s = spec_stuff(p);
    let lead_seq: Seq<u8> = if lead_zero {
        seq![0u8]
    } else {
        Seq::empty()
    };
    let z = spec_first_zero(p);
    if 0 <= z && z < 254 && z < p.len() {
        let rest = spec_stuff(p.skip(z + 1));
        lemma_stuff_head(p.skip(z + 1));
        assert(s == seq![(z + 1) as u8] + p.take(z) + rest);
        assert(s[0] == (z + 1) as u8);
        assert(s.len() == 1 + z + rest.len());
        assert(forall|k: int| 1 <= k < 1 + z ==> s[k] == p.take(z)[k - 1]);
        assert(forall|k: int| 1 <= k < 1 + z ==> s[k] != 0);
        assert(s.skip(1 + z) =~= rest);
        assert(s.subrange(1, 1 + z) =~= p.take(z));
        lemma_blocks_stuff(p.skip(z + 1), true);
        assert(s.skip(1 + z)[0] == rest[0]);
        assert(spec_blocks(s, lead_zero) == Some(
            lead_seq + p.take(z) + (seq![0u8] + p.skip(z + 1)),
        ));
        assert(lead_seq + p.take(z) + (seq![0u8] + p.skip(z + 1)) =~= lead_seq + p);
    } else if p.len() <= 254 {
        assert(spec_first_zero(p) == p.len());
        assert(s == seq![(p.len() + 1) as u8] + p);
        assert(s[0] == (p.len() + 1) as u8);
        assert(s.len() == 1 + p.len());
        assert(forall|k: int| 1 <= k < 1 + p.len() ==> s[k] == p[k - 1]);
        assert(forall|k: int| 1 <= k < 1 + p.len() ==> s[k] != 0);
        assert(s.skip(1 + p.len() as int) =~= Seq::<u8>::empty());
        assert(s.subrange(1, 1 + p.len() as int) =~= p);
        let h = s[0] as int;
        let n: int = if h == 255 {
            254
        } else {
            h - 1
        };
        assert(n == p.len());
        assert(spec_blocks(s.skip(1 + n), h != 255) == Some(Seq::<u8>::empty()));
        assert(spec_blocks(s, lead_zero) == Some(lead_seq + p + Seq::<u8>::empty()));
        assert(lead_seq + p + Seq::<u8>::empty() =~= lead_seq + p);
    } else {
        let rest = spec_stuff(p.skip(254));
        lemma_stuff_head(p.skip(254));
        assert(s == seq![255u8] + p.take(254) + rest);
        assert(s[0] == 255u8);
        assert(s.len() == 1 + 254 + rest.len());
        assert(forall|k: int| 1 <= k < 255 ==> s[k] == p.take(254)[k - 1]);
        assert(forall|k: int| 1 <= k < 255 ==> s[k] != 0);
        assert(s.skip(255) =~= rest);
        assert(s.subrange(1, 255) =~= p.take(254));
        lemma_blocks_stuff(p.skip(254), false);
        assert(s.skip(255)[0] == rest[0]);
        assert(spec_blocks(s, lead_zero) == Some(lead_seq + p.take(254) + p.skip(254)));
        assert(lead_seq + p.take(254) + p.skip(254) =~= lead_seq + p);
    }
}

/// Unstuffing inverts the stuffing: the payload a sender framed is exactly
/// what the unframer recovers, for every payload.
pub proof fn lemma_unstuff_stuff(p: Seq<u8>)
    ensures
        spec_unstuff(spec_stuff(p)) == Some(p),
{
    lemma_stuff_head(p);
    lemma_blocks_stuff(p, false);
    assert(Seq::<u8>::empty() + p =~= p);
}

} // verus!
