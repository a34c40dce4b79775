//! Length framing: each frame is the payload's length as eight little-endian
//! bytes, then the payload. Control messages and log entries share it.
use vstd::prelude::*;
use vstd::slice::{slice_subrange, slice_to_vec};

verus! {

/// The eight little-endian bytes of `n`.
pub open spec fn le_bytes(n: u64) -> Seq<u8> {
    seq![
        (n & 0xff) as u8,
        ((n >> 8u64) & 0xff) as u8,
        ((n >> 16u64) & 0xff) as u8,
        ((n >> 24u64) & 0xff) as u8,
        ((n >> 32u64) & 0xff) as u8,
        ((n >> 40u64) & 0xff) as u8,
        ((n >> 48u64) & 0xff) as u8,
        ((n >> 56u64) & 0xff) as u8,
    ]
}

/// The number whose little-endian bytes are `b[0..8]`.
#[verifier::opaque]
pub open spec fn le_value(b: Seq<u8>) -> u64
    recommends
        b.len() >= 8,
{
    (b[0] as u64) | ((b[1] as u64) << 8u64) | ((b[2] as u64) << 16u64) | ((b[3] as u64)
        << 24u64) | ((b[4] as u64) << 32u64) | ((b[5] as u64) << 40u64) | ((b[6] as u64)
        << 48u64) | ((b[7] as u64) << 56u64)
}

/// Reading back the eight bytes of a number gives the number.
pub proof fn lemma_le_round_trip(n: u64)
    ensures
        le_value(le_bytes(n)) == n,
{
    reveal(le_value);
    let b = le_bytes(n);
    let (b0, b1, b2, b3, b4, b5, b6, b7) = (b[0], b[1], b[2], b[3], b[4], b[5], b[6], b[7]);
    assert(b0 == (n & 0xff) as u8 && b1 == ((n >> 8u64) & 0xff) as u8 && b2 == ((n >> 16u64)
        & 0xff) as u8 && b3 == ((n >> 24u64) & 0xff) as u8 && b4 == ((n >> 32u64) & 0xff) as u8
        && b5 == ((n >> 40u64) & 0xff) as u8 && b6 == ((n >> 48u64) & 0xff) as u8 && b7 == ((n
        >> 56u64) & 0xff) as u8);
    assert((b0 as u64) | ((b1 as u64) << 8u64) | ((b2 as u64) << 16u64) | ((b3 as u64)
        << 24u64) | ((b4 as u64) << 32u64) | ((b5 as u64) << 40u64) | ((b6 as u64) << 48u64)
        | ((b7 as u64) << 56u64) == n) by (bit_vector)
        requires
            b0 == (n & 0xff) as u8,
            b1 == ((n >> 8u64) & 0xff) as u8,
            b2 == ((n >> 16u64) & 0xff) as u8,
            b3 == ((n >> 24u64) & 0xff) as u8,
            b4 == ((n >> 32u64) & 0xff) as u8,
            b5 == ((n >> 40u64) & 0xff) as u8,
            b6 == ((n >> 48u64) & 0xff) as u8,
            b7 == ((n >> 56u64) & 0xff) as u8,
    ;
}

/// One frame holding `p`.
pub open spec fn frame_of(p: Seq<u8>) -> Seq<u8> {
    le_bytes(p.len() as u64) + p
}

/// The frames holding `ps`, one after another.
pub open spec fn frames_of(ps: Seq<Seq<u8>>) -> Seq<u8>
    decreases ps.len(),
{
    if ps.len() == 0 {
        Seq::empty()
    } else {
        frame_of(ps[0]) + frames_of(ps.drop_first())
    }
}

/// The payloads of a run of frames, or `None` where a header or a payload is
/// cut short.
pub open spec fn parse_frames(data: Seq<u8>) -> Option<Seq<Seq<u8>>>
    decreases data.len(),
{
    if data.len() == 0 {
        Some(Seq::empty())
    } else if data.len() < 8 {
        None
    } else {
        let n = le_value(data) as int;
        if n > data.len() - 8 {
            None
        } else {
            match parse_frames(data.subrange(8 + n, data.len() as int)) {
                Some(rest) => Some(seq![data.subrange(8, 8 + n)] + rest),
                None => None,
            }
        }
    }
}

/// The contents of each buffer.
pub open spec fn views(ps: Seq<Vec<u8>>) -> Seq<Seq<u8>> {
    ps.map_values(|p: Vec<u8>| p@)
}

/// Reading back a run of frames gives the payloads that were framed.
pub proof fn lemma_frames_round_trip(ps: Seq<Seq<u8>>)
    requires
        forall|i: int| 0 <= i < ps.len() ==> #[trigger] ps[i].len() <= u64::MAX,
    ensures
        parse_frames(frames_of(ps)) == Some(ps),
    decreases ps.len(),
{
    if ps.len() > 0 {
        let p = ps[0];
        let rest = ps.drop_first();
        let data = frames_of(ps);
        assert forall|i: int| 0 <= i < rest.len() implies #[trigger] rest[i].len() <= u64::MAX by {
            assert(rest[i] == ps[i + 1]);
        }
        lemma_frames_round_trip(rest);
        lemma_le_round_trip(p.len() as u64);
        let h = le_bytes(p.len() as u64);
        assert(data == h + p + frames_of(rest));
        assert(data[0] == h[0] && data[1] == h[1] && data[2] == h[2] && data[3] == h[3]);
        assert(data[4] == h[4] && data[5] == h[5] && data[6] == h[6] && data[7] == h[7]);
        assert(le_value(data) == le_value(h)) by {
            reveal(le_value);
        }
        assert(data.subrange(8, 8 + p.len() as int) == p);
        assert(data.subrange(8 + p.len() as int, data.len() as int) == frames_of(rest));
        assert(seq![p] + rest == ps);
    } else {
        assert(frames_of(ps) == Seq::<u8>::empty());
    }
}

/// Why bytes could not be read as frames.
#[derive(Debug, Clone, Copy, PartialEq, Eq)]
pub enum FrameError {
    /// Fewer than eight bytes where a length was due.
    TruncatedLength,
    /// Fewer payload bytes than the length announced.
    TruncatedPayload,
    /// A payload longer than the reader accepts.
    Oversized,
}

/// The eight little-endian bytes of `n`.
pub fn u64_to_le(n: u64) -> (r: Vec<u8>)
    ensures
        r@ == le_bytes(n),
{
    let r = vec![
        (n & 0xff) as u8,
        ((n >> 8u64) & 0xff) as u8,
        ((n >> 16u64) & 0xff) as u8,
        ((n >> 24u64) & 0xff) as u8,
        ((n >> 32u64) & 0xff) as u8,
        ((n >> 40u64) & 0xff) as u8,
        ((n >> 48u64) & 0xff) as u8,
        ((n >> 56u64) & 0xff) as u8,
    ];
    assert(r@ == le_bytes(n));
    r
}

/// The number whose little-endian bytes are `b[at..at + 8]`.
pub fn u64_from_le(b: &[u8], at: usize) -> (r: u64)
    requires
        at + 8 <= b@.len(),
    ensures
        r == le_value(b@.subrange(at as int, at + 8)),
{
    reveal(le_value);
    (b[at] as u64) | ((b[at + 1] as u64) << 8u64) | ((b[at + 2] as u64) << 16u64) | ((b[at
        + 3] as u64) << 24u64) | ((b[at + 4] as u64) << 32u64) | ((b[at + 5] as u64) << 40u64)
        | ((b[at + 6] as u64) << 48u64) | ((b[at + 7] as u64) << 56u64)
}

/// Wraps a payload in one frame.
pub fn encode_frame(payload: &[u8]) -> (r: Vec<u8>)
    ensures
        r@ == frame_of(payload@),
{
    let mut r = u64_to_le(payload.len() as u64);
    let mut i: usize = 0;
    while i < payload.len()
        invariant
            i <= payload@.len(),
            r@ == le_bytes(payload@.len() as u64) + payload@.subrange(0, i as int),
        decreases payload@.len() - i,
    {
        r.push(payload[i]);
        assert(payload@.subrange(0, i + 1) == payload@.subrange(0, i as int).push(payload@[i as int]));
        i = i + 1;
    }
    assert(payload@.subrange(0, payload@.len() as int) == payload@);
    r
}

/// The payload length that a frame header announces, checked against the
/// largest payload the reader accepts.
pub fn frame_length(header: &[u8], max_len: u64) -> (r: Result<u64, FrameError>)
    ensures
        header@.len() < 8 ==> r == Err::<u64, FrameError>(FrameError::TruncatedLength),
        header@.len() >= 8 ==> {
            let n = le_value(header@);
            &&& n <= max_len ==> r == Ok::<u64, FrameError>(n)
            &&& n > max_len ==> r == Err::<u64, FrameError>(FrameError::Oversized)
        },
{
    if header.len() < 8 {
        return Err(FrameError::TruncatedLength);
    }
    let n = u64_from_le(header, 0);
    assert(header@.subrange(0, 8) =~= header@.subrange(0, 8));
    assert(le_value(header@.subrange(0, 8)) == le_value(header@)) by {
        reveal(le_value);
    }
    if n > max_len {
        Err(FrameError::Oversized)
    } else {
        Ok(n)
    }
}

/// Splits a run of frames into their payloads.
pub fn decode_frames(data: &[u8]) -> (r: Result<Vec<Vec<u8>>, FrameError>)
    ensures
        match r {
            Ok(ps) => parse_frames(data@) == Some(views(ps@)),
            Err(_) => parse_frames(data@) is None,
        },
{
    let mut out: Vec<Vec<u8>> = Vec::new();
    let mut at: usize = 0;
    assert(data@.subrange(0, data@.len() as int) == data@);
    assert(views(out@) == Seq::<Seq<u8>>::empty());
    proof {
        match parse_frames(data@) {
            Some(all) => {
                assert(Seq::<Seq<u8>>::empty() + all == all);
            },
            None => {},
        }
    }
    while at < data.len()
        invariant
            at <= data@.len(),
            parse_frames(data@) == match parse_frames(data@.subrange(at as int, data@.len() as int)) {
                Some(rest) => Some(views(out@) + rest),
                None => None::<Seq<Seq<u8>>>,
            },
        decreases data@.len() - at,
    {
        let ghost rest = data@.subrange(at as int, data@.len() as int);
        if data.len() - at < 8 {
            return Err(FrameError::TruncatedLength);
        }
        let n = u64_from_le(data, at);
        assert(rest.subrange(0, 8) == data@.subrange(at as int, at + 8));
        assert(le_value(rest) == le_value(rest.subrange(0, 8))) by {
            reveal(le_value);
        }
        if n > (data.len() - at - 8) as u64 {
            return Err(FrameError::TruncatedPayload);
        }
        let end = at + 8 + n as usize;
        let payload = slice_to_vec(slice_subrange(data, at + 8, end));
        proof {
            assert(rest.subrange(8, 8 + n) == payload@);
            assert(rest.subrange(8 + n, rest.len() as int) == data@.subrange(end as int, data@.len() as int));
            let tail = data@.subrange(end as int, data@.len() as int);
            let old_out = views(out@);
            match parse_frames(tail) {
                Some(t) => {
                    assert(old_out + (seq![payload@] + t) == old_out.push(payload@) + t);
                },
                None => {},
            }
        }
        let ghost before = out@;
        out.push(payload);
        assert(views(out@) =~= views(before).push(payload@));
        at = end;
    }
    assert(data@.subrange(at as int, data@.len() as int) == Seq::<u8>::empty());
    assert(views(out@) + Seq::<Seq<u8>>::empty() == views(out@));
    Ok(out)
}

} // verus!
