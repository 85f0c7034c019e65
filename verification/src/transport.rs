//! Wire transport: length-prefixed record frames.
//!
//! Every record on the socket is framed as a 32-bit big-endian length and the
//! payload, so both sides can re-synchronize record boundaries reliably. The
//! maximum frame size bounds memory use against a hostile peer.

use vstd::prelude::*;

use crate::bytes::{be32, copy_range, law_big_endian, lemma_be32_round_trip, push_u32, u32_at};

verus! {

/// Largest payload of a frame: the largest IP packet and some overhead.
pub const MAX_FRAME_LEN: u32 = 70_000;

/// Why a frame could not be written or read.
#[derive(Debug, Clone, Copy, PartialEq, Eq, Structural)]
pub enum FrameError {
    /// The socket failed at a frame boundary; its owner holds the error.
    Io,
    /// Peer announced a frame larger than we accept.
    TooLarge(u32),
    /// Socket closed mid-frame.
    ClosedMidFrame,
}

/// A frame on the wire.
pub open spec fn frame_of(payload: Seq<u8>) -> Seq<u8> {
    be32(payload.len() as int) + payload
}

/// The error that a payload of this length is refused with, if it is.
pub open spec fn write_error(len: int) -> Option<FrameError> {
    if len > u32::MAX {
        Some(FrameError::TooLarge(u32::MAX))
    } else if len > MAX_FRAME_LEN {
        Some(FrameError::TooLarge(len as u32))
    } else {
        None
    }
}

/// Appends one framed record: 4-byte big-endian length prefix, then payload.
pub fn write_frame(out: &mut Vec<u8>, payload: &[u8]) -> (r: Result<(), FrameError>)
    ensures
        match write_error(payload@.len() as int) {
            None => r == Ok::<(), FrameError>(()) && final(out)@ == old(out)@ + frame_of(payload@),
            Some(e) => r == Err::<(), _>(e) && final(out)@ == old(out)@,
        },
{
    if payload.len() as u64 > u32::MAX as u64 {
        return Err(FrameError::TooLarge(u32::MAX));
    }
    let len = payload.len() as u32;
    if len > MAX_FRAME_LEN {
        return Err(FrameError::TooLarge(len));
    }
    push_u32(out, len);
    out.extend_from_slice(payload);
    assert(out@ =~= old(out)@ + frame_of(payload@));
    Ok(())
}

// ---------------------------------------------------------------------------
// Reading, step by step
// ---------------------------------------------------------------------------

/// What came of reading a 4-byte length prefix.
#[derive(Debug, Clone, Copy, PartialEq, Eq)]
pub enum PrefixRead {
    /// All four bytes.
    Complete([u8; 4]),
    /// The stream ended after this many bytes, fewer than four.
    Ended(usize),
    /// The stream failed.
    Failed,
}

/// What a prefix announces: a payload length, or nothing at a clean end of the
/// stream.
pub open spec fn announced(read: PrefixRead) -> Result<Option<u32>, FrameError> {
    match read {
        PrefixRead::Failed => Err(FrameError::Io),
        PrefixRead::Ended(n) => if n == 0 {
            Ok(None)
        } else {
            Err(FrameError::ClosedMidFrame)
        },
        PrefixRead::Complete(b) => if u32_at(b@, 0) > MAX_FRAME_LEN {
            Err(FrameError::TooLarge(u32_at(b@, 0) as u32))
        } else {
            Ok(Some(u32_at(b@, 0) as u32))
        },
    }
}

/// Decides on a length prefix.
pub fn frame_prefix(read: PrefixRead) -> (r: Result<Option<u32>, FrameError>)
    ensures
        r == announced(read),
{
    match read {
        PrefixRead::Failed => Err(FrameError::Io),
        PrefixRead::Ended(n) => if n == 0 {
            Ok(None)
        } else {
            Err(FrameError::ClosedMidFrame)
        },
        PrefixRead::Complete(b) => {
            let len: u32 = (b[0] as u32 * 256 + b[1] as u32) * 0x1_0000 + (b[2] as u32 * 256
                + b[3] as u32);
            if len > MAX_FRAME_LEN {
                Err(FrameError::TooLarge(len))
            } else {
                Ok(Some(len))
            }
        },
    }
}

/// Decides on the payload of a frame: whatever cut it short, the frame is
/// incomplete.
pub fn frame_payload(announced: u32, payload: Vec<u8>) -> (r: Result<Vec<u8>, FrameError>)
    ensures
        payload@.len() >= announced ==> r is Ok && r->Ok_0@ == payload@.take(announced as int),
        payload@.len() < announced ==> r == Err::<Vec<u8>, _>(FrameError::ClosedMidFrame),
{
    if (payload.len() as u64) < announced as u64 {
        return Err(FrameError::ClosedMidFrame);
    }
    let r = copy_range(&payload, 0, announced as usize);
    assert(r@ =~= payload@.take(announced as int));
    Ok(r)
}

// ---------------------------------------------------------------------------
// Reading from memory
// ---------------------------------------------------------------------------

/// A stream held in memory, read from the front.
pub struct FrameCursor {
    data: Vec<u8>,
    pos: usize,
}

impl FrameCursor {
    #[verifier::type_invariant]
    spec fn inv(&self) -> bool {
        self.pos <= self.data@.len()
    }

    /// The bytes not read yet.
    pub closed spec fn rest(&self) -> Seq<u8> {
        self.data@.skip(self.pos as int)
    }

    /// A cursor at the start of `data`.
    pub fn new(data: Vec<u8>) -> (r: FrameCursor)
        ensures
            r.rest() == data@,
    {
        let r = FrameCursor { data, pos: 0 };
        assert(r.rest() =~= data@);
        r
    }
}

/// The outcome of reading one frame off the front of a stream, and what is left
/// of the stream. A stream that ends inside a frame is used up.
pub open spec fn frame_read(s: Seq<u8>) -> (Result<Option<Seq<u8>>, FrameError>, Seq<u8>) {
    if s.len() == 0 {
        (Ok(None), s)
    } else if s.len() < 4 {
        (Err(FrameError::ClosedMidFrame), Seq::empty())
    } else if u32_at(s, 0) > MAX_FRAME_LEN {
        (Err(FrameError::TooLarge(u32_at(s, 0) as u32)), s.skip(4))
    } else if s.len() < 4 + u32_at(s, 0) {
        (Err(FrameError::ClosedMidFrame), Seq::empty())
    } else {
        let n = u32_at(s, 0);
        (Ok(Some(s.subrange(4, 4 + n))), s.skip(4 + n))
    }
}

/// Reads one framed record. Returns Ok(None) on a clean end of the stream at a
/// frame boundary.
pub fn read_frame(r: &mut FrameCursor) -> (out: Result<Option<Vec<u8>>, FrameError>)
    ensures
        final(r).rest() == frame_read(old(r).rest()).1,
        match out {
            Ok(Some(v)) => frame_read(old(r).rest()).0 == Ok::<_, FrameError>(Some(v@)),
            Ok(None) => frame_read(old(r).rest()).0 == Ok::<Option<Seq<u8>>, FrameError>(None),
            Err(e) => frame_read(old(r).rest()).0 == Err::<Option<Seq<u8>>, _>(e),
        },
{
    proof {
        use_type_invariant(&*r);
    }
    let ghost s = r.rest();
    let start: usize = r.pos;
    let left: usize = r.data.len() - start;
    let prefix = if left < 4 {
        r.pos = r.data.len();
        PrefixRead::Ended(left)
    } else {
        r.pos = start + 4;
        let b = [r.data[start], r.data[start + 1], r.data[start + 2], r.data[start + 3]];
        assert(u32_at(b@, 0) == u32_at(s, 0));
        PrefixRead::Complete(b)
    };
    let ghost after_prefix = r.rest();
    assert(left < 4 ==> after_prefix =~= Seq::empty());
    assert(left >= 4 ==> after_prefix =~= s.skip(4));
    assert(left == 0 ==> s =~= Seq::empty());
    match frame_prefix(prefix)? {
        None => Ok(None),
        Some(len) => {
            let here: usize = r.pos;
            let end: usize = if ((r.data.len() - here) as u64) < len as u64 {
                r.data.len()
            } else {
                here + len as usize
            };
            let taken = copy_range(&r.data, here, end);
            r.pos = end;
            let payload = frame_payload(len, taken);
            proof {
                if s.len() < 4 + len {
                    assert(r.rest() =~= Seq::empty());
                } else {
                    assert(taken@.take(len as int) =~= s.subrange(4, 4 + len as int));
                    assert(r.rest() =~= s.skip(4 + len as int));
                }
            }
            Ok(Some(payload?))
        },
    }
}

// ---------------------------------------------------------------------------
// Laws
// ---------------------------------------------------------------------------

/// Law: a written frame reads back to its payload and leaves what follows it,
/// so any sequence of frames reads back in order.
pub proof fn law_frame_round_trip(payload: Seq<u8>, rest: Seq<u8>)
    requires
        write_error(payload.len() as int) is None,
    ensures
        frame_read(frame_of(payload) + rest) == (
            Ok::<_, FrameError>(Some(payload)),
            rest,
        ),
{
    let n = payload.len() as int;
    let p = be32(n);
    let s = frame_of(payload) + rest;
    lemma_be32_round_trip(n);
    assert(s[0] == p[0] && s[1] == p[1] && s[2] == p[2] && s[3] == p[3]);
    assert(u32_at(s, 0) == u32_at(p, 0));
    assert(s.subrange(4, 4 + n) =~= payload);
    assert(s.skip(4 + n) =~= rest);
}

/// Law: a stream cut off anywhere inside a frame is reported as such; only a
/// stream cut at the boundary ends cleanly.
pub proof fn law_cut_frame_is_detected(payload: Seq<u8>, cut: int)
    requires
        write_error(payload.len() as int) is None,
        0 <= cut < frame_of(payload).len(),
    ensures
        frame_read(frame_of(payload).take(cut)).0 == (if cut == 0 {
            Ok::<Option<Seq<u8>>, FrameError>(None)
        } else {
            Err(FrameError::ClosedMidFrame)
        }),
{
    let n = payload.len() as int;
    let p = be32(n);
    let s = frame_of(payload).take(cut);
    lemma_be32_round_trip(n);
    if cut >= 4 {
        assert(s[0] == p[0] && s[1] == p[1] && s[2] == p[2] && s[3] == p[3]);
        assert(u32_at(s, 0) == u32_at(p, 0));
    }
}

/// Law: a frame is four bytes of length, high byte first, and the payload; it is
/// written exactly for payloads of up to 70000 bytes, and a longer one is refused
/// with its length, as far as the length fits 32 bits.
pub proof fn law_frame_layout(payload: Seq<u8>)
    ensures
        payload.len() <= 0xFFFF_FFFF ==> ({
            let f = frame_of(payload);
            &&& f.len() == 4 + payload.len()
            &&& f[0] * 0x100_0000 + f[1] * 0x1_0000 + f[2] * 0x100 + f[3] == payload.len()
            &&& f.skip(4) == payload
        }),
        write_error(payload.len() as int) is None <==> payload.len() <= 70_000,
        70_000 < payload.len() <= 0xFFFF_FFFF ==> write_error(payload.len() as int) == Some(
            FrameError::TooLarge(payload.len() as u32),
        ),
        payload.len() > 0xFFFF_FFFF ==> write_error(payload.len() as int) == Some(
            FrameError::TooLarge(0xFFFF_FFFF),
        ),
{
    let f = frame_of(payload);
    let n = payload.len() as int;
    let p = be32(n);
    law_big_endian(n);
    assert(f[0] == p[0] && f[1] == p[1] && f[2] == p[2] && f[3] == p[3]);
    assert(f.skip(4) =~= payload);
}

/// Law: what a stream gives is decided by its first four bytes: a length over
/// 70000 is refused as such, a stream shorter than its frame is cut off inside
/// it, one with fewer than four bytes too unless it is empty, and any other
/// gives as many bytes as the length says and leaves the rest.
pub proof fn law_stream_is_framed(s: Seq<u8>)
    ensures
        s.len() == 0 ==> frame_read(s) == (Ok::<Option<Seq<u8>>, FrameError>(None), s),
        0 < s.len() < 4 ==> frame_read(s).0 == Err::<Option<Seq<u8>>, _>(
            FrameError::ClosedMidFrame,
        ),
        s.len() >= 4 ==> {
            let n = s[0] * 0x100_0000 + s[1] * 0x1_0000 + s[2] * 0x100 + s[3];
            &&& n > 70_000 ==> frame_read(s).0 == Err::<Option<Seq<u8>>, _>(
                FrameError::TooLarge(n as u32),
            )
            &&& n <= 70_000 && s.len() < 4 + n ==> frame_read(s).0 == Err::<Option<Seq<u8>>, _>(
                FrameError::ClosedMidFrame,
            )
            &&& n <= 70_000 && s.len() >= 4 + n ==> frame_read(s) == (
                Ok::<_, FrameError>(Some(s.subrange(4, 4 + n))),
                s.subrange(4 + n, s.len() as int),
            )
        },
{
    if s.len() >= 4 {
        let n = s[0] * 0x100_0000 + s[1] * 0x1_0000 + s[2] * 0x100 + s[3];
        if s.len() >= 4 + n {
            assert(s.skip(4 + n) =~= s.subrange(4 + n, s.len() as int));
        }
    }
}

/// Law: what a length prefix announces when the stream is read step by step:
/// nothing at a clean end, an incomplete frame when it ends inside the prefix, a
/// failure when the stream fails, and otherwise the length in the four bytes,
/// unless it is over 70000.
pub proof fn law_prefix_announces(b: [u8; 4], n: usize)
    ensures
        announced(PrefixRead::Failed) == Err::<Option<u32>, _>(FrameError::Io),
        announced(PrefixRead::Ended(0)) == Ok::<Option<u32>, FrameError>(None),
        n > 0 ==> announced(PrefixRead::Ended(n)) == Err::<Option<u32>, _>(
            FrameError::ClosedMidFrame,
        ),
        ({
            let len = b@[0] * 0x100_0000 + b@[1] * 0x1_0000 + b@[2] * 0x100 + b@[3];
            &&& len <= 70_000 ==> announced(PrefixRead::Complete(b)) == Ok::<_, FrameError>(
                Some(len as u32),
            )
            &&& len > 70_000 ==> announced(PrefixRead::Complete(b)) == Err::<Option<u32>, _>(
                FrameError::TooLarge(len as u32),
            )
        }),
{
}

} // verus!
