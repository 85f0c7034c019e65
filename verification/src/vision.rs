//! XTLS Vision padding framing.
//!
//! A padding frame is `[uuid 16, first frame only][command 1][content len 2 BE]
//! [padding len 2 BE][content][padding]`, with commands 0 = continue, 1 = end
//! and 2 = direct. Padding lengths are random and capped so that a frame fits
//! one buffer. Once a direction has emitted END it stops padding, and both
//! sides copy bytes through unchanged.

use vstd::prelude::*;

use crate::bytes::{be16, bytes_eq, copy_range, copy_slice, push_u16, u16_at, zeros};
use crate::crypto::random_u64;
use crate::vless::VlessError;

verus! {

/// Padding command: another frame follows.
pub const PADDING_CONTINUE: u8 = 0x00;

/// Padding command: the padding phase ends with this frame.
pub const PADDING_END: u8 = 0x01;

/// Padding command: switch to direct copy.
pub const PADDING_DIRECT: u8 = 0x02;

/// The buffer size (2 KiB) that bounds every padding frame.
pub const BUF_SIZE: usize = 2048;

/// The largest frame body: the 16-byte identity and the 5-byte frame header
/// must fit beside content and padding.
pub const MAX_FRAME_BODY: usize = BUF_SIZE - 21;

/// Padding parameters: content shorter than the first value may get long
/// padding, drawn as (0 up to the second value) plus the third value less the
/// content; other padding is drawn below the fourth.
pub const TESTSEED: [u32; 4] = [900, 500, 900, 256];

// ---------------------------------------------------------------------------
// Writing
// ---------------------------------------------------------------------------

/// The padding length of a frame for a random draw.
pub open spec fn padding_for(draw: u64, content_len: int, long: bool) -> int {
    let wanted = if content_len < TESTSEED@[0] && long {
        draw as int % TESTSEED@[1] as int + TESTSEED@[2] - content_len
    } else {
        draw as int % TESTSEED@[3] as int
    };
    if wanted > MAX_FRAME_BODY - content_len {
        MAX_FRAME_BODY - content_len
    } else {
        wanted
    }
}

/// The identity prefix of a frame.
pub open spec fn prefix_bytes(uuid: Option<Seq<u8>>) -> Seq<u8> {
    match uuid {
        Some(u) => u,
        None => Seq::empty(),
    }
}

/// One padding frame without its identity prefix.
pub open spec fn frame_bytes(content: Seq<u8>, command: u8, padding: int) -> Seq<u8> {
    seq![command] + be16(content.len() as int) + be16(padding) + content + zeros(padding)
}

/// The number of frames a payload is cut into.
pub open spec fn frame_count(len: int) -> int
    decreases len,
{
    if len <= MAX_FRAME_BODY {
        1
    } else {
        1 + frame_count(len - MAX_FRAME_BODY)
    }
}

/// The frames of a payload, without the identity prefix, for a sequence of
/// random draws. Every frame but the last is full and continues; the last one
/// ends the padding phase when `end` is set.
pub open spec fn frames_of(payload: Seq<u8>, long: bool, end: bool, draws: Seq<u64>) -> Seq<u8>
    decreases payload.len(),
{
    if payload.len() <= MAX_FRAME_BODY {
        frame_bytes(
            payload,
            if end {
                PADDING_END
            } else {
                PADDING_CONTINUE
            },
            padding_for(draws[0], payload.len() as int, long),
        )
    } else {
        frame_bytes(
            payload.take(MAX_FRAME_BODY as int),
            PADDING_CONTINUE,
            padding_for(draws[0], MAX_FRAME_BODY as int, long),
        ) + frames_of(payload.skip(MAX_FRAME_BODY as int), long, end, draws.skip(1))
    }
}

/// The state of a writer: the identity still to be written, and whether the
/// direction still pads.
#[verifier::ext_equal]
pub struct WriterView {
    pub uuid: Option<Seq<u8>>,
    pub is_padding: bool,
}

/// What a writer emits for a payload.
pub open spec fn padded(
    w: WriterView,
    payload: Seq<u8>,
    long: bool,
    end: bool,
    draws: Seq<u64>,
) -> Seq<u8> {
    if w.is_padding {
        prefix_bytes(w.uuid) + frames_of(payload, long, end, draws)
    } else {
        payload
    }
}

/// The state of a writer after a payload.
pub open spec fn after_pad(w: WriterView, end: bool) -> WriterView {
    if w.is_padding {
        WriterView { uuid: None, is_padding: !end }
    } else {
        w
    }
}

/// Write-side state for one Vision direction. The identity prefix rides only on
/// the first padding frame of the stream. Once the direction emits END, later
/// payloads are copied unpadded.
pub struct VisionWriter {
    uuid: Option<[u8; 16]>,
    is_padding: bool,
}

impl View for VisionWriter {
    type V = WriterView;

    closed spec fn view(&self) -> WriterView {
        WriterView {
            uuid: match self.uuid {
                Some(u) => Some(u@),
                None => None,
            },
            is_padding: self.is_padding,
        }
    }
}

/// One frame for a given draw, behind its identity prefix.
fn xtls_padding(
    content: &[u8],
    command: u8,
    uuid: Option<[u8; 16]>,
    long_padding: bool,
    draw: u64,
) -> (r: Vec<u8>)
    requires
        content@.len() <= MAX_FRAME_BODY,
    ensures
        r@ == (match uuid {
            Some(u) => u@,
            None => Seq::empty(),
        }) + frame_bytes(
            content@,
            command,
            padding_for(draw, content@.len() as int, long_padding),
        ),
{
    let content_len: usize = content.len();
    let mut padding_len: usize = if content_len < TESTSEED[0] as usize && long_padding {
        (draw % TESTSEED[1] as u64) as usize + TESTSEED[2] as usize - content_len
    } else {
        (draw % TESTSEED[3] as u64) as usize
    };
    if padding_len > MAX_FRAME_BODY - content_len {
        padding_len = MAX_FRAME_BODY - content_len;
    }
    let mut out: Vec<u8> = Vec::new();
    if let Some(u) = uuid {
        out.extend_from_slice(&u);
    }
    out.push(command);
    push_u16(&mut out, content_len as u16);
    push_u16(&mut out, padding_len as u16);
    out.extend_from_slice(content);
    let fill: Vec<u8> = vec![0u8; padding_len];
    assert(fill@ =~= zeros(padding_len as int));
    out.extend_from_slice(&fill);
    assert(out@ =~= (match uuid {
        Some(u) => u@,
        None => Seq::empty(),
    }) + frame_bytes(content@, command, padding_len as int));
    out
}

proof fn lemma_frame_count_positive(len: int)
    ensures
        frame_count(len) >= 1,
    decreases len,
{
    if len > MAX_FRAME_BODY {
        lemma_frame_count_positive(len - MAX_FRAME_BODY);
    }
}

/// The number of frames a payload of this length is cut into.
pub fn frames_needed(len: usize) -> (r: usize)
    ensures
        r == frame_count(len as int),
        r <= len + 1,
{
    let mut rest: usize = len;
    let mut n: usize = 0;
    while rest > MAX_FRAME_BODY
        invariant
            n + frame_count(rest as int) == frame_count(len as int),
            n + rest <= len,
            n == 0 || rest >= 1,
        decreases rest,
    {
        rest -= MAX_FRAME_BODY;
        n += 1;
    }
    n + 1
}

impl VisionWriter {
    /// A writer at the start of its stream.
    pub fn new(uuid: [u8; 16]) -> (r: VisionWriter)
        ensures
            r@ == (WriterView { uuid: Some(uuid@), is_padding: true }),
    {
        VisionWriter { uuid: Some(uuid), is_padding: true }
    }

    /// Whether subsequent `pad` calls still carry padding framing.
    pub fn is_padding(&self) -> (r: bool)
        ensures
            r == self@.is_padding,
    {
        self.is_padding
    }

    /// Wraps one payload into padding frames with fresh random padding. Large
    /// payloads are cut into bounded frames. `long_padding` applies the
    /// header-hiding long padding; `force_end` ends the padding phase with the
    /// final frame, after which the direction copies payloads through.
    pub fn pad(&mut self, payload: &[u8], long_padding: bool, force_end: bool) -> (r: Vec<u8>)
        ensures
            exists|draws: Seq<u64>|
                draws.len() == frame_count(payload@.len() as int) && r@ == #[trigger] padded(
                    old(self)@,
                    payload@,
                    long_padding,
                    force_end,
                    draws,
                ),
            final(self)@ == after_pad(old(self)@, force_end),
    {
        let count: usize = frames_needed(payload.len());
        let mut draws: Vec<u64> = Vec::new();
        while draws.len() < count
            invariant
                draws@.len() <= count,
            decreases count - draws@.len(),
        {
            draws.push(random_u64());
        }
        self.pad_with(payload, long_padding, force_end, &draws)
    }

    /// Wraps one payload with given random draws, one for each frame.
    pub fn pad_with(
        &mut self,
        payload: &[u8],
        long_padding: bool,
        force_end: bool,
        draws: &[u64],
    ) -> (r: Vec<u8>)
        requires
            draws@.len() >= frame_count(payload@.len() as int),
        ensures
            r@ == padded(old(self)@, payload@, long_padding, force_end, draws@),
            final(self)@ == after_pad(old(self)@, force_end),
    {
        if !self.is_padding {
            return copy_slice(payload);
        }
        let mut uuid = self.uuid;
        self.uuid = None;
        let mut out: Vec<u8> = Vec::new();
        let mut at: usize = 0;
        let mut k: usize = 0;
        let ghost whole = prefix_bytes(old(self)@.uuid) + frames_of(
            payload@,
            long_padding,
            force_end,
            draws@,
        );
        assert(payload@.skip(0) =~= payload@);
        assert(draws@.skip(0) =~= draws@);
        while payload.len() - at > MAX_FRAME_BODY
            invariant
                at <= payload@.len(),
                k <= draws@.len(),
                draws@.len() - k >= frame_count(payload@.len() - at),
                whole =~= out@ + prefix_bytes(
                    match uuid {
                        Some(u) => Some(u@),
                        None => None,
                    },
                ) + frames_of(payload@.skip(at as int), long_padding, force_end, draws@.skip(k as int)),
            decreases payload@.len() - at,
        {
            let ghost rest = payload@.skip(at as int);
            let ghost left = draws@.skip(k as int);
            proof {
                lemma_frame_count_positive(rest.len() - MAX_FRAME_BODY);
            }
            let content = copy_range(payload, at, at + MAX_FRAME_BODY);
            let frame = xtls_padding(&content, PADDING_CONTINUE, uuid, long_padding, draws[k]);
            assert(content@ =~= rest.take(MAX_FRAME_BODY as int));
            out.extend_from_slice(&frame);
            uuid = None;
            at += MAX_FRAME_BODY;
            k += 1;
            assert(payload@.skip(at as int) =~= rest.skip(MAX_FRAME_BODY as int));
            assert(draws@.skip(k as int) =~= left.skip(1));
        }
        let content = copy_range(payload, at, payload.len());
        assert(content@ =~= payload@.skip(at as int));
        let command: u8 = if force_end {
            PADDING_END
        } else {
            PADDING_CONTINUE
        };
        let frame = xtls_padding(&content, command, uuid, long_padding, draws[k]);
        out.extend_from_slice(&frame);
        assert(out@ =~= whole);
        if force_end {
            self.is_padding = false;
        }
        out
    }
}

// ---------------------------------------------------------------------------
// Reading
// ---------------------------------------------------------------------------

/// Where a reader stands in the stream.
#[derive(Debug, Clone, Copy, PartialEq, Eq, Structural)]
pub enum UnpadState {
    /// Nothing of a padding stream seen yet: a buffer that carries the identity
    /// prefix starts one, a short one passes through untouched.
    Initial,
    /// Reading the 5-byte frame header (command, content len, padding len).
    Header,
    /// Draining declared content bytes.
    Content { remaining: u32 },
    /// Skipping declared padding bytes.
    Padding { remaining: u32 },
    /// Padding ended: raw passthrough.
    Direct,
}

/// The state of a reader.
#[verifier::ext_equal]
pub struct ReaderView {
    pub state: UnpadState,
    pub command: u8,
    pub uuid: Seq<u8>,
    /// The bytes of the frame header, of which the first `fill` are fresh.
    pub header: Seq<u8>,
    pub fill: int,
    pub within: bool,
    pub first: bool,
}

impl ReaderView {
    /// Counters stay in range, and a partial frame header is held only while
    /// one is being read.
    pub open spec fn wf(self) -> bool {
        &&& self.header.len() == 5
        &&& self.uuid.len() == 16
        &&& 0 <= self.fill < 5
        &&& self.state !is Header ==> self.fill == 0
        &&& (self.state matches UnpadState::Content { remaining } ==> remaining > 0)
        &&& (self.state matches UnpadState::Padding { remaining } ==> remaining > 0)
    }
}

/// One frame finished: the command decides what comes next.
pub open spec fn frame_done(v: ReaderView) -> Result<ReaderView, VlessError> {
    if v.command == PADDING_CONTINUE {
        Ok(ReaderView { state: UnpadState::Header, ..v })
    } else if v.command == PADDING_END || v.command == PADDING_DIRECT {
        Ok(ReaderView { state: UnpadState::Direct, within: false, ..v })
    } else {
        Err(VlessError::BadFrame)
    }
}

/// A frame header has been read: what comes next.
pub open spec fn header_done(v: ReaderView) -> (ReaderView, Option<VlessError>) {
    let content = u16_at(v.header, 1);
    let padding = u16_at(v.header, 3);
    let v = ReaderView { command: v.header[0], fill: 0, ..v };
    if content > MAX_FRAME_BODY || padding > MAX_FRAME_BODY {
        (v, Some(VlessError::BadFrame))
    } else if content > 0 {
        (ReaderView { state: UnpadState::Content { remaining: content as u32 }, ..v }, None)
    } else if padding > 0 {
        (ReaderView { state: UnpadState::Padding { remaining: padding as u32 }, ..v }, None)
    } else {
        finish(v)
    }
}

/// A finished frame, with the state kept when its command is unknown.
pub open spec fn finish(v: ReaderView) -> (ReaderView, Option<VlessError>) {
    match frame_done(v) {
        Ok(next) => (next, None),
        Err(e) => (v, Some(e)),
    }
}

/// One byte of the stream: the next state, and the error if there is one.
pub open spec fn step(v: ReaderView, byte: u8) -> (ReaderView, Option<VlessError>) {
    match v.state {
        UnpadState::Initial | UnpadState::Direct => (v, None),
        UnpadState::Header => {
            let filled = ReaderView { header: v.header.update(v.fill, byte), fill: v.fill + 1, ..v };
            if filled.fill == 5 {
                header_done(filled)
            } else {
                (filled, None)
            }
        },
        UnpadState::Content { remaining } => if remaining > 1 {
            (
                ReaderView {
                    state: UnpadState::Content { remaining: (remaining - 1) as u32 },
                    ..v
                },
                None,
            )
        } else if u16_at(v.header, 3) > 0 {
            (
                ReaderView {
                    state: UnpadState::Padding { remaining: u16_at(v.header, 3) as u32 },
                    ..v
                },
                None,
            )
        } else {
            finish(v)
        },
        UnpadState::Padding { remaining } => if remaining > 1 {
            (
                ReaderView {
                    state: UnpadState::Padding { remaining: (remaining - 1) as u32 },
                    ..v
                },
                None,
            )
        } else {
            finish(v)
        },
    }
}

/// Whether a byte met in this state is payload.
pub open spec fn emits(state: UnpadState) -> bool {
    state is Content || state is Direct
}

/// A whole buffer inside the padding stream: the final state, what was
/// gathered behind `out`, and the first error.
pub open spec fn run(v: ReaderView, wire: Seq<u8>, out: Seq<u8>) -> (
    ReaderView,
    Seq<u8>,
    Option<VlessError>,
)
    decreases wire.len(),
{
    if wire.len() == 0 {
        (v, out, None)
    } else {
        let gathered = if emits(v.state) {
            out.push(wire[0])
        } else {
            out
        };
        match step(v, wire[0]) {
            (next, Some(e)) => (next, gathered, Some(e)),
            (next, None) => run(next, wire.skip(1), gathered),
        }
    }
}

/// The outcome of a run.
pub open spec fn run_outcome(t: (ReaderView, Seq<u8>, Option<VlessError>)) -> (
    ReaderView,
    Result<Seq<u8>, VlessError>,
) {
    match t.2 {
        Some(e) => (t.0, Err(e)),
        None => (t.0, Ok(t.1)),
    }
}

/// What a reader makes of a buffer: its next state and the payload, or the
/// error.
pub open spec fn unpadded(v: ReaderView, wire: Seq<u8>) -> (
    ReaderView,
    Result<Seq<u8>, VlessError>,
) {
    if v.state is Initial {
        if wire.len() >= 21 && wire.take(16) == v.uuid {
            run_outcome(
                run(
                    ReaderView { state: UnpadState::Header, within: true, first: false, ..v },
                    wire.skip(16),
                    Seq::empty(),
                ),
            )
        } else if v.first && wire.len() >= 21 {
            (ReaderView { first: false, ..v }, Err(VlessError::UuidMismatch))
        } else {
            (ReaderView { first: false, ..v }, Ok(wire))
        }
    } else {
        run_outcome(run(v, wire, Seq::empty()))
    }
}

/// Read-side state for one Vision direction.
///
/// The very first buffer of the stream must either carry the identity prefix or
/// be too short to be a padding frame: a buffer of 21 bytes or more without the
/// prefix is rejected, since the peer claims framing it cannot produce.
pub struct VisionReader {
    state: UnpadState,
    command: u8,
    uuid: [u8; 16],
    header: [u8; 5],
    header_fill: usize,
    /// Once a prefixed stream is seen, everything stays inside padding parsing
    /// until END or DIRECT.
    within_padding_buffers: bool,
    first_buffer: bool,
}

impl View for VisionReader {
    type V = ReaderView;

    closed spec fn view(&self) -> ReaderView {
        ReaderView {
            state: self.state,
            command: self.command,
            uuid: self.uuid@,
            header: self.header@,
            fill: self.header_fill as int,
            within: self.within_padding_buffers,
            first: self.first_buffer,
        }
    }
}

impl VisionReader {
    #[verifier::type_invariant]
    spec fn inv(&self) -> bool {
        self@.wf()
    }

    /// A reader at the start of its stream.
    pub fn new(uuid: [u8; 16]) -> (r: VisionReader)
        ensures
            r@ == (ReaderView {
                state: UnpadState::Initial,
                command: 0,
                uuid: uuid@,
                header: zeros(5),
                fill: 0,
                within: false,
                first: true,
            }),
            r@.wf(),
    {
        let r = VisionReader {
            state: UnpadState::Initial,
            command: 0,
            uuid,
            header: [0u8; 5],
            header_fill: 0,
            within_padding_buffers: false,
            first_buffer: true,
        };
        assert(r.header@ =~= zeros(5));
        r
    }

    /// Whether the stream is still inside padding parsing.
    pub fn within_padding_buffers(&self) -> (r: bool)
        ensures
            r == self@.within,
    {
        self.within_padding_buffers
    }

    /// One frame finished: dispatch on the command.
    fn end_frame(&mut self) -> (r: Option<VlessError>)
        requires
            old(self)@.fill == 0,
        ensures
            (final(self)@, r) == finish(old(self)@),
    {
        proof {
            use_type_invariant(&*self);
        }
        if self.command == PADDING_CONTINUE {
            self.state = UnpadState::Header;
            None
        } else if self.command == PADDING_END || self.command == PADDING_DIRECT {
            self.state = UnpadState::Direct;
            self.within_padding_buffers = false;
            None
        } else {
            Some(VlessError::BadFrame)
        }
    }

    /// One byte of the stream.
    fn step_byte(&mut self, byte: u8) -> (r: Option<VlessError>)
        ensures
            (final(self)@, r) == step(old(self)@, byte),
    {
        proof {
            use_type_invariant(&*self);
        }
        match self.state {
            UnpadState::Initial => None,
            UnpadState::Direct => None,
            UnpadState::Header => {
                let mut header = self.header;
                header[self.header_fill] = byte;
                self.header = header;
                if self.header_fill < 4 {
                    self.header_fill = self.header_fill + 1;
                    return None;
                }
                self.command = header[0];
                let content_len: u32 = header[1] as u32 * 256 + header[2] as u32;
                let padding_len: u32 = header[3] as u32 * 256 + header[4] as u32;
                self.header_fill = 0;
                if content_len > MAX_FRAME_BODY as u32 || padding_len > MAX_FRAME_BODY as u32 {
                    return Some(VlessError::BadFrame);
                }
                if content_len > 0 {
                    self.state = UnpadState::Content { remaining: content_len };
                    None
                } else if padding_len > 0 {
                    self.state = UnpadState::Padding { remaining: padding_len };
                    None
                } else {
                    self.end_frame()
                }
            },
            UnpadState::Content { remaining } => {
                let padding_len: u32 = self.header[3] as u32 * 256 + self.header[4] as u32;
                if remaining > 1 {
                    self.state = UnpadState::Content { remaining: remaining - 1 };
                    None
                } else if padding_len > 0 {
                    self.state = UnpadState::Padding { remaining: padding_len };
                    None
                } else {
                    self.end_frame()
                }
            },
            UnpadState::Padding { remaining } => {
                if remaining > 1 {
                    self.state = UnpadState::Padding { remaining: remaining - 1 };
                    None
                } else {
                    self.end_frame()
                }
            },
        }
    }

    /// Feeds wire bytes; returns the unpadded payload bytes. The initial state
    /// requires the prefix to lock onto the framing; without it, bytes pass
    /// through unchanged.
    pub fn unpad(&mut self, wire: &[u8]) -> (r: Result<Vec<u8>, VlessError>)
        ensures
            final(self)@ == unpadded(old(self)@, wire@).0,
            final(self)@.wf(),
            match r {
                Ok(v) => unpadded(old(self)@, wire@).1 == Ok::<_, VlessError>(v@),
                Err(e) => unpadded(old(self)@, wire@).1 == Err::<Seq<u8>, _>(e),
            },
    {
        proof {
            use_type_invariant(&*self);
        }
        let mut out: Vec<u8> = Vec::new();
        let mut i: usize = 0;
        if matches!(self.state, UnpadState::Initial) {
            let prefixed = wire.len() >= 21 && bytes_eq(&wire[0..16], &self.uuid);
            let first = self.first_buffer;
            self.first_buffer = false;
            assert(wire@.len() >= 21 ==> wire@.subrange(0, 16) =~= wire@.take(16));
            if prefixed {
                self.state = UnpadState::Header;
                self.within_padding_buffers = true;
                i = 16;
            } else if first && wire.len() >= 21 {
                return Err(VlessError::UuidMismatch);
            } else {
                return Ok(copy_slice(wire));
            }
        }
        let ghost whole = run(self@, wire@.skip(i as int), out@);
        assert(i == 0 ==> wire@.skip(0) =~= wire@);
        assert(unpadded(old(self)@, wire@) == run_outcome(whole));
        while i < wire.len()
            invariant
                i <= wire@.len(),
                self@.wf(),
                whole == run(self@, wire@.skip(i as int), out@),
                unpadded(old(self)@, wire@) == run_outcome(whole),
            decreases wire@.len() - i,
        {
            let byte = wire[i];
            assert(wire@.skip(i as int)[0] == byte);
            assert(wire@.skip(i as int).skip(1) =~= wire@.skip(i + 1));
            if matches!(self.state, UnpadState::Content { .. })
                || matches!(self.state, UnpadState::Direct) {
                out.push(byte);
            }
            let failed = self.step_byte(byte);
            proof {
                use_type_invariant(&*self);
            }
            if let Some(e) = failed {
                return Err(e);
            }
            i += 1;
        }
        Ok(out)
    }
}

// ---------------------------------------------------------------------------
// Laws
// ---------------------------------------------------------------------------

/// Direct copy hands every byte through.
proof fn lemma_run_direct(v: ReaderView, wire: Seq<u8>, out: Seq<u8>)
    requires
        v.state is Direct,
    ensures
        run(v, wire, out) == (v, out + wire, None::<VlessError>),
    decreases wire.len(),
{
    if wire.len() == 0 {
        assert(out + wire =~= out);
    } else {
        lemma_run_direct(v, wire.skip(1), out.push(wire[0]));
        assert(out.push(wire[0]) + wire.skip(1) =~= out + wire);
    }
}

/// Content bytes are gathered up to the last one.
proof fn lemma_run_content(v: ReaderView, content: Seq<u8>, rest: Seq<u8>, out: Seq<u8>)
    requires
        content.len() > 0,
        v.state == (UnpadState::Content { remaining: content.len() as u32 }),
        content.len() <= MAX_FRAME_BODY,
        v.header.len() == 5,
        v.command <= PADDING_DIRECT,
    ensures
        run(v, content + rest, out) == run(
            if u16_at(v.header, 3) > 0 {
                ReaderView {
                    state: UnpadState::Padding { remaining: u16_at(v.header, 3) as u32 },
                    ..v
                }
            } else {
                frame_done(v)->Ok_0
            },
            rest,
            out + content,
        ),
    decreases content.len(),
{
    let w = content + rest;
    assert(w[0] == content[0]);
    assert(w.skip(1) =~= content.skip(1) + rest);
    if content.len() == 1 {
        assert(content.skip(1) + rest =~= rest);
        assert(out.push(content[0]) =~= out + content);
        let kept = ReaderView { state: v.state, ..v };
        assert(kept == v);
    } else {
        let next = ReaderView {
            state: UnpadState::Content { remaining: (content.len() - 1) as u32 },
            ..v
        };
        lemma_run_content(next, content.skip(1), rest, out.push(content[0]));
        assert(out.push(content[0]) + content.skip(1) =~= out + content);
        assert(frame_done(next) == frame_done(v));
    }
}

/// Padding bytes are skipped up to the last one.
proof fn lemma_run_padding(v: ReaderView, padding: Seq<u8>, rest: Seq<u8>, out: Seq<u8>)
    requires
        padding.len() > 0,
        v.state == (UnpadState::Padding { remaining: padding.len() as u32 }),
        padding.len() <= MAX_FRAME_BODY,
        v.command <= PADDING_DIRECT,
    ensures
        run(v, padding + rest, out) == run(frame_done(v)->Ok_0, rest, out),
    decreases padding.len(),
{
    let w = padding + rest;
    assert(w.skip(1) =~= padding.skip(1) + rest);
    if padding.len() == 1 {
        assert(padding.skip(1) + rest =~= rest);
    } else {
        let next = ReaderView {
            state: UnpadState::Padding { remaining: (padding.len() - 1) as u32 },
            ..v
        };
        lemma_run_padding(next, padding.skip(1), rest, out);
        assert(frame_done(next) == frame_done(v));
    }
}

/// The five header bytes of a frame.
spec fn frame_header(command: u8, content: int, padding: int) -> Seq<u8> {
    seq![command] + be16(content) + be16(padding)
}

/// A frame header is read as it was written.
proof fn lemma_run_header(
    v: ReaderView,
    command: u8,
    content: int,
    padding: int,
    rest: Seq<u8>,
    out: Seq<u8>,
)
    requires
        v.wf(),
        v.state is Header,
        v.fill == 0,
        0 <= content <= MAX_FRAME_BODY,
        0 <= padding <= MAX_FRAME_BODY,
        command <= PADDING_DIRECT,
    ensures
        ({
            let header = frame_header(command, content, padding);
            let full = ReaderView { header, command, ..v };
            &&& u16_at(header, 1) == content
            &&& u16_at(header, 3) == padding
            &&& run(v, header + rest, out) == run(
                if content > 0 {
                    ReaderView { state: UnpadState::Content { remaining: content as u32 }, ..full }
                } else if padding > 0 {
                    ReaderView { state: UnpadState::Padding { remaining: padding as u32 }, ..full }
                } else {
                    frame_done(full)->Ok_0
                },
                rest,
                out,
            )
        }),
{
    let h = frame_header(command, content, padding);
    assert(h.len() == 5);
    assert(h[1] == be16(content)[0] && h[2] == be16(content)[1]);
    assert(h[3] == be16(padding)[0] && h[4] == be16(padding)[1]);
    let w0 = h + rest;
    let w1 = w0.skip(1);
    let w2 = w1.skip(1);
    let w3 = w2.skip(1);
    let w4 = w3.skip(1);
    let v1 = step(v, h[0]).0;
    let v2 = step(v1, h[1]).0;
    let v3 = step(v2, h[2]).0;
    let v4 = step(v3, h[3]).0;
    let v5 = step(v4, h[4]).0;
    assert(run(v, w0, out) == run(v1, w1, out));
    assert(w1[0] == h[1]);
    assert(run(v1, w1, out) == run(v2, w2, out));
    assert(w2[0] == h[2]);
    assert(run(v2, w2, out) == run(v3, w3, out));
    assert(w3[0] == h[3]);
    assert(run(v3, w3, out) == run(v4, w4, out));
    assert(w4[0] == h[4]);
    assert(w4.skip(1) =~= rest);
    let filled = v4.header.update(4, h[4]);
    assert(filled =~= h);
    let full = ReaderView { header: h, command, ..v };
    assert(step(v4, h[4]).1 is None);
    assert(run(v4, w4, out) == run(v5, rest, out));
    if content > 0 {
        assert(v5 =~= ReaderView {
            state: UnpadState::Content { remaining: content as u32 },
            ..full
        });
    } else if padding > 0 {
        assert(v5 =~= ReaderView {
            state: UnpadState::Padding { remaining: padding as u32 },
            ..full
        });
    } else {
        assert(v5 =~= frame_done(full)->Ok_0);
    }
}

/// A whole frame gives its content, whatever bytes pad it, and leaves the reader
/// at the next frame, or in direct copy behind the last one.
proof fn lemma_run_frame(
    v: ReaderView,
    content: Seq<u8>,
    command: u8,
    padding: Seq<u8>,
    rest: Seq<u8>,
    out: Seq<u8>,
) -> (next: ReaderView)
    requires
        v.wf(),
        v.state is Header,
        v.fill == 0,
        content.len() <= MAX_FRAME_BODY,
        padding.len() <= MAX_FRAME_BODY,
        command <= PADDING_DIRECT,
    ensures
        run(
            v,
            frame_header(command, content.len() as int, padding.len() as int) + content + padding
                + rest,
            out,
        ) == run(next, rest, out + content),
        next.wf(),
        next.fill == 0,
        next.uuid == v.uuid,
        next.first == v.first,
        command == PADDING_CONTINUE ==> next.state is Header && next.within == v.within,
        command != PADDING_CONTINUE ==> next.state is Direct && !next.within,
{
    let n = content.len() as int;
    let p = padding.len() as int;
    let header = frame_header(command, n, p);
    let full = ReaderView { header, command, ..v };
    let body = content + padding + rest;
    assert(header + content + padding + rest =~= header + body);
    lemma_run_header(v, command, n, p, body, out);
    let pad_rest = padding + rest;
    let next = frame_done(full)->Ok_0;
    let in_padding = ReaderView { state: UnpadState::Padding { remaining: p as u32 }, ..full };
    if p > 0 {
        lemma_run_padding(in_padding, padding, rest, out + content);
        assert(frame_done(in_padding)->Ok_0 =~= next);
    } else {
        assert(pad_rest =~= rest);
    }
    if n > 0 {
        let in_content = ReaderView {
            state: UnpadState::Content { remaining: n as u32 },
            ..full
        };
        assert(body =~= content + pad_rest);
        lemma_run_content(in_content, content, pad_rest, out);
        assert(frame_done(in_content)->Ok_0 =~= next);
    } else {
        assert(body =~= pad_rest);
        assert(out + content =~= out);
    }
    next
}

/// A frame as it is written is read back.
proof fn lemma_run_written_frame(
    v: ReaderView,
    content: Seq<u8>,
    command: u8,
    padding: int,
    rest: Seq<u8>,
    out: Seq<u8>,
) -> (next: ReaderView)
    requires
        v.wf(),
        v.state is Header,
        v.fill == 0,
        content.len() <= MAX_FRAME_BODY,
        0 <= padding <= MAX_FRAME_BODY,
        command <= PADDING_DIRECT,
    ensures
        run(v, frame_bytes(content, command, padding) + rest, out) == run(
            next,
            rest,
            out + content,
        ),
        next.wf(),
        next.fill == 0,
        next.uuid == v.uuid,
        next.first == v.first,
        command == PADDING_CONTINUE ==> next.state is Header && next.within == v.within,
        command != PADDING_CONTINUE ==> next.state is Direct && !next.within,
{
    assert(frame_bytes(content, command, padding) =~= frame_header(
        command,
        content.len() as int,
        padding,
    ) + content + zeros(padding));
    lemma_run_frame(v, content, command, zeros(padding), rest, out)
}

/// All frames of a payload give the payload.
proof fn lemma_run_frames(
    v: ReaderView,
    payload: Seq<u8>,
    long: bool,
    end: bool,
    draws: Seq<u64>,
    out: Seq<u8>,
) -> (next: ReaderView)
    requires
        v.wf(),
        v.state is Header,
        v.fill == 0,
    ensures
        run(v, frames_of(payload, long, end, draws), out) == (
            next,
            out + payload,
            None::<VlessError>,
        ),
        next.wf(),
        next.fill == 0,
        next.uuid == v.uuid,
        next.first == v.first,
        !end ==> next.state is Header && next.within == v.within,
        end ==> next.state is Direct && !next.within,
    decreases payload.len(),
{
    let m = MAX_FRAME_BODY as int;
    if payload.len() <= m {
        let command = if end {
            PADDING_END
        } else {
            PADDING_CONTINUE
        };
        let padding = padding_for(draws[0], payload.len() as int, long);
        let frame = frame_bytes(payload, command, padding);
        assert(frame + Seq::<u8>::empty() =~= frame);
        lemma_run_written_frame(v, payload, command, padding, Seq::empty(), out)
    } else {
        let head = payload.take(m);
        let tail = payload.skip(m);
        let padding = padding_for(draws[0], m, long);
        let rest = frames_of(tail, long, end, draws.skip(1));
        let mid = lemma_run_written_frame(v, head, PADDING_CONTINUE, padding, rest, out);
        assert(out + head + tail =~= out + payload);
        lemma_run_frames(mid, tail, long, end, draws.skip(1), out + head)
    }
}

/// Whether a writer and a reader stand at the same place of one stream: before
/// the identity, between two frames, or in direct copy. The reader is within
/// padding exactly while the writer is between frames.
pub open spec fn in_step(w: WriterView, r: ReaderView) -> bool {
    &&& r.wf()
    &&& r.within == (w.is_padding && w.uuid is None)
    &&& if !w.is_padding {
        r.state is Direct
    } else {
        match w.uuid {
            Some(u) => r.state is Initial && r.uuid == u,
            None => r.state is Header && r.fill == 0,
        }
    }
}

/// Law: what a writer pads, a reader in step with it unpads to exactly the
/// payload, whatever the random draws, however large the payload, and with long
/// padding or without; and the two stay in step, so they agree on whether the
/// stream is within padding. Any sequence of payloads
/// comes back unchanged, with the identity only in front of the first frame and
/// direct copy once a payload has ended the padding.
pub proof fn law_vision_round_trip(
    w: WriterView,
    r: ReaderView,
    payload: Seq<u8>,
    long: bool,
    end: bool,
    draws: Seq<u64>,
)
    requires
        in_step(w, r),
    ensures
        unpadded(r, padded(w, payload, long, end, draws)).1 == Ok::<_, VlessError>(payload),
        in_step(after_pad(w, end), unpadded(r, padded(w, payload, long, end, draws)).0),
{
    let wire = padded(w, payload, long, end, draws);
    if !w.is_padding {
        lemma_run_direct(r, wire, Seq::empty());
        assert(Seq::<u8>::empty() + payload =~= payload);
    } else {
        let frames = frames_of(payload, long, end, draws);
        lemma_frames_len(payload, long, end, draws);
        match w.uuid {
            Some(u) => {
                assert(wire.take(16) =~= u);
                assert(wire.skip(16) =~= frames);
                let v = ReaderView {
                    state: UnpadState::Header,
                    within: true,
                    first: false,
                    ..r
                };
                let next = lemma_run_frames(v, payload, long, end, draws, Seq::empty());
            },
            None => {
                assert(wire =~= frames);
                let next = lemma_run_frames(r, payload, long, end, draws, Seq::empty());
            },
        }
        assert(Seq::<u8>::empty() + payload =~= payload);
    }
}

proof fn lemma_frames_len(payload: Seq<u8>, long: bool, end: bool, draws: Seq<u64>)
    ensures
        frames_of(payload, long, end, draws).len() >= 5,
{
}

/// The layout of a padding frame, byte by byte: the command, two bytes of content
/// length and two of padding length, high byte first, the content, and the
/// padding, whose bytes may be anything.
pub open spec fn vision_frame(command: u8, content: Seq<u8>, padding: Seq<u8>) -> Seq<u8> {
    seq![
        command,
        (content.len() / 256) as u8,
        (content.len() % 256) as u8,
        (padding.len() / 256) as u8,
        (padding.len() % 256) as u8,
    ] + content + padding
}

proof fn lemma_vision_frame(command: u8, content: Seq<u8>, padding: Seq<u8>)
    requires
        content.len() < 0x1_0000,
        padding.len() < 0x1_0000,
    ensures
        vision_frame(command, content, padding) == frame_header(
            command,
            content.len() as int,
            padding.len() as int,
        ) + content + padding,
{
    assert(vision_frame(command, content, padding) =~= frame_header(
        command,
        content.len() as int,
        padding.len() as int,
    ) + content + padding);
}

/// Law: a frame that ends the padding, with the END command (1) or with the
/// DIRECT command (2), gives exactly its content, followed by everything behind
/// the frame; the reader is then in direct copy and no longer within padding.
/// This holds for every content and every padding that fit a frame body.
pub proof fn law_last_frame_switches_to_direct(
    r: ReaderView,
    command: u8,
    content: Seq<u8>,
    padding: Seq<u8>,
    rest: Seq<u8>,
)
    requires
        r.wf(),
        r.state is Header,
        r.fill == 0,
        command == 1 || command == 2,
        content.len() <= 2027,
        padding.len() <= 2027,
    ensures
        unpadded(r, vision_frame(command, content, padding) + rest).1 == Ok::<_, VlessError>(
            content + rest,
        ),
        unpadded(r, vision_frame(command, content, padding) + rest).0.state is Direct,
        !unpadded(r, vision_frame(command, content, padding) + rest).0.within,
{
    lemma_vision_frame(command, content, padding);
    let next = lemma_run_frame(r, content, command, padding, rest, Seq::empty());
    lemma_run_direct(next, rest, Seq::<u8>::empty() + content);
    assert(Seq::<u8>::empty() + content + rest =~= content + rest);
}

/// Law: a frame with the CONTINUE command (0) gives exactly its content and
/// leaves the reader in front of the next frame header, within padding as
/// before.
pub proof fn law_continue_frame_expects_another(
    r: ReaderView,
    content: Seq<u8>,
    padding: Seq<u8>,
)
    requires
        r.wf(),
        r.state is Header,
        r.fill == 0,
        content.len() <= 2027,
        padding.len() <= 2027,
    ensures
        unpadded(r, vision_frame(0, content, padding)).1 == Ok::<_, VlessError>(content),
        ({
            let next = unpadded(r, vision_frame(0, content, padding)).0;
            &&& next.wf()
            &&& next.state is Header
            &&& next.fill == 0
            &&& next.uuid == r.uuid
            &&& next.within == r.within
        }),
{
    let frame = vision_frame(0, content, padding);
    lemma_vision_frame(0, content, padding);
    let none = Seq::<u8>::empty();
    assert(frame + none =~= frame);
    let next = lemma_run_frame(r, content, 0, padding, none, none);
    assert(none + content =~= content);
}

/// Law: the identity in front of the first frame locks the reader onto the
/// framing: what follows it is read as frames, within padding.
pub proof fn law_identity_starts_the_frames(r: ReaderView, rest: Seq<u8>)
    requires
        r.wf(),
        r.state is Initial,
        rest.len() >= 5,
    ensures
        ({
            let locked = ReaderView {
                state: UnpadState::Header,
                within: true,
                first: false,
                ..r
            };
            &&& locked.wf()
            &&& unpadded(r, r.uuid + rest) == unpadded(locked, rest)
        }),
{
    let wire = r.uuid + rest;
    assert(wire.take(16) =~= r.uuid);
    assert(wire.skip(16) =~= rest);
}

/// Law: a buffer that does not start a padding stream passes through unchanged,
/// if it is too short for a frame or not the first one, and the reader goes on
/// waiting for the identity.
pub proof fn law_unframed_buffer_passes_through(r: ReaderView, wire: Seq<u8>)
    requires
        r.state is Initial,
        wire.len() < 21 || (!r.first && wire.take(16) != r.uuid),
    ensures
        unpadded(r, wire).1 == Ok::<_, VlessError>(wire),
        unpadded(r, wire).0 == (ReaderView { first: false, ..r }),
{
}

/// Law: a frame whose command is none of the three is refused once it is whole.
#[verifier::spinoff_prover]
#[verifier::rlimit(50)]
pub proof fn law_unknown_command_is_refused(
    r: ReaderView,
    command: u8,
    content: Seq<u8>,
    padding: Seq<u8>,
    rest: Seq<u8>,
)
    requires
        r.wf(),
        r.state is Header,
        r.fill == 0,
        command > 2,
        content.len() <= 2027,
        padding.len() <= 2027,
    ensures
        unpadded(r, vision_frame(command, content, padding) + rest).1 == Err::<Seq<u8>, _>(
            VlessError::BadFrame,
        ),
{
    lemma_vision_frame(command, content, padding);
    let n = content.len() as int;
    let p = padding.len() as int;
    let header = frame_header(command, n, p);
    let full = ReaderView { header, command, ..r };
    let body = content + padding + rest;
    assert(vision_frame(command, content, padding) + rest =~= header + body);
    lemma_run_to_header_end(r, header, body, Seq::empty());
    lemma_header_lengths(command, n, p);
    let in_padding = ReaderView { state: UnpadState::Padding { remaining: p as u32 }, ..full };
    if n > 0 {
        let in_content = ReaderView {
            state: UnpadState::Content { remaining: n as u32 },
            ..full
        };
        assert(body =~= content + (padding + rest));
        lemma_run_bad_content(in_content, content, padding, rest, Seq::empty());
    } else if p > 0 {
        assert(body =~= padding + rest);
        lemma_run_bad_padding(in_padding, padding, rest, Seq::empty());
    }
}

/// Law: a frame header that declares more content or more padding than a frame
/// body holds is refused at once.
pub proof fn law_oversized_frame_is_refused(r: ReaderView, header: Seq<u8>, rest: Seq<u8>)
    requires
        r.wf(),
        r.state is Header,
        r.fill == 0,
        header.len() == 5,
        header[1] * 256 + header[2] > 2027 || header[3] * 256 + header[4] > 2027,
    ensures
        unpadded(r, header + rest).1 == Err::<Seq<u8>, _>(VlessError::BadFrame),
{
    lemma_run_to_header_end(r, header, rest, Seq::empty());
}

proof fn lemma_header_lengths(command: u8, content: int, padding: int)
    requires
        0 <= content < 0x1_0000,
        0 <= padding < 0x1_0000,
    ensures
        frame_header(command, content, padding).len() == 5,
        frame_header(command, content, padding)[0] == command,
        u16_at(frame_header(command, content, padding), 1) == content,
        u16_at(frame_header(command, content, padding), 3) == padding,
{
    let h = frame_header(command, content, padding);
    assert(h[1] == be16(content)[0] && h[2] == be16(content)[1]);
    assert(h[3] == be16(padding)[0] && h[4] == be16(padding)[1]);
}

/// Five header bytes bring the reader to the decision at the end of the header.
#[verifier::spinoff_prover]
#[verifier::rlimit(50)]
proof fn lemma_run_to_header_end(v: ReaderView, h: Seq<u8>, rest: Seq<u8>, out: Seq<u8>)
    requires
        v.wf(),
        v.state is Header,
        v.fill == 0,
        h.len() == 5,
    ensures
        ({
            let done = header_done(ReaderView { header: h, fill: 5, ..v });
            run(v, h + rest, out) == match done.1 {
                Some(e) => (done.0, out, Some(e)),
                None => run(done.0, rest, out),
            }
        }),
{
    let w0 = h + rest;
    let w1 = w0.skip(1);
    let w2 = w1.skip(1);
    let w3 = w2.skip(1);
    let w4 = w3.skip(1);
    let v1 = step(v, h[0]).0;
    let v2 = step(v1, h[1]).0;
    let v3 = step(v2, h[2]).0;
    let v4 = step(v3, h[3]).0;
    assert(run(v, w0, out) == run(v1, w1, out));
    assert(w1[0] == h[1]);
    assert(run(v1, w1, out) == run(v2, w2, out));
    assert(w2[0] == h[2]);
    assert(run(v2, w2, out) == run(v3, w3, out));
    assert(w3[0] == h[3]);
    assert(run(v3, w3, out) == run(v4, w4, out));
    assert(w4[0] == h[4]);
    assert(w4.skip(1) =~= rest);
    assert(v4.header.update(4, h[4]) =~= h);
    assert(step(v4, h[4]) == header_done(ReaderView { header: h, fill: 5, ..v }));
}

proof fn lemma_run_bad_padding(v: ReaderView, padding: Seq<u8>, rest: Seq<u8>, out: Seq<u8>)
    requires
        padding.len() > 0,
        v.state == (UnpadState::Padding { remaining: padding.len() as u32 }),
        padding.len() <= MAX_FRAME_BODY,
        v.command > PADDING_DIRECT,
    ensures
        run(v, padding + rest, out).2 == Some(VlessError::BadFrame),
    decreases padding.len(),
{
    let w = padding + rest;
    assert(w.skip(1) =~= padding.skip(1) + rest);
    if padding.len() > 1 {
        let next = ReaderView {
            state: UnpadState::Padding { remaining: (padding.len() - 1) as u32 },
            ..v
        };
        lemma_run_bad_padding(next, padding.skip(1), rest, out);
    }
}

proof fn lemma_run_bad_content(
    v: ReaderView,
    content: Seq<u8>,
    padding: Seq<u8>,
    rest: Seq<u8>,
    out: Seq<u8>,
)
    requires
        content.len() > 0,
        v.state == (UnpadState::Content { remaining: content.len() as u32 }),
        content.len() <= MAX_FRAME_BODY,
        padding.len() <= MAX_FRAME_BODY,
        u16_at(v.header, 3) == padding.len(),
        v.command > PADDING_DIRECT,
    ensures
        run(v, content + (padding + rest), out).2 == Some(VlessError::BadFrame),
    decreases content.len(),
{
    let w = content + (padding + rest);
    assert(w[0] == content[0]);
    assert(w.skip(1) =~= content.skip(1) + (padding + rest));
    if content.len() == 1 {
        assert(content.skip(1) + (padding + rest) =~= padding + rest);
        if padding.len() > 0 {
            let next = ReaderView {
                state: UnpadState::Padding { remaining: padding.len() as u32 },
                ..v
            };
            lemma_run_bad_padding(next, padding, rest, out.push(content[0]));
        }
    } else {
        let next = ReaderView {
            state: UnpadState::Content { remaining: (content.len() - 1) as u32 },
            ..v
        };
        lemma_run_bad_content(next, content.skip(1), padding, rest, out.push(content[0]));
    }
}

/// Law: content is handed out as it comes: of a frame that has arrived only in
/// part, the reader gives the content bytes that are there.
pub proof fn law_content_is_not_held_back(
    r: ReaderView,
    command: u8,
    content: Seq<u8>,
    padding: Seq<u8>,
    have: int,
)
    requires
        r.wf(),
        r.state is Header,
        r.fill == 0,
        0 <= have < content.len() <= 2027,
        padding.len() <= 2027,
    ensures
        unpadded(r, vision_frame(command, content, padding).take(5 + have)).1 == Ok::<
            _,
            VlessError,
        >(content.take(have)),
        unpadded(r, vision_frame(command, content, padding).take(5 + have)).0.state == (
        UnpadState::Content { remaining: (content.len() - have) as u32 }),
{
    lemma_vision_frame(command, content, padding);
    let n = content.len() as int;
    let p = padding.len() as int;
    let header = frame_header(command, n, p);
    let part = content.take(have);
    lemma_header_lengths(command, n, p);
    assert(vision_frame(command, content, padding).take(5 + have) =~= header + part);
    lemma_run_to_header_end(r, header, part, Seq::empty());
    let v = header_done(ReaderView { header, fill: 5, ..r }).0;
    lemma_run_part_of_content(v, part, n, Seq::empty());
    assert(Seq::<u8>::empty() + part =~= part);
}

proof fn lemma_run_part_of_content(v: ReaderView, part: Seq<u8>, left: int, out: Seq<u8>)
    requires
        part.len() < left <= MAX_FRAME_BODY,
        v.state == (UnpadState::Content { remaining: left as u32 }),
    ensures
        run(v, part, out) == (
            ReaderView {
                state: UnpadState::Content { remaining: (left - part.len()) as u32 },
                ..v
            },
            out + part,
            None::<VlessError>,
        ),
    decreases part.len(),
{
    if part.len() == 0 {
        assert(out + part =~= out);
    } else {
        let next = ReaderView {
            state: UnpadState::Content { remaining: (left - 1) as u32 },
            ..v
        };
        lemma_run_part_of_content(next, part.skip(1), left - 1, out.push(part[0]));
        assert(out.push(part[0]) + part.skip(1) =~= out + part);
    }
}

/// Law: what a padding writer puts on the wire for a payload that fits a frame
/// body: the identity, if it is still owed, and one frame with the payload as
/// its content and zeros as its padding. Its command is 1 if the payload ends
/// the padding and 0 if not; afterwards no identity is owed, and the writer pads
/// on exactly if the payload did not end the padding.
pub proof fn law_written_frame(
    w: WriterView,
    payload: Seq<u8>,
    long: bool,
    end: bool,
    draws: Seq<u64>,
)
    requires
        w.is_padding,
        payload.len() <= 2027,
    ensures
        padded(w, payload, long, end, draws) == (match w.uuid {
            Some(u) => u,
            None => Seq::empty(),
        }) + vision_frame(
            if end {
                1
            } else {
                0
            },
            payload,
            Seq::new(padding_for(draws[0], payload.len() as int, long) as nat, |i: int| 0u8),
        ),
        after_pad(w, end).uuid is None,
        after_pad(w, end).is_padding == !end,
        frame_count(payload.len() as int) == 1,
{
    let padding = padding_for(draws[0], payload.len() as int, long);
    lemma_vision_frame(
        if end {
            1
        } else {
            0
        },
        payload,
        zeros(padding),
    );
    assert(zeros(padding) =~= Seq::new(padding as nat, |i: int| 0u8));
    assert(padded(w, payload, long, end, draws) =~= prefix_bytes(w.uuid) + vision_frame(
        if end {
            1
        } else {
            0
        },
        payload,
        zeros(padding),
    ));
}

/// Law: a longer payload is cut: its first 2027 bytes leave in a frame of their
/// own that continues, and the rest follows as a payload without the identity
/// would, on the draws that are left.
pub proof fn law_long_payload_is_cut(
    w: WriterView,
    payload: Seq<u8>,
    long: bool,
    end: bool,
    draws: Seq<u64>,
)
    requires
        w.is_padding,
        payload.len() > 2027,
    ensures
        padded(w, payload, long, end, draws) == padded(w, payload.take(2027), long, false, draws)
            + padded(
            WriterView { uuid: None, is_padding: true },
            payload.skip(2027),
            long,
            end,
            draws.skip(1),
        ),
        frame_count(payload.len() as int) == 1 + frame_count(payload.len() - 2027),
        after_pad(w, end).uuid is None,
        after_pad(w, end).is_padding == !end,
{
    assert(padded(w, payload, long, end, draws) =~= padded(
        w,
        payload.take(2027),
        long,
        false,
        draws,
    ) + padded(
        WriterView { uuid: None, is_padding: true },
        payload.skip(2027),
        long,
        end,
        draws.skip(1),
    ));
}

/// Law: the padding a draw gives. Long padding fills short content (under 900
/// bytes) up to a total of 900 and then some, the draw modulo 500; other padding
/// is the draw modulo 256; and padding never pushes a frame body over 2027
/// bytes.
pub proof fn law_padding_of_draw(draw: u64, content_len: int, long: bool)
    requires
        0 <= content_len <= 2027,
    ensures
        long && content_len < 900 ==> padding_for(draw, content_len, long) == 900 - content_len
            + draw % 500,
        !(long && content_len < 900) && draw % 256 <= 2027 - content_len ==> padding_for(
            draw,
            content_len,
            long,
        ) == draw % 256,
        !(long && content_len < 900) && draw % 256 > 2027 - content_len ==> padding_for(
            draw,
            content_len,
            long,
        ) == 2027 - content_len,
{
}

/// Law: a writer that has ended its padding hands every payload through.
pub proof fn law_ended_writer_copies(
    w: WriterView,
    payload: Seq<u8>,
    long: bool,
    end: bool,
    draws: Seq<u64>,
)
    requires
        !w.is_padding,
    ensures
        padded(w, payload, long, end, draws) == payload,
        after_pad(w, end) == w,
{
}

/// Law: every frame fits one buffer: content, padding, the frame header and the
/// identity together never pass [`BUF_SIZE`].
pub proof fn law_frame_fits_buffer(content: Seq<u8>, command: u8, uuid: Option<Seq<u8>>, draw: u64, long: bool)
    requires
        content.len() <= MAX_FRAME_BODY,
        uuid matches Some(u) ==> u.len() == 16,
    ensures
        (prefix_bytes(uuid) + frame_bytes(
            content,
            command,
            padding_for(draw, content.len() as int, long),
        )).len() <= BUF_SIZE,
{
}

/// Law: long padding hides short content: a frame with long padding carries
/// content and padding of 900 bytes or more together.
pub proof fn law_long_padding_hides_content(content: Seq<u8>, draw: u64)
    requires
        content.len() < 900,
    ensures
        content.len() + padding_for(draw, content.len() as int, true) >= 900,
{
}

/// Law: a first buffer that is large enough to be a padding frame and does not
/// carry the reader's identity is refused, and the reader stays outside padding
/// parsing.
pub proof fn law_foreign_identity_is_refused(r: ReaderView, wire: Seq<u8>)
    requires
        r.state is Initial,
        r.first,
        wire.len() >= 21,
        wire.take(16) != r.uuid,
    ensures
        unpadded(r, wire).1 == Err::<Seq<u8>, _>(VlessError::UuidMismatch),
        unpadded(r, wire).0.within == r.within,
{
}

/// Law: a reader inside the stream does not care how the bytes are cut into
/// buffers: two buffers one after the other give what both give at once.
pub proof fn law_unpad_ignores_buffer_cuts(r: ReaderView, a: Seq<u8>, b: Seq<u8>)
    requires
        r.state !is Initial,
        unpadded(r, a).1 is Ok,
    ensures
        unpadded(r, a + b).0 == unpadded(unpadded(r, a).0, b).0,
        match unpadded(unpadded(r, a).0, b).1 {
            Ok(second) => unpadded(r, a + b).1 == Ok::<_, VlessError>(
                unpadded(r, a).1->Ok_0 + second,
            ),
            Err(e) => unpadded(r, a + b).1 == Err::<Seq<u8>, _>(e),
        },
{
    let mid = run(r, a, Seq::empty());
    lemma_run_concat(r, a, b, Seq::empty());
    lemma_run_never_initial(r, a, Seq::empty());
    lemma_run_out(mid.0, b, mid.1);
}

proof fn lemma_run_concat(v: ReaderView, a: Seq<u8>, b: Seq<u8>, out: Seq<u8>)
    requires
        run(v, a, out).2 is None,
    ensures
        run(v, a + b, out) == run(run(v, a, out).0, b, run(v, a, out).1),
    decreases a.len(),
{
    if a.len() == 0 {
        assert(a + b =~= b);
    } else {
        assert((a + b).skip(1) =~= a.skip(1) + b);
        let gathered = if emits(v.state) {
            out.push(a[0])
        } else {
            out
        };
        lemma_run_concat(step(v, a[0]).0, a.skip(1), b, gathered);
    }
}

proof fn lemma_run_never_initial(v: ReaderView, a: Seq<u8>, out: Seq<u8>)
    requires
        v.state !is Initial,
    ensures
        run(v, a, out).0.state !is Initial,
    decreases a.len(),
{
    if a.len() > 0 {
        let gathered = if emits(v.state) {
            out.push(a[0])
        } else {
            out
        };
        let next = step(v, a[0]);
        assert(next.0.state !is Initial);
        if next.1 is None {
            lemma_run_never_initial(next.0, a.skip(1), gathered);
        }
    }
}

/// What is gathered stands behind what was there.
proof fn lemma_run_out(v: ReaderView, b: Seq<u8>, out: Seq<u8>)
    ensures
        run(v, b, out).0 == run(v, b, Seq::empty()).0,
        run(v, b, out).1 == out + run(v, b, Seq::empty()).1,
        run(v, b, out).2 == run(v, b, Seq::empty()).2,
    decreases b.len(),
{
    if b.len() == 0 {
        assert(out + Seq::<u8>::empty() =~= out);
    } else {
        let next = step(v, b[0]);
        if emits(v.state) {
            let one = Seq::<u8>::empty().push(b[0]);
            if next.1 is None {
                lemma_run_out(next.0, b.skip(1), out.push(b[0]));
                lemma_run_out(next.0, b.skip(1), one);
                let tail = run(next.0, b.skip(1), Seq::empty()).1;
                assert(out.push(b[0]) + tail =~= out + (one + tail));
            } else {
                assert(out + one =~= out.push(b[0]));
            }
        } else {
            if next.1 is None {
                lemma_run_out(next.0, b.skip(1), out);
                lemma_run_out(next.0, b.skip(1), Seq::empty());
            } else {
                assert(out + Seq::<u8>::empty() =~= out);
            }
        }
    }
}

} // verus!
